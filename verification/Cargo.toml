[package]
name = "modpack_core"
version = "0.1.0"
edition = "2021"
publish = false

[dependencies]
anyhow = "=1.0.104"
blake3 = { version = "=1.8.7", features = ["traits-preview"] }
data-encoding = "=2.11.1"
hex = "=0.4.3"
html5ever = "=0.39.0"
itertools = "=0.13.0"
lazy_static = "=1.5.1"
lol_html = "=1.2.1"
maplit = "=1.0.2"
markup5ever_rcdom = "=0.39.0"
reqwest = { version = "=0.12.28", default-features = false }
scraper = "=0.29.0"
serde = { version = "=1.0.229", features = ["derive"] }
serde_json = "=1.0.154"
sha3 = "=0.10.9"
tempfile = "=3.27.0"
tokio = { version = "=1.54.1", features = ["fs", "io-util", "rt", "sync"] }
url = { version = "=2.5.8", features = ["serde"] }
uuid = { version = "=1.29.0", features = ["serde"] }
zip = "=9.0.5"
zstd = "=0.13.3"
