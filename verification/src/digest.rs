use crate::multi_writer::{takes_all, Call, Sink, SinkError};
use vstd::prelude::*;

verus! {

/// The SHA3-256 digest of `data`, as `sha3` computes it.
pub uninterp spec fn sha3_256(data: Seq<u8>) -> Seq<u8>;

/// The BLAKE3 hash of `data`, as `blake3` computes it.
pub uninterp spec fn blake3_hash(data: Seq<u8>) -> Seq<u8>;

/// The bytes a SHA3-256 state has taken in since it was made or last
/// finished.
pub uninterp spec fn sha3_fed(state: Sha3State) -> Seq<u8>;

/// The bytes a BLAKE3 hasher has taken in since it was made or last reset.
pub uninterp spec fn blake3_fed(hasher: blake3::Hasher) -> Seq<u8>;

/// The character of one hexadecimal digit, lower case.
pub open spec fn hex_digit(v: int) -> char {
    "0123456789abcdef"@[v]
}

/// Two lower-case hexadecimal digits for each byte, the high half first.
pub open spec fn hex_text(data: Seq<u8>) -> Seq<char> {
    Seq::new(
        2 * data.len(),
        |i: int|
            hex_digit(
                if i % 2 == 0 {
                    data[i / 2] as int / 16
                } else {
                    data[i / 2] as int % 16
                },
            ),
    )
}

/// The character of one six-bit group in the URL-safe base 64 alphabet.
pub open spec fn base64url_digit(v: int) -> char {
    "ABCDEFGHIJKLMNOPQRSTUVWXYZabcdefghijklmnopqrstuvwxyz0123456789-_"@[v]
}

/// The `i`-th group of six bits of `data`, read from the highest bit of the
/// first byte on; bits past the end count as zero.
pub open spec fn sextet(data: Seq<u8>, i: int) -> int {
    let at = (6 * i) / 8;
    let next = if at + 1 < data.len() {
        data[at + 1] as int
    } else {
        0
    };
    let window = data[at] as int * 256 + next;
    let offset = (6 * i) % 8;
    let scale: int = if offset == 0 {
        1024
    } else if offset == 6 {
        16
    } else if offset == 4 {
        64
    } else {
        256
    };
    (window / scale) % 64
}

/// URL-safe base 64 without padding: one character for each started group
/// of six bits.
pub open spec fn base64url_text(data: Seq<u8>) -> Seq<char> {
    Seq::new((4 * data.len() + 2) / 3, |i: int| base64url_digit(sextet(data, i)))
}

/// A running SHA3-256 computation: a `sha3::Sha3_256` behind a closed
/// field. What it has taken in is known only by the name `sha3_fed`.
#[verifier::external_body]
pub struct Sha3State {
    inner: sha3::Sha3_256,
}

#[verifier::external_type_specification]
#[verifier::external_body]
pub struct ExBlake3Hasher(blake3::Hasher);

/// `Digest::new` of `sha3::Sha3_256`: a state that has taken in nothing.
#[verifier::external_body]
fn sha3_start() -> (state: Sha3State)
    ensures
        sha3_fed(state) == Seq::<u8>::empty(),
{
    Sha3State { inner: <sha3::Sha3_256 as sha3::Digest>::new() }
}

/// `Digest::update` of `sha3::Sha3_256`: the state takes in `data` after
/// what it already holds.
#[verifier::external_body]
fn sha3_update(state: &mut Sha3State, data: &[u8])
    ensures
        sha3_fed(*final(state)) == sha3_fed(*old(state)) + data@,
{
    sha3::Digest::update(&mut state.inner, data);
}

/// `Digest::finalize_reset` of `sha3::Sha3_256`: the digest of all that was
/// taken in; the state starts over.
#[verifier::external_body]
fn sha3_finish(state: &mut Sha3State) -> (digest: Vec<u8>)
    ensures
        digest@ == sha3_256(sha3_fed(*old(state))),
        sha3_fed(*final(state)) == Seq::<u8>::empty(),
{
    sha3::Digest::finalize_reset(&mut state.inner).to_vec()
}

/// `blake3::Hasher::new`: a hasher that has taken in nothing.
#[verifier::external_body]
fn blake3_start() -> (hasher: blake3::Hasher)
    ensures
        blake3_fed(hasher) == Seq::<u8>::empty(),
{
    blake3::Hasher::new()
}

/// `blake3::Hasher::update`: the hasher takes in `data` after what it
/// already holds.
#[verifier::external_body]
fn blake3_update(hasher: &mut blake3::Hasher, data: &[u8])
    ensures
        blake3_fed(*final(hasher)) == blake3_fed(*old(hasher)) + data@,
{
    hasher.update(data);
}

/// `blake3::Hasher::finalize`: the hash of all that was taken in; the
/// hasher is left as it was.
#[verifier::external_body]
fn blake3_finalize(hasher: &blake3::Hasher) -> (digest: Vec<u8>)
    ensures
        digest@ == blake3_hash(blake3_fed(*hasher)),
{
    hasher.finalize().as_bytes().to_vec()
}

/// `blake3::Hasher::reset`: the hasher forgets what it took in.
#[verifier::external_body]
fn blake3_reset(hasher: &mut blake3::Hasher)
    ensures
        blake3_fed(*final(hasher)) == Seq::<u8>::empty(),
{
    hasher.reset();
}

/// `hex::encode`: the bytes as lower-case hexadecimal text.
#[verifier::external_body]
fn hex_encode(data: &[u8]) -> (out: String)
    ensures
        out@ == hex_text(data@),
{
    hex::encode(data)
}

/// `data_encoding::BASE64URL_NOPAD.encode`: the bytes in URL-safe base 64,
/// without padding.
#[verifier::external_body]
fn base64url_encode(data: &[u8]) -> (out: String)
    ensures
        out@ == base64url_text(data@),
{
    data_encoding::BASE64URL_NOPAD.encode(data)
}

/// The text under which a payload of an archive is known: the hexadecimal
/// SHA3-256 digest of its bytes.
pub open spec fn payload_hash(data: Seq<u8>) -> Seq<char> {
    hex_text(sha3_256(data))
}

/// The text under which a file of a mod is known: the BLAKE3 hash of its
/// bytes in URL-safe base 64.
pub open spec fn file_hash(data: Seq<u8>) -> Seq<char> {
    base64url_text(blake3_hash(data))
}

/// A sink that hashes what it is given with SHA3-256.
pub struct Sha3Sink {
    state: Sha3State,
    log: Ghost<Seq<Call>>,
}

impl Sha3Sink {
    /// A sink that has taken in nothing.
    pub fn new() -> (sink: Self)
        ensures
            sink.received() == Seq::<u8>::empty(),
            sink.calls() == Seq::<Call>::empty(),
    {
        Sha3Sink { state: sha3_start(), log: Ghost(Seq::empty()) }
    }

    /// The hash text of everything received so far; the sink starts over.
    pub fn finish(&mut self) -> (hash: String)
        ensures
            hash@ == payload_hash(old(self).received()),
            final(self).received() == Seq::<u8>::empty(),
            final(self).calls() == old(self).calls(),
    {
        let digest = sha3_finish(&mut self.state);
        hex_encode(digest.as_slice())
    }
}

impl Sink for Sha3Sink {
    closed spec fn received(&self) -> Seq<u8> {
        sha3_fed(self.state)
    }

    closed spec fn calls(&self) -> Seq<Call> {
        self.log@
    }

    open spec fn steady(&self) -> bool {
        true
    }

    open spec fn rule(&self) -> spec_fn(Seq<u8>, Seq<u8>) -> Result<usize, SinkError> {
        takes_all()
    }

    fn write(&mut self, buf: &[u8]) -> (outcome: Result<usize, SinkError>) {
        sha3_update(&mut self.state, buf);
        proof {
            assert(buf@.take(buf@.len() as int) == buf@);
            self.log = Ghost(self.log@.push(Call::Wrote { buf: buf@, outcome: Ok(buf.len()) }));
        }
        Ok(buf.len())
    }

    fn flush(&mut self) -> (outcome: Result<(), SinkError>) {
        proof {
            self.log = Ghost(self.log@.push(Call::Flushed { outcome: Ok(()) }));
        }
        Ok(())
    }
}

/// A sink that hashes what it is given with BLAKE3.
pub struct Blake3Sink {
    hasher: blake3::Hasher,
    log: Ghost<Seq<Call>>,
}

impl Blake3Sink {
    /// A sink that has taken in nothing.
    pub fn new() -> (sink: Self)
        ensures
            sink.received() == Seq::<u8>::empty(),
            sink.calls() == Seq::<Call>::empty(),
    {
        Blake3Sink { hasher: blake3_start(), log: Ghost(Seq::empty()) }
    }

    /// The hash text of everything received so far; the sink starts over.
    pub fn finish(&mut self) -> (hash: String)
        ensures
            hash@ == file_hash(old(self).received()),
            final(self).received() == Seq::<u8>::empty(),
            final(self).calls() == old(self).calls(),
    {
        let digest = blake3_finalize(&self.hasher);
        blake3_reset(&mut self.hasher);
        base64url_encode(digest.as_slice())
    }
}

impl Sink for Blake3Sink {
    closed spec fn received(&self) -> Seq<u8> {
        blake3_fed(self.hasher)
    }

    closed spec fn calls(&self) -> Seq<Call> {
        self.log@
    }

    open spec fn steady(&self) -> bool {
        true
    }

    open spec fn rule(&self) -> spec_fn(Seq<u8>, Seq<u8>) -> Result<usize, SinkError> {
        takes_all()
    }

    fn write(&mut self, buf: &[u8]) -> (outcome: Result<usize, SinkError>) {
        blake3_update(&mut self.hasher, buf);
        proof {
            assert(buf@.take(buf@.len() as int) == buf@);
            self.log = Ghost(self.log@.push(Call::Wrote { buf: buf@, outcome: Ok(buf.len()) }));
        }
        Ok(buf.len())
    }

    fn flush(&mut self) -> (outcome: Result<(), SinkError>) {
        proof {
            self.log = Ghost(self.log@.push(Call::Flushed { outcome: Ok(()) }));
        }
        Ok(())
    }
}

} // verus!
