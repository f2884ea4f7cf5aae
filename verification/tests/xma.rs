use modpack_core::converters::xma::{
    check_mod_url, fix_href, judge_mod_page, rate, render, render_text, to_markdown, trim_start,
    ConvertedInfo, Node, XmaError,
};

fn text(contents: &str) -> Node {
    Node::Text { contents: contents.to_string() }
}

fn element(name: &str, children: Vec<Node>) -> Node {
    Node::Element { name: name.to_string(), href: None, children }
}

fn link(target: &str, children: Vec<Node>) -> Node {
    Node::Element { name: "a".to_string(), href: Some(target.to_string()), children }
}

#[test]
fn only_pages_of_mods_are_taken() {
    assert_eq!(judge_mod_page(Some("xivmodarchive.com"), "/modid/1"), Ok(()));
    assert_eq!(judge_mod_page(Some("www.xivmodarchive.com"), "/modid/"), Ok(()));
    assert_eq!(judge_mod_page(Some("example.com"), "/modid/1"), Err(XmaError::NotXma));
    assert_eq!(judge_mod_page(Some("cdn.xivmodarchive.com"), "/modid/1"), Err(XmaError::NotXma));
    assert_eq!(judge_mod_page(None, "/modid/1"), Err(XmaError::NotXma));
    assert_eq!(judge_mod_page(None, "/user/1"), Err(XmaError::NotXma));
    assert_eq!(
        judge_mod_page(Some("xivmodarchive.com"), "/user/1"),
        Err(XmaError::NotAModPage)
    );
    assert_eq!(
        judge_mod_page(Some("xivmodarchive.com"), "/modid"),
        Err(XmaError::NotAModPage)
    );
    assert_eq!(judge_mod_page(Some("xivmodarchive.com"), ""), Err(XmaError::NotAModPage));
}

#[test]
fn addresses_are_read_and_judged() {
    assert_eq!(
        check_mod_url("https://www.xivmodarchive.com/modid/123").unwrap().as_str(),
        "https://www.xivmodarchive.com/modid/123"
    );
    assert_eq!(
        check_mod_url("https://XIVModArchive.com/modid/9?x=1").unwrap().as_str(),
        "https://xivmodarchive.com/modid/9?x=1"
    );
    assert_eq!(check_mod_url("not an address"), Err(XmaError::InvalidUrl));
    assert_eq!(check_mod_url(""), Err(XmaError::InvalidUrl));
    assert_eq!(check_mod_url("https://example.com/modid/1"), Err(XmaError::NotXma));
    assert_eq!(check_mod_url("mailto:someone@xivmodarchive.com"), Err(XmaError::NotXma));
    assert_eq!(
        check_mod_url("https://xivmodarchive.com/search?tags=a"),
        Err(XmaError::NotAModPage)
    );
}

#[test]
fn white_space_at_the_start_is_left_out() {
    assert_eq!(trim_start("  \n\t text "), "text ");
    assert_eq!(trim_start("text"), "text");
    assert_eq!(trim_start("   "), "");
    assert_eq!(trim_start(""), "");
    assert_eq!(trim_start("\u{3000}\u{a0}x"), "x");
    assert_eq!(trim_start("  \u{25FD} x"), "\u{25FD} x");
}

#[test]
fn marked_text_becomes_a_list_item() {
    let mut out = String::from("before|");
    render_text("  - first", &mut out);
    assert_eq!(out, "before|- first");
    let mut out = String::new();
    render_text("\u{25FD}second  ", &mut out);
    assert_eq!(out, "- second  ");
    let mut out = String::new();
    render_text("-", &mut out);
    assert_eq!(out, "- ");
    let mut out = String::new();
    render_text("--x", &mut out);
    assert_eq!(out, "- -x");
}

#[test]
fn other_text_stays_as_it_is() {
    let mut out = String::new();
    render_text("  plain - text ", &mut out);
    assert_eq!(out, "  plain - text ");
    let mut out = String::from("x");
    render_text("", &mut out);
    assert_eq!(out, "x");
    let mut out = String::new();
    render_text("   ", &mut out);
    assert_eq!(out, "   ");
}

#[test]
fn elements_wrap_their_children() {
    assert_eq!(to_markdown(&element("h2", vec![text("Title")])), "## Title\n");
    assert_eq!(to_markdown(&element("strong", vec![text("bold")])), "**bold**");
    assert_eq!(to_markdown(&element("em", vec![text("soft")])), "*soft*");
    assert_eq!(to_markdown(&element("p", vec![text("para")])), "\npara");
    assert_eq!(to_markdown(&element("br", vec![])), "  \n");
    assert_eq!(to_markdown(&element("div", vec![text("in")])), "in");
    assert_eq!(to_markdown(&element("H2", vec![text("in")])), "in");
    assert_eq!(
        to_markdown(&link("https://example.com/", vec![text("here")])),
        "[here](https://example.com/)"
    );
    assert_eq!(to_markdown(&element("a", vec![text("bare")])), "bare");
    assert_eq!(
        to_markdown(&Node::Element {
            name: "p".to_string(),
            href: Some("ignored".to_string()),
            children: vec![]
        }),
        "\n"
    );
}

#[test]
fn a_page_becomes_markdown() {
    let page = Node::Other {
        children: vec![
            element("h2", vec![text("About")]),
            element(
                "p",
                vec![
                    text("See "),
                    link("https://example.com/a", vec![element("strong", vec![text("this")])]),
                    element("br", vec![]),
                    text(" - one"),
                    element("em", vec![text("two"), Node::Other { children: vec![text("three")] }]),
                ],
            ),
            Node::Other { children: vec![] },
        ],
    };
    assert_eq!(
        to_markdown(&page),
        "## About\n\nSee [**this**](https://example.com/a)  \n- one*twothree*"
    );
    let mut out = String::from("> ");
    render(&page, &mut out);
    assert_eq!(
        out,
        "> ## About\n\nSee [**this**](https://example.com/a)  \n- one*twothree*"
    );
    assert_eq!(to_markdown(&Node::Other { children: vec![] }), "");
}

#[test]
fn a_mod_is_rated_by_what_stands_beside_the_author() {
    assert_eq!(rate("A NSFW mod by someone"), (true, false));
    assert_eq!(rate("a nsfl Mod by someone"), (false, true));
    assert_eq!(rate("A NSFW and a NSFL mod"), (true, true));
    assert_eq!(rate("A mod by nsfw"), (false, false));
    assert_eq!(rate("nsfw"), (false, false));
    assert_eq!(rate(""), (false, false));
}

#[test]
fn links_are_made_whole() {
    assert_eq!(
        fix_href("https://example.com/a?b#c"),
        Some("https://example.com/a?b#c".to_string())
    );
    assert_eq!(fix_href("mailto:a@b.c"), Some("mailto:a@b.c".to_string()));
    assert_eq!(
        fix_href("/modid/12"),
        Some("https://xivmodarchive.com/modid/12".to_string())
    );
    assert_eq!(fix_href("/"), Some("https://xivmodarchive.com/".to_string()));
    assert_eq!(
        fix_href("//cdn.example.com/file.png"),
        Some("https://cdn.example.com/file.png".to_string())
    );
    assert_eq!(
        fix_href("search?tags=a b"),
        Some("https://xivmodarchive.com/search?tags=a%20b".to_string())
    );
    assert_eq!(fix_href("http://[::1"), Some("http://[::1".to_string()));
}

#[test]
fn what_is_read_off_a_page() {
    let info = ConvertedInfo {
        title: "Title".to_string(),
        nsfw: false,
        nsfl: true,
        description_md: "## About\n".to_string(),
        tags: vec!["a".to_string()],
    };
    assert_eq!(info.title, "Title");
    assert!(!info.nsfw);
    assert!(info.nsfl);
    assert_eq!(info.description_md, "## About\n");
    assert_eq!(info.tags, vec!["a".to_string()]);
}

#[test]
fn white_space_is_what_the_list_says() {
    let listed = |c: char| {
        let code = c as u32;
        (0x09..=0x0D).contains(&code)
            || code == 0x20
            || code == 0x85
            || code == 0xA0
            || code == 0x1680
            || (0x2000..=0x200A).contains(&code)
            || code == 0x2028
            || code == 0x2029
            || code == 0x202F
            || code == 0x205F
            || code == 0x3000
    };
    for code in 0..=0x10FFFFu32 {
        if let Some(c) = char::from_u32(code) {
            let text = format!("{c}x");
            let trimmed = trim_start(&text);
            if listed(c) {
                assert_eq!(trimmed, "x", "U+{code:04X} is white space");
            } else {
                assert_eq!(trimmed, text, "U+{code:04X} is no white space");
            }
        }
    }
}
