use crate::address::{
    host_of, joined_url, parsed_url, path_of, relative_without_base, url_host, url_is_relative,
    url_join, url_parse, url_path, url_string, url_text,
};
use crate::text::{
    holds, is_whitespace, lowercase, str_contains, str_eq, str_starts_with, str_to_lowercase,
    white_space,
};
use vstd::prelude::*;

verus! {

/// What is read off the page of a mod.
pub struct ConvertedInfo {
    pub title: String,
    pub nsfw: bool,
    pub nsfl: bool,
    pub description_md: String,
    pub tags: Vec<String>,
}

/// Why an address is not taken for the page of a mod.
#[derive(Clone, Copy, Debug, PartialEq, Eq, Structural)]
pub enum XmaError {
    /// The text is no address.
    InvalidUrl,
    /// The address is not one of the archive.
    NotXma,
    /// The address is one of the archive, but not the page of a mod.
    NotAModPage,
}

/// Whether host and path are those of the page of a mod: the host is the
/// archive's, with or without `www.`, and the path begins with `/modid/`.
pub open spec fn mod_page(host: Option<Seq<char>>, path: Seq<char>) -> Result<(), XmaError> {
    if host != Some("xivmodarchive.com"@) && host != Some("www.xivmodarchive.com"@) {
        Err(XmaError::NotXma)
    } else if !"/modid/"@.is_prefix_of(path) {
        Err(XmaError::NotAModPage)
    } else {
        Ok(())
    }
}

/// Judges by host and path whether an address is the page of a mod.
pub fn judge_mod_page(host: Option<&str>, path: &str) -> (outcome: Result<(), XmaError>)
    ensures
        outcome == mod_page(
            match host {
                Some(name) => Some(name@),
                None => None,
            },
            path@,
        ),
{
    let ours = match host {
        Some(name) => str_eq(name, "xivmodarchive.com") || str_eq(name, "www.xivmodarchive.com"),
        None => false,
    };
    if !ours {
        Err(XmaError::NotXma)
    } else if !str_starts_with(path, "/modid/") {
        Err(XmaError::NotAModPage)
    } else {
        Ok(())
    }
}

/// Reads an address out of `text` and takes it if it is the page of a mod.
pub fn check_mod_url(text: &str) -> (outcome: Result<url::Url, XmaError>)
    ensures
        match outcome {
            Ok(url) => parsed_url(text@) == Some(url_text(url)) && mod_page(
                host_of(url_text(url)),
                path_of(url_text(url)),
            ) is Ok,
            Err(e) => match parsed_url(text@) {
                Some(url) => mod_page(host_of(url), path_of(url)) == Err::<(), XmaError>(e),
                None => e == XmaError::InvalidUrl,
            },
        },
{
    let url = match url_parse(text) {
        Some(url) => url,
        None => {
            return Err(XmaError::InvalidUrl);
        },
    };
    let host = url_host(&url);
    let path = url_path(&url);
    let judged = match &host {
        Some(name) => judge_mod_page(Some(name.as_str()), path.as_str()),
        None => judge_mod_page(None, path.as_str()),
    };
    match judged {
        Ok(_) => Ok(url),
        Err(e) => Err(e),
    }
}

/// One node of a parsed page: an element with its name, the target of its
/// first `href` and its children, a run of text, or anything else with its
/// children.
pub enum Node {
    Element { name: String, href: Option<String>, children: Vec<Node> },
    Text { contents: String },
    Other { children: Vec<Node> },
}

/// The children of a node.
pub open spec fn children_of(node: Node) -> Seq<Node> {
    match node {
        Node::Element { children, .. } => children@,
        Node::Text { .. } => Seq::<Node>::empty(),
        Node::Other { children } => children@,
    }
}

/// What an element puts before its children.
pub open spec fn opening(name: Seq<char>, href: Option<Seq<char>>) -> Seq<char> {
    if name == "h2"@ {
        "## "@
    } else if name == "a"@ {
        match href {
            Some(_) => "["@,
            None => Seq::<char>::empty(),
        }
    } else if name == "p"@ {
        "\n"@
    } else if name == "strong"@ {
        "**"@
    } else if name == "em"@ {
        "*"@
    } else if name == "br"@ {
        "  \n"@
    } else {
        Seq::<char>::empty()
    }
}

/// What an element puts behind its children.
pub open spec fn closing(name: Seq<char>, href: Option<Seq<char>>) -> Seq<char> {
    if name == "h2"@ {
        "\n"@
    } else if name == "a"@ {
        match href {
            Some(target) => "]("@ + target + ")"@,
            None => Seq::<char>::empty(),
        }
    } else if name == "strong"@ {
        "**"@
    } else if name == "em"@ {
        "*"@
    } else {
        Seq::<char>::empty()
    }
}

/// `text` without the white space at its start.
pub open spec fn trimmed_start(text: Seq<char>) -> Seq<char>
    decreases text.len(),
{
    if text.len() > 0 && white_space(text[0]) {
        trimmed_start(text.skip(1))
    } else {
        text
    }
}

/// Whether a character marks an item of a list.
pub open spec fn is_marker(c: char) -> bool {
    c == '\u{25FD}' || c == '-'
}

/// A run of text as markdown: text that begins, after white space, with a
/// square or a dash becomes an item of a list; other text stays as it is.
pub open spec fn text_markdown(contents: Seq<char>) -> Seq<char> {
    let lead = trimmed_start(contents);
    if lead.len() > 0 && is_marker(lead[0]) {
        "- "@ + trimmed_start(lead.skip(1))
    } else {
        contents
    }
}

/// A node as markdown: what it opens with, its children in their order,
/// and what it closes with.
pub open spec fn markdown_of(node: Node) -> Seq<char>
    decreases node, 1nat,
{
    match node {
        Node::Element { name, href, children } => opening(name@, href_text(href)) + markdown_upto(
            node,
            children@.len(),
        ) + closing(name@, href_text(href)),
        Node::Text { contents } => text_markdown(contents@),
        Node::Other { children } => markdown_upto(node, children@.len()),
    }
}

/// The first `upto` children of a node as markdown.
pub open spec fn markdown_upto(node: Node, upto: nat) -> Seq<char>
    decreases node, 0nat, upto,
{
    if upto == 0 || upto > children_of(node).len() {
        Seq::<char>::empty()
    } else {
        markdown_upto(node, (upto - 1) as nat) + markdown_of(children_of(node)[upto - 1])
    }
}

/// The text of an optional target.
pub open spec fn href_text(href: Option<String>) -> Option<Seq<char>> {
    match href {
        Some(target) => Some(target@),
        None => None,
    }
}

/// Leaves out the white space at the start of a text.
pub fn trim_start(text: &str) -> (rest: &str)
    ensures
        rest@ == trimmed_start(text@),
{
    let count = text.unicode_len();
    let mut at: usize = 0;
    proof {
        assert(text@.skip(0) =~= text@);
    }
    while at < count && is_whitespace(text.get_char(at))
        invariant
            at <= count,
            count == text@.len(),
            trimmed_start(text@) == trimmed_start(text@.skip(at as int)),
        decreases count - at,
    {
        proof {
            assert(text@.skip(at as int)[0] == text@[at as int]);
            assert(text@.skip(at as int).skip(1) =~= text@.skip(at + 1));
        }
        at = at + 1;
    }
    proof {
        assert(text@.subrange(at as int, count as int) =~= text@.skip(at as int));
        if at < count {
            assert(text@.skip(at as int)[0] == text@[at as int]);
        }
    }
    text.substring_char(at, count)
}

/// Adds a run of text to the markdown.
pub fn render_text(contents: &str, markdown: &mut String)
    ensures
        final(markdown)@ == old(markdown)@ + text_markdown(contents@),
{
    let lead = trim_start(contents);
    let count = lead.unicode_len();
    if count > 0 {
        let first = lead.get_char(0);
        if first == '\u{25FD}' || first == '-' {
            let item = trim_start(lead.substring_char(1, count));
            proof {
                assert(lead@.subrange(1, count as int) =~= lead@.skip(1));
                assert(old(markdown)@ + "- "@ + item@ =~= old(markdown)@ + ("- "@ + item@));
            }
            markdown.append("- ");
            markdown.append(item);
            return ;
        }
    }
    markdown.append(contents);
}

/// Adds what an element opens with to the markdown.
fn render_opening(name: &str, href: &Option<String>, markdown: &mut String)
    ensures
        final(markdown)@ == old(markdown)@ + opening(name@, href_text(*href)),
{
    if str_eq(name, "h2") {
        markdown.append("## ");
    } else if str_eq(name, "a") {
        if href.is_some() {
            markdown.append("[");
        } else {
            proof {
                assert(markdown@ + Seq::<char>::empty() =~= markdown@);
            }
        }
    } else if str_eq(name, "p") {
        markdown.append("\n");
    } else if str_eq(name, "strong") {
        markdown.append("**");
    } else if str_eq(name, "em") {
        markdown.append("*");
    } else if str_eq(name, "br") {
        markdown.append("  \n");
    } else {
        proof {
            assert(markdown@ + Seq::<char>::empty() =~= markdown@);
        }
    }
}

/// Adds what an element closes with to the markdown.
fn render_closing(name: &str, href: &Option<String>, markdown: &mut String)
    ensures
        final(markdown)@ == old(markdown)@ + closing(name@, href_text(*href)),
{
    if str_eq(name, "h2") {
        markdown.append("\n");
    } else if str_eq(name, "a") {
        match href {
            Some(target) => {
                proof {
                    assert(markdown@ + "]("@ + target@ + ")"@ =~= markdown@ + ("]("@ + target@
                        + ")"@));
                }
                markdown.append("](");
                markdown.append(target.as_str());
                markdown.append(")");
            },
            None => {
                proof {
                    assert(markdown@ + Seq::<char>::empty() =~= markdown@);
                }
            },
        }
    } else if str_eq(name, "strong") {
        markdown.append("**");
    } else if str_eq(name, "em") {
        markdown.append("*");
    } else {
        proof {
            assert(markdown@ + Seq::<char>::empty() =~= markdown@);
        }
    }
}

/// Adds the children of a node to the markdown, in their order.
fn render_children(node: &Node, children: &Vec<Node>, markdown: &mut String)
    requires
        children@ == children_of(*node),
        !(node is Text),
    ensures
        final(markdown)@ == old(markdown)@ + markdown_upto(*node, children@.len()),
    decreases node, 0nat,
{
    let mut at: usize = 0;
    proof {
        assert(markdown@ + Seq::<char>::empty() =~= markdown@);
    }
    while at < children.len()
        invariant
            at <= children@.len(),
            children@ == children_of(*node),
            !(node is Text),
            markdown@ == old(markdown)@ + markdown_upto(*node, at as nat),
        decreases children@.len() - at,
    {
        let ghost had = markdown@;
        render(&children[at], markdown);
        proof {
            assert(old(markdown)@ + markdown_upto(*node, (at + 1) as nat) =~= had + markdown_of(
                children@[at as int],
            ));
        }
        at = at + 1;
    }
}

/// Adds a node to the markdown.
pub fn render(node: &Node, markdown: &mut String)
    ensures
        final(markdown)@ == old(markdown)@ + markdown_of(*node),
    decreases node, 1nat,
{
    match node {
        Node::Element { name, href, children } => {
            render_opening(name.as_str(), href, markdown);
            render_children(node, children, markdown);
            render_closing(name.as_str(), href, markdown);
            proof {
                assert(markdown@ =~= old(markdown)@ + markdown_of(*node));
            }
        },
        Node::Text { contents } => {
            render_text(contents.as_str(), markdown);
        },
        Node::Other { children } => {
            render_children(node, children, markdown);
        },
    }
}

/// A parsed page as markdown.
pub fn to_markdown(document: &Node) -> (markdown: String)
    ensures
        markdown@ == markdown_of(*document),
{
    let mut markdown = String::new();
    render(document, &mut markdown);
    proof {
        assert(Seq::<char>::empty() + markdown_of(*document) =~= markdown_of(*document));
    }
    markdown
}

/// Whether the text beside the author's name rates a mod as not safe for
/// work, and as not safe for life: it says so in any case of letters.
pub open spec fn rating(text: Seq<char>) -> (bool, bool) {
    (holds(lowercase(text), "a nsfw"@), holds(lowercase(text), "a nsfl"@))
}

/// Reads the rating of a mod off the text beside the author's name: first
/// whether it is not safe for work, then whether it is not safe for life.
pub fn rate(text: &str) -> (marks: (bool, bool))
    ensures
        marks == rating(text@),
{
    let lower = str_to_lowercase(text);
    let nsfl = str_contains(lower.as_str(), "a nsfl");
    let nsfw = str_contains(lower.as_str(), "a nsfw");
    (nsfw, nsfl)
}

/// The target of a link made whole: a target that is an address of its
/// own stays as it is, a relative one is read against the archive's
/// address, and one that cannot be read is dropped.
pub open spec fn fixed_href(href: Seq<char>) -> Option<Seq<char>> {
    if !relative_without_base(href) {
        Some(href)
    } else {
        match parsed_url("https://xivmodarchive.com"@) {
            Some(root) => if "//"@.is_prefix_of(href) {
                joined_url(root, href)
            } else if href == "/"@ {
                joined_url(root, "."@)
            } else if "/"@.is_prefix_of(href) {
                joined_url(root, href.skip(1))
            } else {
                match joined_url(root, ""@) {
                    Some(base) => joined_url(base, href),
                    None => None,
                }
            },
            None => None,
        }
    }
}

/// Makes the target of a link whole.
pub fn fix_href(href: &str) -> (fixed: Option<String>)
    ensures
        match fixed {
            Some(target) => fixed_href(href@) == Some(target@),
            None => fixed_href(href@) is None,
        },
{
    if !url_is_relative(href) {
        return Some(href.to_owned());
    }
    let root = match url_parse("https://xivmodarchive.com") {
        Some(root) => root,
        None => {
            return None;
        },
    };
    let joined = if str_starts_with(href, "//") {
        url_join(&root, href)
    } else if str_eq(href, "/") {
        url_join(&root, ".")
    } else if str_starts_with(href, "/") {
        let count = href.unicode_len();
        proof {
            reveal_strlit("/");
            assert(href@.subrange(1, count as int) =~= href@.skip(1));
        }
        url_join(&root, href.substring_char(1, count))
    } else {
        match url_join(&root, "") {
            Some(base) => url_join(&base, href),
            None => None,
        }
    };
    match joined {
        Some(url) => Some(url_string(&url)),
        None => None,
    }
}

/// Counts the line breaks that follow one another while a page is
/// rewritten, to thin them out and to split paragraphs.
pub struct Breaks {
    pub seen: usize,
}

impl Breaks {
    /// No break seen yet.
    pub fn new() -> (breaks: Self)
        ensures
            breaks.seen == 0,
    {
        Breaks { seen: 0 }
    }

    /// Notes a line break and tells whether it is to be removed: every
    /// break that follows another, and every break inside a list. The
    /// count starts over behind the largest number.
    pub fn on_break(&mut self, in_list: bool) -> (remove: bool)
        ensures
            remove == (old(self).seen > 0 || in_list),
            final(self).seen == if old(self).seen == usize::MAX {
                0
            } else {
                old(self).seen + 1
            },
    {
        let before = self.seen;
        self.seen = if before == usize::MAX {
            0
        } else {
            before + 1
        };
        before > 0 || in_list
    }

    /// Notes an element that is no line break, or text that is not blank,
    /// and tells whether a new paragraph begins before it: it does behind
    /// two breaks or more. The count starts over.
    pub fn on_content(&mut self) -> (split: bool)
        ensures
            split == (old(self).seen >= 2),
            final(self).seen == 0,
    {
        let before = self.seen;
        self.seen = 0;
        before >= 2
    }
}

} // verus!
