use vstd::prelude::*;

verus! {

/// The text of an address, as `url` writes it.
pub uninterp spec fn url_text(url: url::Url) -> Seq<char>;

/// The text of the address that `url` reads out of `text`, or nothing
/// where it finds none.
pub uninterp spec fn parsed_url(text: Seq<char>) -> Option<Seq<char>>;

/// The host named in an address, if it names one.
pub uninterp spec fn host_of(url: Seq<char>) -> Option<Seq<char>>;

/// The path of an address.
pub uninterp spec fn path_of(url: Seq<char>) -> Seq<char>;

/// The text of the address that `url` makes of `base` by dropping an empty
/// last segment of its path and adding `segment` as the new last one, or
/// nothing where `base` cannot be a base.
pub uninterp spec fn with_segment(base: Seq<char>, segment: Seq<char>) -> Option<Seq<char>>;

/// The number of bytes that a text takes.
pub open spec fn byte_len(text: Seq<char>) -> nat {
    vstd::utf8::encode_utf8(text).len()
}

/// Whether an address of `base` bytes can take one more segment of
/// `segment` bytes: the segment stands behind a slash and may be written
/// with escapes, three bytes for one, and an address holds no more than
/// `u32::MAX` bytes.
pub open spec fn takes_segment(base: nat, segment: nat) -> bool {
    base + 1 + 3 * segment <= u32::MAX
}

/// Tells whether an address of `base` bytes can take one more segment of
/// `segment` bytes.
pub fn can_take_segment(base: usize, segment: usize) -> (fits: bool)
    ensures
        fits == takes_segment(base as nat, segment as nat),
{
    let limit: usize = 0xffff_ffff;
    base < limit && segment <= (limit - 1 - base) / 3
}

/// Whether `url` turns `text` away as relative for want of a base.
pub uninterp spec fn relative_without_base(text: Seq<char>) -> bool;

/// The text of the address that `url` makes of `text` read against `base`,
/// or nothing where it makes none.
pub uninterp spec fn joined_url(base: Seq<char>, text: Seq<char>) -> Option<Seq<char>>;

/// `Url::parse`, asked only whether it fails with
/// `ParseError::RelativeUrlWithoutBase`.
#[verifier::external_body]
pub(crate) fn url_is_relative(text: &str) -> (relative: bool)
    ensures
        relative == relative_without_base(text@),
{
    matches!(url::Url::parse(text), Err(url::ParseError::RelativeUrlWithoutBase))
}

/// `Url::join`: `text` read against `base`, or nothing where that gives no
/// address.
#[verifier::external_body]
pub(crate) fn url_join(base: &url::Url, text: &str) -> (out: Option<url::Url>)
    ensures
        match out {
            Some(url) => joined_url(url_text(*base), text@) == Some(url_text(url)),
            None => joined_url(url_text(*base), text@) is None,
        },
{
    base.join(text).ok()
}

/// `Url::to_string`: the text of the address.
#[verifier::external_body]
pub(crate) fn url_string(url: &url::Url) -> (text: String)
    ensures
        text@ == url_text(*url),
{
    url.to_string()
}

/// `Url::parse`: the address that stands in `text`, or nothing where
/// `text` is no address.
#[verifier::external_body]
pub(crate) fn url_parse(text: &str) -> (out: Option<url::Url>)
    ensures
        match out {
            Some(url) => parsed_url(text@) == Some(url_text(url)),
            None => parsed_url(text@) is None,
        },
{
    url::Url::parse(text).ok()
}

/// `Url::host_str`: the host named in the address, if it names one.
#[verifier::external_body]
pub(crate) fn url_host(url: &url::Url) -> (host: Option<String>)
    ensures
        match host {
            Some(name) => host_of(url_text(*url)) == Some(name@),
            None => host_of(url_text(*url)) is None,
        },
{
    url.host_str().map(|host| host.to_string())
}

/// `Url::path`: the path of the address.
#[verifier::external_body]
pub(crate) fn url_path(url: &url::Url) -> (path: String)
    ensures
        path@ == path_of(url_text(*url)),
{
    url.path().to_string()
}

/// `Url::path_segments_mut` with `pop_if_empty` and `push` on a copy of
/// `base`: the address with `segment` as the last segment of its path, or
/// nothing where `base` cannot be a base. The address must be able to take
/// the segment: `url` counts the bytes of an address in a `u32`.
#[verifier::external_body]
pub(crate) fn url_push_segment(base: &url::Url, segment: &str) -> (out: Option<url::Url>)
    requires
        takes_segment(byte_len(url_text(*base)), byte_len(segment@)),
    ensures
        match out {
            Some(url) => with_segment(url_text(*base), segment@) == Some(url_text(url)),
            None => with_segment(url_text(*base), segment@) is None,
        },
{
    let mut url = base.clone();
    url.path_segments_mut().ok()?.pop_if_empty().push(segment);
    Some(url)
}

} // verus!
