use vstd::prelude::*;

verus! {

/// The texts of a sequence of strings.
pub open spec fn texts(strings: Seq<String>) -> Seq<Seq<char>> {
    strings.map_values(|s: String| s@)
}

/// `text` with every `from` replaced by `to`.
pub open spec fn replaced(text: Seq<char>, from: char, to: Seq<char>) -> Seq<char>
    decreases text.len(),
{
    if text.len() == 0 {
        Seq::<char>::empty()
    } else if text[0] == from {
        to + replaced(text.skip(1), from, to)
    } else {
        seq![text[0]] + replaced(text.skip(1), from, to)
    }
}

/// What stands in `text` before the first `stop`; all of it where there is
/// no `stop`.
pub open spec fn before_first(text: Seq<char>, stop: char) -> Seq<char>
    decreases text.len(),
{
    if text.len() == 0 || text[0] == stop {
        Seq::<char>::empty()
    } else {
        seq![text[0]] + before_first(text.skip(1), stop)
    }
}

/// A text without `stop` is all before the first `stop`.
pub proof fn lemma_before_first_without(text: Seq<char>, stop: char)
    requires
        !text.contains(stop),
    ensures
        before_first(text, stop) == text,
    decreases text.len(),
{
    if text.len() > 0 {
        assert(text[0] != stop);
        assert forall|i: int| 0 <= i < text.skip(1).len() implies text.skip(1)[i] != stop by {
            assert(text[i + 1] != stop);
        }
        lemma_before_first_without(text.skip(1), stop);
        assert(seq![text[0]] + text.skip(1) =~= text);
    }
}

/// The order of strings: by code point at the first place where they differ,
/// and a proper prefix before what it is a prefix of.
pub open spec fn text_le(a: Seq<char>, b: Seq<char>) -> bool
    decreases a.len(),
{
    if a.len() == 0 {
        true
    } else if b.len() == 0 {
        false
    } else if a[0] != b[0] {
        (a[0] as u32) < (b[0] as u32)
    } else {
        text_le(a.skip(1), b.skip(1))
    }
}

/// The decimal digits of `n`, without leading zeros (`0` is "0").
pub open spec fn decimal(n: nat) -> Seq<char>
    decreases n,
{
    if n < 10 {
        seq![digit(n)]
    } else {
        decimal(n / 10).push(digit(n % 10))
    }
}

/// The character of a decimal digit.
pub open spec fn digit(d: nat) -> char {
    if d == 0 {
        '0'
    } else if d == 1 {
        '1'
    } else if d == 2 {
        '2'
    } else if d == 3 {
        '3'
    } else if d == 4 {
        '4'
    } else if d == 5 {
        '5'
    } else if d == 6 {
        '6'
    } else if d == 7 {
        '7'
    } else if d == 8 {
        '8'
    } else {
        '9'
    }
}

/// `digits` with zeros in front until it is at least `width` long.
pub open spec fn zero_padded(digits: Seq<char>, width: nat) -> Seq<char>
    decreases width - digits.len(),
{
    if digits.len() >= width {
        digits
    } else {
        zero_padded(seq!['0'] + digits, width)
    }
}

/// Whether a character is white space: one of the code points with the
/// property `White_Space`.
pub open spec fn white_space(c: char) -> bool {
    let code = c as u32;
    ||| 0x09 <= code <= 0x0D
    ||| code == 0x20
    ||| code == 0x85
    ||| code == 0xA0
    ||| code == 0x1680
    ||| 0x2000 <= code <= 0x200A
    ||| code == 0x2028
    ||| code == 0x2029
    ||| code == 0x202F
    ||| code == 0x205F
    ||| code == 0x3000
}

/// `char::is_whitespace`: whether the character is white space.
#[verifier::external_body]
pub(crate) fn is_whitespace(c: char) -> (space: bool)
    ensures
        space == white_space(c),
{
    c.is_whitespace()
}

/// `text` in lower case, as `str::to_lowercase` has it.
pub uninterp spec fn lowercase(text: Seq<char>) -> Seq<char>;

/// Whether `needle` stands somewhere in `text`.
pub open spec fn holds(text: Seq<char>, needle: Seq<char>) -> bool {
    exists|at: int|
        0 <= at <= text.len() - needle.len() && #[trigger] text.subrange(
            at,
            at + needle.len(),
        ) == needle
}

/// `str::to_lowercase`: the text in lower case.
#[verifier::external_body]
pub(crate) fn str_to_lowercase(text: &str) -> (out: String)
    ensures
        out@ == lowercase(text@),
{
    text.to_lowercase()
}

/// `str::contains` with a string pattern: whether `needle` stands
/// somewhere in `text`.
#[verifier::external_body]
pub(crate) fn str_contains(text: &str, needle: &str) -> (found: bool)
    ensures
        found == holds(text@, needle@),
{
    text.contains(needle)
}

/// `str::eq`: two strings are equal when they hold the same characters.
#[verifier::external_body]
pub(crate) fn str_eq(a: &str, b: &str) -> (same: bool)
    ensures
        same == (a@ == b@),
{
    a == b
}

/// `str::ends_with` with a string pattern: whether `text` ends in `suffix`.
#[verifier::external_body]
pub(crate) fn str_ends_with(text: &str, suffix: &str) -> (found: bool)
    ensures
        found == suffix@.is_suffix_of(text@),
{
    text.ends_with(suffix)
}

/// `str::starts_with` with a string pattern: whether `text` begins with
/// `prefix`.
#[verifier::external_body]
pub(crate) fn str_starts_with(text: &str, prefix: &str) -> (found: bool)
    ensures
        found == prefix@.is_prefix_of(text@),
{
    text.starts_with(prefix)
}

/// `str::replace` with a character pattern: a copy of `text` in which every
/// `from` has given way to `to`.
#[verifier::external_body]
pub(crate) fn str_replace(text: &str, from: char, to: &str) -> (out: String)
    ensures
        out@ == replaced(text@, from, to@),
{
    text.replace(from, to)
}

/// `str::split_once` with a character: what stands before the first
/// `stop` and what stands behind it, or nothing where there is no `stop`.
#[verifier::external_body]
pub(crate) fn str_split_once(text: &str, stop: char) -> (parts: Option<(&str, &str)>)
    ensures
        match parts {
            Some(halves) => halves.0@ == before_first(text@, stop) && text@ == halves.0@ + seq![
                stop,
            ] + halves.1@,
            None => !text@.contains(stop),
        },
{
    text.split_once(stop)
}

/// `format!` of an unsigned number with `{:<03}`: its decimal digits, with
/// zeros in front up to a width of three (the zero flag outranks the
/// alignment).
#[verifier::external_body]
pub(crate) fn three_digits(n: usize) -> (out: String)
    ensures
        out@ == zero_padded(decimal(n as nat), 3),
{
    format!("{:<03}", n)
}

/// Joins two strings.
pub fn joined(head: &str, tail: &str) -> (out: String)
    ensures
        out@ == head@ + tail@,
{
    let mut out = String::from_str(head);
    out.append(tail);
    out
}

} // verus!
