//! Case-insensitive substring matching for session-name filters.
use vstd::prelude::*;

verus! {

/// The lowercased image of a character sequence, as `str::to_lowercase`
/// computes it. The result depends on the characters alone, so it is left
/// abstract here; `lowercase` below is the one way to obtain it.
pub uninterp spec fn lower_of(s: Seq<char>) -> Seq<char>;

/// `needle` occurs as a contiguous substring of `hay`.
pub open spec fn contains_seq(hay: Seq<char>, needle: Seq<char>) -> bool {
    exists|i: int|
        0 <= i && i + needle.len() <= hay.len() && #[trigger] hay.subrange(i, i + needle.len())
            == needle
}

/// `name` matches the free-text filter `filter`: the lowercased filter
/// occurs inside the lowercased name.
pub open spec fn filter_matches(name: Seq<char>, filter: Seq<char>) -> bool {
    contains_seq(lower_of(name), lower_of(filter))
}

/// `name` passes an optional filter; no filter lets everything through.
pub open spec fn matches_filter(name: Seq<char>, filter: Option<Seq<char>>) -> bool {
    match filter {
        None => true,
        Some(f) => filter_matches(name, f),
    }
}

/// Relies on `str::to_lowercase`: the returned text is the lowercase
/// equivalent of the input, a function of the input characters alone.
#[verifier::external_body]
fn lowercase(s: &str) -> (r: String)
    ensures
        r@ == lower_of(s@),
{
    s.to_lowercase()
}

/// Relies on `str::contains` with a `&str` pattern: true exactly when the
/// pattern occurs as a contiguous substring of the receiver.
#[verifier::external_body]
fn contains_str(hay: &str, needle: &str) -> (r: bool)
    ensures
        r == contains_seq(hay@, needle@),
{
    hay.contains(needle)
}

/// Relies on `String::push`: appends exactly the given character.
#[verifier::external_body]
pub(crate) fn push_char(s: &mut String, c: char)
    ensures
        final(s)@ == old(s)@.push(c),
{
    s.push(c)
}

/// Relies on `String::pop`: removes and returns the last character, or
/// does nothing on an empty string.
#[verifier::external_body]
pub(crate) fn pop_char(s: &mut String) -> (r: Option<char>)
    ensures
        match r {
            Some(c) => old(s)@.len() > 0 && c == old(s)@.last() && final(s)@ == old(s)@.drop_last(),
            None => old(s)@.len() == 0 && final(s)@ == old(s)@,
        },
{
    s.pop()
}

/// Case-insensitive substring test between a session name and a filter.
pub fn name_matches(name: &str, filter: &str) -> (r: bool)
    ensures
        r == filter_matches(name@, filter@),
{
    let lower_name = lowercase(name);
    let lower_filter = lowercase(filter);
    contains_str(lower_name.as_str(), lower_filter.as_str())
}

/// `name_matches` lifted to an optional filter.
pub fn name_matches_opt(name: &String, filter: &Option<String>) -> (r: bool)
    ensures
        r == matches_filter(name@, filter.deep_view()),
{
    match filter {
        None => true,
        Some(f) => name_matches(name.as_str(), f.as_str()),
    }
}

} // verus!
