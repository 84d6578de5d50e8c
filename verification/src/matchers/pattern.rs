//! The regular expression engine, as far as matching reads it.
//!
//! The engine is the `regex` crate. Nothing here is proved of it: each item
//! states what the crate documents of one of its functions, and gives a name
//! to what that function computes.
use regex::Regex;
use vstd::prelude::*;

verus! {

/// `regex::Regex`: a compiled regular expression. Nothing is known of what
/// is inside it.
#[verifier::external_type_specification]
#[verifier::external_body]
pub struct ExRegex(Regex);

/// `regex::Error`: why a pattern was not accepted. Nothing is known of what
/// is inside it.
#[verifier::external_type_specification]
#[verifier::external_body]
pub struct ExRegexError(regex::Error);

/// Whether `Regex::new` accepts `pattern`.
pub uninterp spec fn regex_accepts(pattern: Seq<char>) -> bool;

/// The pattern that `re` was compiled from, as `Regex::as_str` returns it.
pub uninterp spec fn regex_source(re: Regex) -> Seq<char>;

/// The text that capture group `index` holds in the first match of `re` in
/// `text`, as `Captures::get` returns it: `None` where `re` does not match,
/// where it has no such group, and where the group took no part in the match.
/// Group 0 is the whole match.
pub uninterp spec fn regex_group(re: Regex, text: Seq<char>, index: nat) -> Option<Seq<char>>;

/// The text that the capture group called `name` holds in the first match of
/// `re` in `text`, as `Captures::name` returns it.
pub uninterp spec fn regex_named_group(re: Regex, text: Seq<char>, name: Seq<char>) -> Option<
    Seq<char>,
>;

/// The view of an optional string slice.
pub open spec fn option_view(s: Option<&str>) -> Option<Seq<char>> {
    match s {
        Some(t) => Some(t@),
        None => None,
    }
}

/// What one search found: the whole match, and the text of the group that was
/// asked for, where that group took part in the match.
pub struct Captured<'a> {
    pub whole: &'a str,
    pub group: Option<&'a str>,
}

/// `Regex::new`: compiles `pattern`. It succeeds exactly on the patterns that
/// the engine accepts, and the compiled expression remembers its pattern.
#[verifier::external_body]
pub(crate) fn compile(pattern: &str) -> (r: Result<Regex, regex::Error>)
    ensures
        r is Ok <==> regex_accepts(pattern@),
        r matches Ok(re) ==> regex_source(re) == pattern@,
{
    Regex::new(pattern)
}

/// `Error::to_string`: what the engine says of a pattern that it did not
/// accept. Nothing is claimed of the text.
#[verifier::external_body]
pub(crate) fn describe(error: &regex::Error) -> (message: String) {
    error.to_string()
}

/// `Regex::clone`: the copy is the same expression as the one it was made
/// from.
pub assume_specification[ <regex::Regex as Clone>::clone ](re: &regex::Regex) -> (copy:
    regex::Regex)
    ensures
        copy == *re,
;

/// `Regex::as_str`: the pattern of a compiled expression.
#[verifier::external_body]
pub(crate) fn source(re: &Regex) -> (pattern: &str)
    ensures
        pattern@ == regex_source(*re),
{
    re.as_str()
}

/// `Regex::captures`, then `Captures::get`: searches `text` for the first
/// match and reads group 0 and group `index` of it.
#[verifier::external_body]
pub(crate) fn capture_number<'a>(re: &Regex, text: &'a str, index: usize) -> (r: Option<Captured<'a>>)
    ensures
        match r {
            Some(c) => regex_group(*re, text@, 0) == Some(c.whole@) && regex_group(
                *re,
                text@,
                index as nat,
            ) == option_view(c.group),
            None => regex_group(*re, text@, 0) is None,
        },
{
    re.captures(text).map(
        |caps| Captured {
            whole: caps.get_match().as_str(),
            group: caps.get(index).map(|m| m.as_str()),
        },
    )
}

/// `Regex::captures`, then `Captures::get` and `Captures::name`: searches
/// `text` for the first match and reads group 0 and the group `name` of it.
#[verifier::external_body]
pub(crate) fn capture_name<'a>(re: &Regex, text: &'a str, name: &str) -> (r: Option<Captured<'a>>)
    ensures
        match r {
            Some(c) => regex_group(*re, text@, 0) == Some(c.whole@) && regex_named_group(
                *re,
                text@,
                name@,
            ) == option_view(c.group),
            None => regex_group(*re, text@, 0) is None,
        },
{
    re.captures(text).map(
        |caps| Captured {
            whole: caps.get_match().as_str(),
            group: caps.name(name).map(|m| m.as_str()),
        },
    )
}

} // verus!
