//! The one place where the `regex` crate is called.

use vstd::prelude::*;

verus! {

/// What the `regex` crate finds when the pattern `pattern` is searched in
/// `text`: `None` when the pattern does not compile; otherwise, for each of
/// the successive non-overlapping matches in order, the text of capture group
/// 1 and of capture group 2, each `None` where the group is absent or took no
/// part in the match.
pub uninterp spec fn regex_captures(pattern: Seq<char>, text: Seq<char>) -> Option<
    Seq<(Option<Seq<char>>, Option<Seq<char>>)>,
>;

/// Trusted: compiles `pattern` with `regex::Regex::new`, walks
/// `Regex::captures_iter` over `text` and reads groups 1 and 2 of each match
/// with `Captures::get` and `Match::as_str`. The result depends on the two
/// texts alone and is named [`regex_captures`]; nothing else is claimed.
#[verifier::external_body]
pub(crate) fn find_captures(pattern: &str, text: &str) -> (r: Option<
    Vec<(Option<String>, Option<String>)>,
>)
    ensures
        r.deep_view() == regex_captures(pattern@, text@),
{
    match regex::Regex::new(pattern) {
        Ok(re) => Some(
            re.captures_iter(text).map(
                |c|
                    (
                        c.get(1).map(|m| m.as_str().to_string()),
                        c.get(2).map(|m| m.as_str().to_string()),
                    ),
            ).collect(),
        ),
        Err(_) => None,
    }
}

} // verus!
