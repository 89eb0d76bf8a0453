//! Regular expressions, as the `regex` crate runs them: whether a pattern
//! matches a text, and a text with the first match replaced.

use vstd::prelude::*;
use crate::rpc::opt_view;
use crate::title::{is_greeting, opener_removed, GREETING_PATTERN, OPENER_PATTERN};

verus! {

/// Whether `pattern` matches somewhere in `text`; `None` when the pattern
/// does not compile.
pub uninterp spec fn regex_match_of(pattern: Seq<char>, text: Seq<char>) -> Option<bool>;

/// `regex::Regex::new(pattern)` and, when it compiles, `is_match(text)`.
/// The result is named. For the greeting pattern the crate documents its
/// meaning (alternation, `[\s!.:,]*` with `\s` Unicode white space, `^`
/// and `$` the ends of the text), which the second clause states.
#[verifier::external_body]
pub(crate) fn regex_is_match(pattern: &str, text: &str) -> (r: Option<bool>)
    ensures
        r == regex_match_of(pattern@, text@),
        pattern@ == GREETING_PATTERN@ ==> r == Some(is_greeting(text@)),
{
    match regex::Regex::new(pattern) {
        Ok(re) => Some(re.is_match(text)),
        Err(_) => None,
    }
}

/// `text` with the first match of `pattern` replaced by `with`; `None`
/// when the pattern does not compile.
pub uninterp spec fn regex_replace_of(pattern: Seq<char>, text: Seq<char>, with: Seq<char>) -> Option<Seq<char>>;

/// `regex::Regex::new(pattern)` and, when it compiles, `replace(text,
/// with)` (the first match only). The result is named. For the opener
/// pattern with an empty replacement the crate documents its meaning
/// (anchored at the start, `(?i)` by simple case folding, leftmost-first
/// alternation, greedy `\s+`), which the second clause states.
#[verifier::external_body]
pub(crate) fn regex_replace(pattern: &str, text: &str, with: &str) -> (r: Option<String>)
    ensures
        opt_view(r) == regex_replace_of(pattern@, text@, with@),
        pattern@ == OPENER_PATTERN@ && with@.len() == 0 ==> opt_view(r) == Some(opener_removed(text@)),
{
    match regex::Regex::new(pattern) {
        Ok(re) => Some(re.replace(text, with).to_string()),
        Err(_) => None,
    }
}

} // verus!
