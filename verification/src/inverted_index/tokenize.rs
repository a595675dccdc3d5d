//! Splitting text into tokens with a regular expression.

use vstd::prelude::*;

verus! {

/// `regex::Error`, which says why a pattern was refused. Nothing of it is
/// looked at.
#[verifier::external_type_specification]
#[verifier::external_body]
pub struct ExRegexError(regex::Error);

/// The successive non-overlapping matches of `pattern` in `text`, in the
/// order in which the `regex` crate finds them, or `None` where it refuses
/// to compile `pattern`.
pub uninterp spec fn pattern_matches(pattern: Seq<char>, text: Seq<char>) -> Option<Seq<Seq<char>>>;

/// Calls `regex::Regex::new` on `pattern` and collects what
/// `regex::Regex::find_iter` yields on `text`, each match as the substring
/// given by `regex::Match::as_str`. Nothing is proved of the engine: the
/// contract only names the outcome as a function of the pattern and the text.
#[verifier::external_body]
fn find_all(pattern: &str, text: &str) -> (found: Result<Vec<String>, regex::Error>)
    ensures
        match found {
            Ok(matches) => pattern_matches(pattern@, text@) == Some(matches.deep_view()),
            Err(_) => pattern_matches(pattern@, text@) is None,
        },
{
    let re = regex::Regex::new(pattern)?;
    Ok(re.find_iter(text).map(|m| m.as_str().to_string()).collect())
}

/// The pattern of a token: a run of word characters, apostrophes and
/// hyphens, or else a run of punctuation.
pub const TOKEN_PATTERN: &'static str = "[\\w'-]+|[[:punct:]]+";

/// The tokens of `text`: every match of [`TOKEN_PATTERN`], in order.
pub open spec fn tokens_of(text: Seq<char>) -> Seq<Seq<char>> {
    match pattern_matches(TOKEN_PATTERN@, text) {
        Some(tokens) => tokens,
        None => Seq::empty(),
    }
}

/// Splits `text` into its tokens. Case and order are kept, and whatever no
/// token covers (whitespace above all) is dropped.
pub fn tokenize(text: &str) -> (tokens: Vec<String>)
    ensures
        tokens.deep_view() == tokens_of(text@),
{
    match find_all(TOKEN_PATTERN, text) {
        Ok(tokens) => tokens,
        Err(_) => Vec::new(),
    }
}

} // verus!
