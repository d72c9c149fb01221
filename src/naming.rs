//! Which names an animus may carry.

use vstd::prelude::*;

verus! {

/// Letters, digits and underscores, at least one of them.
pub const ANIMUS_NAME_PATTERN: &'static str = "^[a-zA-Z0-9_]+$";

/// What the regex crate answers when `pattern` is compiled and run on
/// `text`: `None` when the pattern does not compile.
pub uninterp spec fn regex_match(pattern: Seq<char>, text: Seq<char>) -> Option<bool>;

/// Relies on `regex::Regex::new`, which fails on a pattern that does not
/// compile, and `Regex::is_match`, whether the compiled pattern matches
/// somewhere in the text. The result depends on the two strings alone.
#[verifier::external_body]
fn regex_is_match(pattern: &str, text: &str) -> (r: Option<bool>)
    ensures
        r == regex_match(pattern@, text@),
{
    match regex::Regex::new(pattern) {
        Ok(re) => Some(re.is_match(text)),
        Err(_) => None,
    }
}

/// Whether `name` fits the naming rule of animi.
pub open spec fn is_valid_animus_name(name: Seq<char>) -> bool {
    regex_match(ANIMUS_NAME_PATTERN@, name) == Some(true)
}

/// Whether `name` fits the naming rule of animi.
pub fn valid_animus_name(name: &str) -> (r: bool)
    ensures
        r == is_valid_animus_name(name@),
{
    match regex_is_match(ANIMUS_NAME_PATTERN, name) {
        Some(m) => m,
        None => false,
    }
}

/// The answer to "use this name?", already trimmed: `Some(true)` to keep
/// the name ("Y", "y" or nothing), `Some(false)` to choose another ("N" or
/// "n"), `None` for anything else.
pub fn name_confirmation(answer: &str) -> (r: Option<bool>)
    ensures
        r == (if answer@ == "Y"@ || answer@ == "y"@ || answer@.len() == 0 {
            Some(true)
        } else if answer@ == "N"@ || answer@ == "n"@ {
            Some(false)
        } else {
            None
        }),
{
    let a = answer.to_string();
    if a == "Y".to_string() || a == "y".to_string() || answer.unicode_len() == 0 {
        Some(true)
    } else if a == "N".to_string() || a == "n".to_string() {
        Some(false)
    } else {
        None
    }
}

} // verus!
