use vstd::prelude::*;

verus! {

/// The regex error type, opaque to the library; a failed compilation hands
/// it back so the caller's message can carry its text.
#[verifier::external_type_specification]
#[verifier::external_body]
pub struct ExRegexError(regex::Error);

/// Whether a pattern compiles: `regex::Regex::new` documents that it fails
/// exactly on an invalid pattern (or one over the default size limit), so
/// success is a function of the pattern text alone.
pub uninterp spec fn regex_pattern_ok(pattern: Seq<char>) -> bool;

/// The text that replacing every non-overlapping match of a pattern with a
/// replacement string leaves: what `regex::Regex::replace_all` returns, a
/// function of the three texts alone.
pub uninterp spec fn regex_replaced(
    pattern: Seq<char>,
    replacement: Seq<char>,
    text: Seq<char>,
) -> Seq<char>;

/// Relies on `regex::Regex::new` and `regex::Regex::replace_all`: compiling
/// fails exactly on a bad pattern, and replacing every match is a function
/// of pattern, replacement and haystack, named `regex_replaced`.
#[verifier::external_body]
fn regex_replace_all(pattern: &str, replacement: &str, text: &str) -> (r: Result<
    String,
    regex::Error,
>)
    ensures
        match r {
            Ok(s) => regex_pattern_ok(pattern@) && s@ == regex_replaced(
                pattern@,
                replacement@,
                text@,
            ),
            Err(_) => !regex_pattern_ok(pattern@),
        },
{
    match regex::Regex::new(pattern) {
        Ok(re) => Ok(re.replace_all(text, replacement).to_string()),
        Err(e) => Err(e),
    }
}

/// Relies on the `Display` impl of `regex::Error` for the error's text.
#[verifier::external_body]
fn regex_error_text(e: &regex::Error) -> String {
    format!("{}", e)
}

/// The error `replace` returns when the pattern does not compile.
#[derive(Debug)]
pub struct ReplaceError {
    pub message: String,
}

/// Replace every non-overlapping match of `target`, read as a regular
/// expression, in `text` with `replacement`. Fails exactly when the pattern
/// does not compile, and then no replacement is attempted.
pub fn replace(target: &str, replacement: &str, text: &str) -> (r: Result<String, ReplaceError>)
    ensures
        match r {
            Ok(s) => regex_pattern_ok(target@) && s@ == regex_replaced(
                target@,
                replacement@,
                text@,
            ),
            Err(_) => !regex_pattern_ok(target@),
        },
{
    match regex_replace_all(target, replacement, text) {
        Ok(s) => Ok(s),
        Err(e) => Err(ReplaceError { message: regex_error_text(&e) }),
    }
}

} // verus!
