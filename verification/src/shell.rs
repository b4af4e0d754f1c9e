//! Shell-style word splitting of recipe commands, by the `shell-words` crate.

use vstd::prelude::*;

verus! {

/// The error type of `shell_words::split`.
#[verifier::external_type_specification]
#[verifier::external_body]
pub struct ExShellParseError(shell_words::ParseError);

/// The words that `shell_words::split` makes of a command line (POSIX shell
/// quoting rules), or `None` where it reports a quote left open.
pub uninterp spec fn shell_split(s: Seq<char>) -> Option<Seq<Seq<char>>>;

/// The character sequences of a sequence of strings.
pub open spec fn string_views(v: Seq<String>) -> Seq<Seq<char>> {
    v.map_values(|w: String| w@)
}

/// Calls `shell_words::split`. Trusted: its words (or its error) are those that
/// `shell_split` names for the command.
#[verifier::external_body]
pub(crate) fn split_words(s: &str) -> (r: Result<Vec<String>, shell_words::ParseError>)
    ensures
        match r {
            Ok(w) => shell_split(s@) == Some(string_views(w@)),
            Err(_) => shell_split(s@) is None,
        },
{
    shell_words::split(s)
}

/// Calls `Display::to_string` on a `shell_words::ParseError`. Trusted: the crate
/// writes that error, which has no fields, as the fixed text below.
#[verifier::external_body]
pub(crate) fn split_error_text(e: &shell_words::ParseError) -> (t: String)
    ensures
        t@ == "missing closing quote"@,
{
    e.to_string()
}

} // verus!
