//! Checks on what the user types in for a profile.
use vstd::prelude::*;
use crate::error::{GuseError, GuseErrorModel};
use crate::text::{chars_of, find_char, lemma_find_from_bounds};

verus! {

/// The shape of an email address that a profile is meant to hold.
pub const EMAIL_PATTERN: &'static str = "^[a-zA-Z0-9.!#$%&'*+/=?^_`{|}~-]+@[a-zA-Z0-9](?:[a-zA-Z0-9-]{0,61}[a-zA-Z0-9])?(?:\\.[a-zA-Z0-9](?:[a-zA-Z0-9-]{0,61}[a-zA-Z0-9])?)*$";

/// Whether the regex crate accepts `pattern` as a regular expression.
pub uninterp spec fn regex_compiles(pattern: Seq<char>) -> bool;

/// Relies on `regex::Regex::new`: it fails exactly on the patterns it
/// cannot compile, which depends on the pattern alone.
#[verifier::external_body]
fn compile_pattern(pattern: &str) -> (r: Result<(), String>)
    ensures
        r is Ok == regex_compiles(pattern@),
{
    match regex::Regex::new(pattern) {
        Ok(_) => Ok(()),
        Err(e) => Err(e.to_string()),
    }
}

/// The rest of the email check once the pattern has been compiled:
/// a pattern that failed is reported, and otherwise the address must
/// hold an `@`.
pub fn check_email(email: &str, pattern: Result<(), String>) -> (r: Result<(), GuseError>)
    ensures
        match pattern {
            Err(m) => r is Err && r->Err_0@ == GuseErrorModel::ValidationError(m@),
            Ok(()) => if email@.contains('@') {
                r is Ok
            } else {
                r is Err && r->Err_0@ == GuseErrorModel::ValidationError(
                    "Email address must contain '@' character."@,
                )
            },
        },
{
    if let Err(m) = pattern {
        return Err(GuseError::ValidationError(m));
    }
    let v = chars_of(email);
    let at = find_char(&v, '@', 0);
    proof {
        lemma_find_from_bounds(v@, '@', 0);
    }
    if at < v.len() {
        assert(email@[at as int] == '@');
        Ok(())
    } else {
        Err(GuseError::ValidationError(String::from_str("Email address must contain '@' character.")))
    }
}

/// Checks an email address typed in for a profile.
pub fn validate_email(email: &str) -> (r: Result<(), GuseError>)
    ensures
        r is Ok <==> regex_compiles(EMAIL_PATTERN@) && email@.contains('@'),
        r is Err ==> r->Err_0@ is ValidationError,
        regex_compiles(EMAIL_PATTERN@) && !email@.contains('@') ==> r is Err && r->Err_0@
            == GuseErrorModel::ValidationError("Email address must contain '@' character."@),
{
    let compiled = compile_pattern(EMAIL_PATTERN);
    check_email(email, compiled)
}

/// Checks the SSH host typed in for a profile: it must not be empty.
pub fn validate_ssh_host(host: &str) -> (r: Result<(), GuseError>)
    ensures
        r is Ok <==> host@.len() > 0,
        r is Err ==> r->Err_0@ == GuseErrorModel::ValidationError("SSH host cannot be empty."@),
{
    if host.is_empty() {
        return Err(GuseError::ValidationError(String::from_str("SSH host cannot be empty.")));
    }
    Ok(())
}

} // verus!
