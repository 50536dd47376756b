//! Answering `ssh`'s askpass questions for a terminal session.
//!
//! The interactive terminal runs the system `ssh`, which cannot read the
//! password stored for a host and would ask for it on every connection. So
//! the terminal points `SSH_ASKPASS` at this program and hands the password
//! over in the child's environment ([`PASSWORD_ENV`]). When `ssh` needs a
//! password it runs us in askpass mode and reads the answer from stdout: the
//! password never touches disk or the command line.

use vstd::prelude::*;
use crate::text::{chars_of, contains_seq, contains_text, lowercase, to_lowercase};

verus! {

/// Environment variable carrying the stored password to our binary when it is
/// run as `ssh`'s askpass helper. Its presence signals askpass mode.
pub const PASSWORD_ENV: &'static str = "OMNY_ASKPASS_PASSWORD";

/// What to print for a prompt already in small letters: the password for a
/// password prompt, nothing for any other question.
pub fn response_for_lowercased(lowered: &str, password: &str) -> (r: Option<String>)
    ensures
        match r {
            Some(s) => contains_seq(lowered@, "password"@) && s@ == password@,
            None => !contains_seq(lowered@, "password"@),
        },
{
    let v = chars_of(lowered);
    if contains_text(v.as_slice(), "password") {
        Some(String::from_str(password))
    } else {
        None
    }
}

/// Decides what to print when run as `ssh`'s askpass program. `prompt` is the
/// text `ssh` passes as the first argument. The password goes out only for a
/// genuine password prompt — one that, in small letters, says "password" —
/// and any other question (a host key's `yes/no`) gets nothing, so the
/// password is never fed to it.
pub fn response_for_prompt(prompt: &str, password: &str) -> (r: Option<String>)
    ensures
        match r {
            Some(s) => contains_seq(lowercase(prompt@), "password"@) && s@ == password@,
            None => !contains_seq(lowercase(prompt@), "password"@),
        },
{
    let lowered = to_lowercase(prompt);
    response_for_lowercased(lowered.as_str(), password)
}

} // verus!
