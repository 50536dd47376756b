//! The askpass helper answers genuine password prompts with the stored
//! password, and never feeds it to other prompts (a host key's `yes/no`).

use omnyssh::askpass::{response_for_lowercased, response_for_prompt, PASSWORD_ENV};

#[test]
fn answers_standard_password_prompt() {
    let prompt = "user@host's password:";
    assert_eq!(
        response_for_prompt(prompt, "s3cret"),
        Some("s3cret".to_string())
    );
}

#[test]
fn answers_capitalized_password_prompt() {
    assert_eq!(
        response_for_prompt("Password:", "s3cret"),
        Some("s3cret".to_string())
    );
}

#[test]
fn ignores_host_key_confirmation_prompt() {
    let prompt = "The authenticity of host 'example.com' can't be established.\n\
                  Are you sure you want to continue connecting (yes/no/[fingerprint])?";
    assert_eq!(response_for_prompt(prompt, "s3cret"), None);
}

#[test]
fn ignores_empty_prompt() {
    assert_eq!(response_for_prompt("", "s3cret"), None);
}

#[test]
fn a_shouted_prompt_is_lowered_before_it_is_read() {
    // Only the lowering makes this one a password prompt.
    assert_eq!(response_for_lowercased("ENTER PASSWORD:", "pw"), None);
    assert_eq!(response_for_prompt("ENTER PASSWORD:", "pw"), Some("pw".to_string()));
}

#[test]
fn the_word_may_stand_anywhere_in_the_prompt() {
    assert_eq!(
        response_for_lowercased("(root@10.0.0.1) password", "pw"),
        Some("pw".to_string())
    );
    assert_eq!(response_for_lowercased("passwor", "pw"), None);
}

#[test]
fn the_password_travels_in_its_own_variable() {
    assert_eq!(PASSWORD_ENV, "OMNY_ASKPASS_PASSWORD");
}
