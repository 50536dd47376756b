use omnyssh::auth::{AuthEvent, AuthFlow, AuthStep, PasswordUse};
use omnyssh::client::Host;
use omnyssh::session::{passphrase_required, password_required, is_refused, Cause, Refused};

fn host(password: Option<&str>) -> Host {
    Host {
        name: "db".to_string(),
        hostname: "10.0.0.7".to_string(),
        user: "root".to_string(),
        password: password.map(str::to_string),
        ..Host::default_for("me".to_string())
    }
}

fn key() -> String {
    "root@10.0.0.7:22".to_string()
}

fn fail_of(step: AuthStep) -> omnyssh::session::ConnectError {
    match step {
        AuthStep::Fail(e) => e,
        other => panic!("expected a failure, got {other:?}"),
    }
}

#[test]
fn a_typed_password_goes_before_the_saved_one() {
    let mut flow = AuthFlow::start(
        &host(Some("saved")),
        key(),
        PasswordUse::Remembered,
        None,
        Some("typed".to_string()),
    );
    assert_eq!(flow.advance(AuthEvent::Continue), AuthStep::Offer("typed".to_string()));
    assert_eq!(
        flow.advance(AuthEvent::Offered(false)),
        AuthStep::Forget("typed".to_string()),
        "a refused typed password is forgotten"
    );
    assert_eq!(flow.advance(AuthEvent::Continue), AuthStep::Offer("saved".to_string()));
    assert_eq!(flow.advance(AuthEvent::Offered(true)), AuthStep::LoggedIn(None));
}

#[test]
fn a_refused_password_is_sent_once_per_login() {
    // The typed password is the saved one: it is offered once, not twice.
    let mut flow = AuthFlow::start(
        &host(Some("same")),
        key(),
        PasswordUse::Remembered,
        None,
        Some("same".to_string()),
    );
    assert_eq!(flow.candidates.len(), 1);
    assert_eq!(flow.advance(AuthEvent::Continue), AuthStep::Offer("same".to_string()));
    assert_eq!(flow.advance(AuthEvent::Offered(false)), AuthStep::Forget("same".to_string()));
    assert_eq!(flow.advance(AuthEvent::Continue), AuthStep::CheckHangUp);
    let e = fail_of(flow.advance(AuthEvent::HangUp { closed: false, hung_up: false }));
    assert!(is_refused(&e));
    assert_eq!(e.to_string(), "SSH authentication failed for db");
}

#[test]
fn a_login_with_nothing_to_try_says_what_is_missing() {
    let mut flow = AuthFlow::start(&host(None), key(), PasswordUse::Remembered, None, None);
    let e = fail_of(flow.advance(AuthEvent::Continue));
    assert_eq!(password_required(&e), Some("root@10.0.0.7:22"));
    assert_eq!(
        e.to_string(),
        "SSH authentication failed for db: no key was accepted and no password is saved"
    );
}

#[test]
fn a_locked_key_asks_for_its_passphrase_before_anyone_is_asked() {
    let mut flow = AuthFlow::start(
        &host(None),
        key(),
        PasswordUse::Ask,
        Some("/k/id".to_string()),
        None,
    );
    let e = fail_of(flow.advance(AuthEvent::Continue));
    assert_eq!(passphrase_required(&e), Some("/k/id"));
}

#[test]
fn a_terminal_asks_for_the_password_in_the_tab() {
    let mut flow = AuthFlow::start(&host(None), key(), PasswordUse::Ask, None, None);
    assert_eq!(
        flow.advance(AuthEvent::Continue),
        AuthStep::Ask {
            login: "root@10.0.0.7".to_string(),
            retry: false
        }
    );
    assert_eq!(
        flow.advance(AuthEvent::Answered(Some("pw".to_string()))),
        AuthStep::Offer("pw".to_string())
    );
    assert_eq!(
        flow.advance(AuthEvent::Offered(true)),
        AuthStep::LoggedIn(Some("pw".to_string())),
        "a typed password that got in is remembered"
    );
}

#[test]
fn the_user_is_asked_three_times_at_most() {
    let mut flow = AuthFlow::start(&host(Some("saved")), key(), PasswordUse::Ask, None, None);
    assert_eq!(flow.advance(AuthEvent::Continue), AuthStep::Offer("saved".to_string()));
    assert_eq!(
        flow.advance(AuthEvent::Offered(false)),
        AuthStep::Ask {
            login: "root@10.0.0.7".to_string(),
            retry: true
        },
        "a refused saved password makes the first ask a retry"
    );
    for _ in 0..2 {
        flow.advance(AuthEvent::Answered(Some("wrong".to_string())));
        assert!(matches!(
            flow.advance(AuthEvent::Offered(false)),
            AuthStep::Ask { retry: true, .. }
        ));
    }
    flow.advance(AuthEvent::Answered(Some("wrong".to_string())));
    let e = fail_of(flow.advance(AuthEvent::Offered(false)));
    assert!(is_refused(&e));
}

#[test]
fn a_cancel_ends_the_login() {
    let mut flow = AuthFlow::start(&host(None), key(), PasswordUse::Ask, None, None);
    flow.advance(AuthEvent::Continue);
    let e = fail_of(flow.advance(AuthEvent::Answered(None)));
    assert_eq!(
        e.causes,
        vec![Cause::Refused(Refused("SSH login cancelled for db".to_string()))]
    );
}

#[test]
fn only_a_server_that_hung_up_itself_refused_us() {
    let mut flow = AuthFlow::start(&host(None), key(), PasswordUse::SavedOnly, None, Some("t".to_string()));
    assert!(flow.candidates.is_empty(), "key setup never uses a typed password");
    assert_eq!(flow.advance(AuthEvent::Continue), AuthStep::CheckHangUp);
    let e = fail_of(flow.advance(AuthEvent::HangUp { closed: true, hung_up: false }));
    assert!(!is_refused(&e), "a link that just died is not a refusal");
}
