use omnyssh::client::Host;
use omnyssh::session::{
    agent_signature, at_hop, checked_status, connect_budget_secs, connect_plan,
    default_key_paths, host_key_verdict, is_refused, kbd_answers, key_attempts, login_key,
    note_encrypted, passphrase_required, password_required, Cause, ChannelEvent, ConnectError,
    HostKeyVerdict, KbdLogin, KbdNext, KbdPrompt, KbdReply, KeyAttempt, KeyTry, KnownHostsCheck,
    Offer, OfferFlow, OfferStep, OutputCollector, PassphraseRequired, PasswordRequired, Refused,
};

fn prompt(text: &str, echo: bool) -> KbdPrompt {
    KbdPrompt {
        prompt: text.to_string(),
        echo,
    }
}

fn locked(path: &str) -> ConnectError {
    ConnectError::new(Cause::PassphraseRequired(PassphraseRequired::new(path.to_string())))
}

#[test]
fn a_locked_key_is_found_under_added_context() {
    let e = locked("/k/id").context(String::from("SFTP SSH connect"));
    assert_eq!(passphrase_required(&e), Some("/k/id"));
}

#[test]
fn a_locked_key_stays_recognisable_through_a_jump_host() {
    let hop = at_hop(locked("/k/id"), String::from("ProxyJump via 'bastion' failed"));
    assert_eq!(passphrase_required(&hop), Some("/k/id"));
    assert!(!is_refused(&hop));
    assert_eq!(
        hop.to_string(),
        "ProxyJump via 'bastion' failed: SSH key requires a passphrase: /k/id"
    );
}

#[test]
fn the_password_answers_one_hidden_prompt_only() {
    let mut password = Some("secret");
    let hidden = [prompt("Password: ", false)];
    assert_eq!(kbd_answers(&hidden, &mut password), ["secret"]);
    // A second ask (a code, a retry) must not get it again.
    assert_eq!(kbd_answers(&hidden, &mut password), [""]);
}

#[test]
fn other_prompts_are_answered_blank() {
    let mut password = Some("secret");
    assert!(kbd_answers(&[], &mut password).is_empty());
    assert_eq!(
        kbd_answers(&[prompt("Username: ", true)], &mut password),
        [""]
    );
    let two = [prompt("Password: ", false), prompt("Code: ", false)];
    assert_eq!(kbd_answers(&two, &mut password), ["", ""]);
    assert_eq!(
        password,
        Some("secret"),
        "never spent on a prompt it did not answer"
    );
}

#[test]
fn a_refusal_and_a_missing_password_survive_a_hop() {
    let refused = ConnectError::new(Cause::Refused(Refused("SSH authentication failed for db".to_string())))
        .context("connect".to_string());
    let hop = at_hop(refused, "connecting via 'b' failed".to_string());
    assert!(is_refused(&hop));
    assert_eq!(
        hop.full_message(),
        "connecting via 'b' failed: connect: SSH authentication failed for db"
    );

    let missing = ConnectError::new(Cause::PasswordRequired(PasswordRequired {
        login: "root@db:22".to_string(),
        message: "no password".to_string(),
    }));
    let hop = at_hop(missing, "x".to_string());
    assert_eq!(password_required(&hop), Some("root@db:22"));
    assert_eq!(passphrase_required(&hop), None);
    assert!(!is_refused(&hop));

    let unknown = ConnectError::new(Cause::UnknownKey("Unknown server key".to_string()));
    assert!(is_refused(&unknown));
    let plain = at_hop(ConnectError::new(Cause::Other("timed out".to_string())), "y".to_string());
    assert!(!is_refused(&plain));
    assert_eq!(plain.causes, vec![Cause::Other("y: timed out".to_string())]);
}

#[test]
fn a_locked_key_outranks_a_refusal() {
    let e = ConnectError::new(Cause::Refused(Refused("no".to_string())));
    let mut causes = e.causes;
    causes.push(Cause::PassphraseRequired(PassphraseRequired::new("/k".to_string())));
    let e = ConnectError { causes };
    let hop = at_hop(e, "z".to_string());
    assert_eq!(passphrase_required(&hop), Some("/k"));
    assert!(!is_refused(&hop));
}

fn host(user: &str, hostname: &str, port: u16) -> Host {
    Host {
        name: hostname.to_string(),
        hostname: hostname.to_string(),
        user: user.to_string(),
        port,
        ..Host::default_for("me".to_string())
    }
}

#[test]
fn a_login_key_names_every_bastion_nearest_first() {
    let target = host("root", "10.0.0.5", 22);
    assert_eq!(login_key(&target, &[]), "root@10.0.0.5:22");
    let via = [host("ops", "edge", 2222), host("ops", "inner", 22)];
    assert_eq!(
        login_key(&target, &via),
        "root@10.0.0.5:22 via ops@inner:22 via ops@edge:2222"
    );
}

#[test]
fn the_budget_grows_with_every_bastion() {
    assert_eq!(connect_budget_secs(0), 30);
    assert_eq!(connect_budget_secs(2), 90);
}

#[test]
fn a_changed_or_unreadable_host_key_is_refused() {
    assert_eq!(host_key_verdict(&KnownHostsCheck::Matches), HostKeyVerdict::Accept);
    assert_eq!(
        host_key_verdict(&KnownHostsCheck::Unknown),
        HostKeyVerdict::LearnAndAccept
    );
    assert_eq!(host_key_verdict(&KnownHostsCheck::Changed), HostKeyVerdict::Refuse);
    assert_eq!(
        host_key_verdict(&KnownHostsCheck::Unreadable("bad line".to_string())),
        HostKeyVerdict::Refuse
    );
}

#[test]
fn a_nonzero_exit_fails_a_checked_command() {
    assert_eq!(checked_status(None), Ok(()));
    assert_eq!(checked_status(Some(0)), Ok(()));
    assert_eq!(
        checked_status(Some(127)),
        Err("remote command exited with status 127".to_string())
    );
}

// --- command output -------------------------------------------------------

#[test]
fn output_is_stdout_with_unix_line_endings() {
    let mut c = OutputCollector::new();
    assert!(!c.feed(ChannelEvent::Data(b"one\r\ntwo".to_vec())));
    assert!(!c.feed(ChannelEvent::ExtendedData));
    assert!(!c.feed(ChannelEvent::Eof));
    assert!(!c.feed(ChannelEvent::ExitStatus(3)));
    assert!(!c.feed(ChannelEvent::Data(b"\nthree".to_vec())));
    assert!(c.feed(ChannelEvent::Close));
    assert_eq!(c.finish(), ("one\ntwo\nthree\n".to_string(), Some(3)));
}

#[test]
fn no_output_and_no_status_is_empty() {
    let c = OutputCollector::new();
    assert_eq!(c.finish(), (String::new(), None));
}

// --- keys -------------------------------------------------------------------

#[test]
fn the_default_keys_live_under_home() {
    assert_eq!(
        default_key_paths(Some("/home/me")),
        vec![
            "/home/me/.ssh/id_ed25519".to_string(),
            "/home/me/.ssh/id_rsa".to_string(),
            "/home/me/.ssh/id_ecdsa".to_string()
        ]
    );
    assert!(default_key_paths(None).is_empty());
}

#[test]
fn a_locked_default_key_counts_only_without_an_identity_file() {
    let present = vec!["/h/.ssh/id_rsa".to_string()];
    assert_eq!(
        key_attempts(&Some("/k/id".to_string()), &present),
        vec![
            KeyAttempt { path: "/k/id".to_string(), notes_lock: true },
            KeyAttempt { path: "/h/.ssh/id_rsa".to_string(), notes_lock: false },
        ]
    );
    assert_eq!(
        key_attempts(&None, &present),
        vec![KeyAttempt { path: "/h/.ssh/id_rsa".to_string(), notes_lock: true }]
    );
}

#[test]
fn only_the_first_locked_key_is_noted() {
    let mut noted = None;
    note_encrypted(&mut noted, &KeyTry::Rejected);
    assert_eq!(noted, None);
    note_encrypted(&mut noted, &KeyTry::Unusable { locked_path: None });
    assert_eq!(noted, None);
    note_encrypted(&mut noted, &KeyTry::Unusable { locked_path: Some("/a".to_string()) });
    note_encrypted(&mut noted, &KeyTry::Unusable { locked_path: Some("/b".to_string()) });
    assert_eq!(noted.as_deref(), Some("/a"));
}

// --- offering a password ----------------------------------------------------

#[test]
fn a_password_goes_by_the_password_method_then_keyboard_interactive() {
    let f = OfferFlow::start(true);
    assert_eq!(f.step, OfferStep::PasswordHere);
    assert_eq!(f.next(true).step, OfferStep::Done(Offer::Here));
    let f = f.next(false);
    assert_eq!(f.step, OfferStep::Dial);
    assert_eq!(f.next(false).step, OfferStep::Done(Offer::No));
    let f = f.next(true);
    assert_eq!(f.step, OfferStep::KeyboardInteractive);
    assert_eq!(f.next(true).step, OfferStep::Done(Offer::There));
    assert_eq!(f.next(false).step, OfferStep::Done(Offer::No));
}

#[test]
fn a_server_that_hung_up_gets_both_methods_on_a_fresh_connection() {
    let f = OfferFlow::start(false);
    assert_eq!(f.step, OfferStep::Dial);
    let f = f.next(true).next(false);
    assert_eq!(f.step, OfferStep::PasswordThere);
    assert_eq!(f.next(true).step, OfferStep::Done(Offer::There));
}

#[test]
fn a_code_prompt_never_gets_the_password() {
    let mut login = KbdLogin::new("secret");
    let code = KbdReply::InfoRequest(vec![prompt("Verification code: ", true)]);
    assert_eq!(login.on_reply(&code), KbdNext::Respond(vec![String::new()]));
    let hidden = KbdReply::InfoRequest(vec![prompt("Password: ", false)]);
    assert_eq!(login.on_reply(&hidden), KbdNext::Respond(vec!["secret".to_string()]));
    assert_eq!(login.on_reply(&KbdReply::Success), KbdNext::Done(true));
}

#[test]
fn keyboard_interactive_gives_up_after_four_rounds() {
    let mut login = KbdLogin::new("secret");
    let ask = KbdReply::InfoRequest(vec![prompt("Password: ", false)]);
    for _ in 0..4 {
        assert!(matches!(login.on_reply(&ask), KbdNext::Respond(_)));
    }
    assert_eq!(login.on_reply(&KbdReply::Success), KbdNext::Done(false));
    let mut refused = KbdLogin::new("x");
    assert_eq!(refused.on_reply(&KbdReply::Failure), KbdNext::Done(false));
}

// --- the jump chain -----------------------------------------------------------

#[test]
fn each_hop_rides_the_one_before() {
    let target = host("root", "10.0.0.5", 22);
    let mut edge = host("ops", "edge", 22);
    edge.name = "edge".to_string();
    let mut inner = host("ops", "inner", 22);
    inner.name = "inner".to_string();
    let plan = connect_plan(&target, &[edge, inner]);
    assert_eq!(plan.len(), 3);
    assert_eq!(plan[0].bastion, Some(0));
    assert!(!plan[0].tunnelled);
    assert_eq!(plan[0].key, "ops@edge:22");
    assert_eq!(plan[0].context.as_deref(), Some("ProxyJump via 'edge' failed"));
    assert!(plan[1].tunnelled);
    assert_eq!(plan[1].key, "ops@inner:22 via ops@edge:22");
    assert_eq!(plan[2].bastion, None);
    assert_eq!(plan[2].key, "root@10.0.0.5:22 via ops@inner:22 via ops@edge:22");
    assert_eq!(plan[2].context.as_deref(), Some("connecting via 'inner' failed"));

    let direct = connect_plan(&target, &[]);
    assert_eq!(direct.len(), 1);
    assert!(!direct[0].tunnelled);
    assert_eq!(direct[0].context, None);
}

#[test]
fn an_unchanged_agent_reply_is_no_signature() {
    assert_eq!(agent_signature(Some(vec![1, 2, 3]), 3), None);
    assert_eq!(agent_signature(Some(vec![1, 2, 3, 4]), 3), Some(vec![1, 2, 3, 4]));
    assert_eq!(agent_signature(None, 3), None);
}
