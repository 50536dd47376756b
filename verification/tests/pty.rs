use omnyssh::pty::{is_utf8_locale, locale_env, prompt_banner, Ctrl, InlineTab, PasswordLine};

fn typed(chunks: &[&[u8]]) -> Option<Option<String>> {
    let mut line = PasswordLine::default();
    chunks.iter().find_map(|chunk| line.feed(chunk))
}

fn env(pairs: &[(&str, &str)]) -> Vec<(String, String)> {
    pairs
        .iter()
        .map(|(k, v)| (k.to_string(), v.to_string()))
        .collect()
}

#[test]
fn the_password_is_whatever_was_typed_before_enter() {
    assert_eq!(
        typed(&[b"se", b"cret\r"]),
        Some(Some(String::from("secret")))
    );
    assert_eq!(typed(&[b"secret\n"]), Some(Some(String::from("secret"))));
    assert_eq!(typed(&[b"\r"]), Some(Some(String::new())));
    assert_eq!(typed(&[b"secret"]), None, "not done before Enter");
}

#[test]
fn the_prompt_edits_like_a_line() {
    assert_eq!(
        typed(&["pässw\x7fword\r".as_bytes()]),
        Some(Some(String::from("pässword")))
    );
    assert_eq!(
        typed(&["pä\x7f\x7fx\r".as_bytes()]),
        Some(Some(String::from("x"))),
        "backspace removes a whole character"
    );
    assert_eq!(
        typed(&[b"wrong\x15right\r"]),
        Some(Some(String::from("right")))
    );
}

#[test]
fn escape_sequences_are_not_part_of_the_password() {
    // Arrow keys, an SS3 function key and bracketed-paste markers.
    let keys: &[u8] = b"\x1b[Ase\x1bOPcr\x1b[1;5Det\x1b[200~!\x1b[201~\r";
    assert_eq!(typed(&[keys]), Some(Some(String::from("secret!"))));
}

#[test]
fn ctrl_c_or_ctrl_d_on_an_empty_line_cancels() {
    assert_eq!(typed(&[b"secr\x03"]), Some(None));
    assert_eq!(typed(&[b"\x04"]), Some(None));
    assert_eq!(typed(&[b"a\x04b\r"]), Some(Some(String::from("ab"))));
}

#[test]
fn nothing_after_enter_is_kept() {
    let mut line = PasswordLine::default();
    assert_eq!(
        line.feed(b"secret\rls -la\r"),
        Some(Some(String::from("secret")))
    );
}

#[test]
fn a_backspace_on_an_empty_line_does_nothing() {
    assert_eq!(typed(&[b"\x7f\x08ok\r"]), Some(Some(String::from("ok"))));
}

#[test]
fn an_escape_split_across_chunks_is_still_dropped() {
    assert_eq!(typed(&[b"a\x1b", b"[", b"12~b\r"]), Some(Some(String::from("ab"))));
}

#[test]
fn invalid_utf8_is_replaced_not_lost() {
    assert_eq!(
        typed(&[b"a\xffb\r"]),
        Some(Some(String::from("a\u{fffd}b")))
    );
}

#[test]
fn is_utf8_locale_recognizes_common_forms() {
    assert!(is_utf8_locale("en_US.UTF-8"));
    assert!(is_utf8_locale("ru_RU.utf8"));
    assert!(is_utf8_locale("de_DE.UTF-8@euro"));
    assert!(!is_utf8_locale("C"));
    assert!(!is_utf8_locale("POSIX"));
    assert!(!is_utf8_locale("en_US.ISO8859-1"));
}

#[test]
fn the_codeset_is_read_after_the_last_dot() {
    assert!(is_utf8_locale("a.b.Utf-8"));
    assert!(!is_utf8_locale("x.UTF-8.latin1"));
    assert!(!is_utf8_locale("UTF-8"));
}

#[test]
fn locale_env_defaults_ctype_to_utf8_when_no_locale_env() {
    // A process with no locale env (e.g. a GUI launched from Finder) still
    // gets a UTF-8 character type forwarded.
    let got = locale_env(env(&[("PATH", "/bin"), ("HOME", "/root")]));
    assert_eq!(got, env(&[("LC_CTYPE", "C.UTF-8")]));
}

#[test]
fn locale_env_forces_utf8_when_lang_is_not_utf8() {
    let got = locale_env(env(&[("LANG", "C")]));
    assert!(got.contains(&("LANG".into(), "C".into())));
    assert!(got.contains(&("LC_CTYPE".into(), "C.UTF-8".into())));
}

#[test]
fn locale_env_keeps_a_utf8_lang_and_adds_no_fallback() {
    // Regression guard: a working UTF-8 LANG must not be overridden by a
    // C.UTF-8 the server might not have.
    let got = locale_env(env(&[
        ("LANG", "ru_RU.UTF-8"),
        ("LC_MESSAGES", "ru_RU.UTF-8"),
    ]));
    assert!(got.contains(&("LANG".into(), "ru_RU.UTF-8".into())));
    assert!(got.iter().all(|(k, _)| k != "LC_CTYPE"));
}

#[test]
fn locale_env_replaces_a_non_utf8_ctype_without_duplicating() {
    let got = locale_env(env(&[("LC_CTYPE", "C")]));
    assert_eq!(got, env(&[("LC_CTYPE", "C.UTF-8")]));
}

#[test]
fn locale_env_respects_an_explicit_utf8_ctype() {
    let got = locale_env(env(&[("LC_CTYPE", "ru_RU.UTF-8")]));
    assert_eq!(got, env(&[("LC_CTYPE", "ru_RU.UTF-8")]));
}

#[test]
fn locale_env_respects_lc_all() {
    // LC_ALL overrides every category, so leave the explicit choice untouched.
    let got = locale_env(env(&[("LC_ALL", "C")]));
    assert_eq!(got, env(&[("LC_ALL", "C")]));
}

#[test]
fn a_utf8_ctype_outranks_a_plain_lang() {
    let got = locale_env(env(&[("LANG", "C"), ("LC_CTYPE", "en_US.UTF-8"), ("TERM", "xterm")]));
    assert_eq!(got, env(&[("LANG", "C"), ("LC_CTYPE", "en_US.UTF-8")]));
}

#[test]
fn the_prompt_says_why_it_asks_again() {
    assert_eq!(prompt_banner(false, None, "root@db"), "root@db's password: ");
    assert_eq!(
        prompt_banner(true, Some("ssh-ed25519 AAAA"), "root@db"),
        "Permission denied, please try again.\r\nroot@db's password: "
    );
    assert_eq!(
        prompt_banner(false, Some("ssh-ed25519 AAAA"), "root@db"),
        "New host key recorded: ssh-ed25519 AAAA\r\nroot@db's password: "
    );
}

#[test]
fn keys_typed_ahead_are_dropped_but_a_resize_and_a_close_are_kept() {
    let mut tab = InlineTab { size: (80, 24), closed: false };
    tab.flush(&Ctrl::Input(b"typed ahead".to_vec()));
    assert_eq!(tab, InlineTab { size: (80, 24), closed: false });
    tab.flush(&Ctrl::Resize { cols: 120, rows: 40 });
    assert_eq!(tab.size, (120, 40));
    tab.flush(&Ctrl::Close);
    assert!(tab.closed);
}

#[test]
fn a_tab_closed_at_the_prompt_cancels_it() {
    let mut tab = InlineTab { size: (80, 24), closed: false };
    let mut line = PasswordLine::default();
    assert_eq!(tab.typing(Some(&Ctrl::Input(b"sec".to_vec())), &mut line), None);
    assert_eq!(tab.typing(Some(&Ctrl::Resize { cols: 1, rows: 2 }), &mut line), None);
    assert_eq!(tab.size, (1, 2));
    assert_eq!(
        tab.typing(Some(&Ctrl::Input(b"ret\r".to_vec())), &mut line),
        Some(Some("secret".to_string()))
    );
    let mut gone = InlineTab { size: (80, 24), closed: false };
    assert_eq!(gone.typing(None, &mut PasswordLine::default()), Some(None));
    assert!(gone.closed);
}

#[test]
fn a_tab_closed_at_the_prompt_reports_no_error() {
    assert_eq!(omnyssh::pty::terminal_error(true, "cancelled"), None);
    assert_eq!(
        omnyssh::pty::terminal_error(false, "timed out"),
        Some("Terminal: timed out".to_string())
    );
}
