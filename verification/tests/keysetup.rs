use omnyssh::client::Host;
use omnyssh::keysetup::{connection_failed, key_setup_report, record_key, KeySetupReport, SetupEnd};

fn named(name: &str) -> Host {
    Host {
        name: name.to_string(),
        password: Some("pw".to_string()),
        ..Host::default_for("me".to_string())
    }
}

#[test]
fn a_key_in_place_completes_the_setup() {
    assert_eq!(
        key_setup_report(Ok((SetupEnd::Success, None))),
        KeySetupReport::Complete { password_disabled: true }
    );
    assert_eq!(
        key_setup_report(Ok((SetupEnd::PartialSuccess, Some("no sudo".to_string())))),
        KeySetupReport::Complete { password_disabled: false }
    );
}

#[test]
fn a_rollback_and_a_failure_say_why() {
    assert_eq!(
        key_setup_report(Ok((SetupEnd::RolledBack, None))),
        KeySetupReport::Rollback("Rolled back.".to_string())
    );
    assert_eq!(
        key_setup_report(Ok((SetupEnd::RolledBack, Some("verify failed".to_string())))),
        KeySetupReport::Rollback("verify failed".to_string())
    );
    assert_eq!(
        key_setup_report(Ok((SetupEnd::Failed, None))),
        KeySetupReport::Failed("Key setup failed.".to_string())
    );
    assert_eq!(
        key_setup_report(Err("channel closed".to_string())),
        KeySetupReport::Failed("channel closed".to_string())
    );
    assert_eq!(connection_failed("timed out"), "Connection failed: timed out");
}

#[test]
fn a_full_success_drops_the_stored_password() {
    let mut hosts = vec![named("a"), named("web")];
    assert!(record_key(&mut hosts, &"web".to_string(), "/k/id_ed25519", "2026-01-01T00:00:00+00:00", true));
    assert_eq!(hosts[1].identity_file.as_deref(), Some("/k/id_ed25519"));
    assert_eq!(hosts[1].key_setup_date.as_deref(), Some("2026-01-01T00:00:00+00:00"));
    assert_eq!(hosts[1].password_auth_disabled, Some(true));
    assert_eq!(hosts[1].password, None);
    assert_eq!(hosts[0].password.as_deref(), Some("pw"), "other hosts are untouched");
}

#[test]
fn a_partial_success_keeps_the_password() {
    let mut hosts = vec![named("web")];
    assert!(record_key(&mut hosts, &"web".to_string(), "/k/id", "d", false));
    assert_eq!(hosts[0].password.as_deref(), Some("pw"));
    assert_eq!(hosts[0].password_auth_disabled, None);
}

#[test]
fn an_ssh_config_host_is_not_written() {
    let mut hosts = vec![named("a")];
    assert!(!record_key(&mut hosts, &"imported".to_string(), "/k/id", "d", true));
    assert_eq!(hosts[0].identity_file, None);
}
