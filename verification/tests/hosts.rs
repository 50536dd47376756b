use omnyssh::client::{Host, HostSource};
use omnyssh::hosts::{remove, upsert, HostInput};

fn input(name: &str) -> HostInput {
    HostInput {
        name: name.to_string(),
        hostname: "example.com".to_string(),
        user: "root".to_string(),
        port: 22,
        identity_file: None,
        password: None,
        proxy_jump: None,
        tags: vec![],
        notes: None,
    }
}

fn blank() -> Host {
    Host::default_for("me".to_string())
}

#[test]
fn upsert_appends_a_new_manual_host() {
    let mut hosts = vec![];
    upsert(&mut hosts, input("web"));
    assert_eq!(hosts.len(), 1);
    assert_eq!(hosts[0].name, "web");
    assert_eq!(hosts[0].source, HostSource::Manual);
}

#[test]
fn upsert_replaces_editable_fields_in_place() {
    let mut hosts = vec![Host {
        name: "web".to_string(),
        hostname: "old.example.com".to_string(),
        notes: Some("old".to_string()),
        source: HostSource::Manual,
        ..blank()
    }];
    let mut edit = input("web");
    edit.hostname = "new.example.com".to_string();
    edit.notes = Some("new".to_string());
    upsert(&mut hosts, edit);
    assert_eq!(hosts.len(), 1, "edit is in-place, not an append");
    assert_eq!(hosts[0].hostname, "new.example.com");
    assert_eq!(hosts[0].notes.as_deref(), Some("new"));
}

#[test]
fn upsert_preserves_secrets_and_metadata_the_form_cannot_see() {
    // The edit form is seeded from what the frontend sees, which omits
    // password/identity/proxy; a blank submission must not wipe them, nor the
    // key-setup metadata.
    let mut hosts = vec![Host {
        name: "web".to_string(),
        password: Some("keep-me".to_string()),
        identity_file: Some("/keys/id".to_string()),
        proxy_jump: Some("bastion".to_string()),
        key_setup_date: Some("2026-01-01".to_string()),
        password_auth_disabled: Some(true),
        original_ssh_host: Some("web-old".to_string()),
        source: HostSource::Manual,
        ..blank()
    }];
    upsert(&mut hosts, input("web"));
    let h = &hosts[0];
    assert_eq!(h.password.as_deref(), Some("keep-me"));
    assert_eq!(h.identity_file.as_deref(), Some("/keys/id"));
    assert_eq!(h.proxy_jump.as_deref(), Some("bastion"));
    assert_eq!(h.key_setup_date.as_deref(), Some("2026-01-01"));
    assert_eq!(h.password_auth_disabled, Some(true));
    assert_eq!(h.original_ssh_host.as_deref(), Some("web-old"));
}

#[test]
fn upsert_overwrites_a_secret_when_a_new_one_is_provided() {
    let mut hosts = vec![Host {
        name: "web".to_string(),
        password: Some("old".to_string()),
        source: HostSource::Manual,
        ..blank()
    }];
    let mut edit = input("web");
    edit.password = Some("rotated".to_string());
    upsert(&mut hosts, edit);
    assert_eq!(hosts[0].password.as_deref(), Some("rotated"));
}

#[test]
fn remove_drops_only_the_named_host() {
    let mut hosts = vec![
        Host {
            name: "a".to_string(),
            ..blank()
        },
        Host {
            name: "b".to_string(),
            ..blank()
        },
    ];
    remove(&mut hosts, "a");
    assert_eq!(hosts.len(), 1);
    assert_eq!(hosts[0].name, "b");
}

#[test]
fn remove_is_a_no_op_for_a_missing_name() {
    // An SSH-config name (absent from hosts.toml) or an already-gone one changes
    // nothing — the desired end state already holds.
    let mut hosts = vec![Host {
        name: "a".to_string(),
        ..blank()
    }];
    remove(&mut hosts, "ghost");
    assert_eq!(hosts.len(), 1);
    assert_eq!(hosts[0].name, "a");
}

#[test]
fn an_edit_goes_to_the_first_host_of_that_name_only() {
    let mut hosts = vec![
        Host {
            name: "x".to_string(),
            ..blank()
        },
        Host {
            name: "web".to_string(),
            hostname: "one".to_string(),
            ..blank()
        },
        Host {
            name: "web".to_string(),
            hostname: "two".to_string(),
            ..blank()
        },
    ];
    upsert(&mut hosts, input("web"));
    assert_eq!(hosts.len(), 3);
    assert_eq!(hosts[1].hostname, "example.com");
    assert_eq!(hosts[2].hostname, "two");
    remove(&mut hosts, "web");
    assert_eq!(hosts.len(), 1);
    assert_eq!(hosts[0].name, "x");
}

#[test]
fn a_new_manual_host_takes_the_defaults() {
    let mut i = input("db");
    i.tags = vec!["prod".to_string()];
    let h = Host::from_input(i);
    assert_eq!(h.tags, vec!["prod".to_string()]);
    assert_eq!(h.port, 22);
    assert!(h.local_forwards.is_empty());
    assert!(!h.tunnel_autostart);
    assert_eq!(h.key_setup_date, None);
}
