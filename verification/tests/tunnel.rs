use omnyssh::client::Host;
use omnyssh::tunnel::{
    after_attempt, attempt_of_failure, autostart, changed_between, listen_failure, open_failure,
    precheck, retry_delay_secs, sync_plan, Attempt, BindPlan, LocalForward, Next, RETRY_STEPS,
    Run, SyncAction, TunnelStatus,
};
use omnyssh::session::{Cause, ConnectError, PassphraseRequired, Refused};

fn rule(bind: Option<&str>, port: u16, host: &str, hostport: u16) -> LocalForward {
    LocalForward {
        bind_address: bind.map(str::to_string),
        bind_port: port,
        remote_host: host.to_string(),
        remote_port: hostport,
    }
}

fn plain(name: &str, hostname: &str) -> Host {
    Host {
        name: name.to_string(),
        hostname: hostname.to_string(),
        ..Host::default_for("me".to_string())
    }
}

#[test]
fn the_ssh_notation_parses() {
    let cases = [
        ("9443:127.0.0.1:9443", rule(None, 9443, "127.0.0.1", 9443)),
        (
            "5432:db.internal:5432",
            rule(None, 5432, "db.internal", 5432),
        ),
        (
            "localhost:8080:web:80",
            rule(Some("localhost"), 8080, "web", 80),
        ),
        (
            "0.0.0.0:8080:web:80",
            rule(Some("0.0.0.0"), 8080, "web", 80),
        ),
        ("*:8080:web:80", rule(Some("*"), 8080, "web", 80)),
        (":8080:web:80", rule(Some(""), 8080, "web", 80)),
        (
            "[::1]:8080:[fe80::1]:80",
            rule(Some("::1"), 8080, "fe80::1", 80),
        ),
        ("8080:[::1]:80", rule(None, 8080, "::1", 80)),
        (
            "  3000:localhost:3000  ",
            rule(None, 3000, "localhost", 3000),
        ),
    ];
    for (spec, expected) in cases {
        assert_eq!(LocalForward::parse(spec), Ok(expected), "{spec}");
    }
}

#[test]
fn a_malformed_rule_is_rejected() {
    for spec in [
        "",
        "8080",
        "8080:web",
        "a:b:c:d:e",
        "0:web:80",
        "8080:web:0",
        "70000:web:80",
        "8080:web:http",
        "8080::80",
        "[::1:8080:web:80",
        "-1:web:80",
    ] {
        assert!(
            LocalForward::parse(spec).is_err(),
            "'{spec}' should be rejected"
        );
    }
}

#[test]
fn a_rule_round_trips_through_its_notation() {
    for spec in [
        "9443:127.0.0.1:9443",
        "localhost:8080:web:80",
        ":8080:web:80",
        "[::1]:8080:[fe80::1]:80",
    ] {
        let parsed: LocalForward = LocalForward::parse(spec).expect("valid");
        assert_eq!(parsed.to_string(), spec);
    }
}

#[test]
fn only_a_tunnel_input_counts_as_a_change() {
    let before = Host {
        local_forwards: vec![rule(None, 9443, "127.0.0.1", 9443)],
        ..plain("nas", "10.0.0.5")
    };

    let mut cosmetic = before.clone();
    cosmetic.tags = vec![String::from("home")];
    cosmetic.notes = Some(String::from("portainer"));
    cosmetic.tunnel_autostart = true;
    assert!(!changed_between(&before, &cosmetic));

    let mut moved = before.clone();
    moved
        .local_forwards
        .push(rule(None, 5432, "localhost", 5432));
    assert!(changed_between(&before, &moved));

    let mut readdressed = before.clone();
    readdressed.hostname = String::from("10.0.0.6");
    assert!(changed_between(&before, &readdressed));
}

// --- notation details --------------------------------------------------

#[test]
fn the_error_names_the_usage_for_too_few_fields() {
    let err = LocalForward::parse("8080:web").unwrap_err();
    assert!(err.contains("[bind_address:]port:host:hostport"), "{err}");
}

#[test]
fn an_ipv6_remote_is_written_back_in_brackets() {
    assert_eq!(rule(None, 8080, "::1", 80).to_string(), "8080:[::1]:80");
    assert_eq!(rule(None, 22, "db", 5432).to_string(), "22:db:5432");
}

#[test]
fn loopback_and_wildcard_addresses_bind_as_ssh_does() {
    assert_eq!(rule(None, 1, "h", 2).bind_plan(), BindPlan::Loopback);
    assert_eq!(rule(Some("localhost"), 1, "h", 2).bind_plan(), BindPlan::Loopback);
    assert_eq!(rule(Some("*"), 1, "h", 2).bind_plan(), BindPlan::Everywhere);
    assert_eq!(rule(Some(""), 1, "h", 2).bind_plan(), BindPlan::Everywhere);
    assert_eq!(
        rule(Some("10.0.0.1"), 1, "h", 2).bind_plan(),
        BindPlan::Named("10.0.0.1".to_string())
    );
}

// --- retries -----------------------------------------------------------

#[test]
fn the_backoff_grows_then_holds() {
    let waits: Vec<u64> = (0..RETRY_STEPS).map(retry_delay_secs).collect();
    assert_eq!(waits, vec![1, 2, 5, 10, 30]);
}

#[test]
fn a_refusal_ends_the_tunnel() {
    let (next, step) = after_attempt(2, Attempt::Refused("no".to_string()));
    assert_eq!(next, Next::End(TunnelStatus::Failed("no".to_string())));
    assert_eq!(step, 2);
}

#[test]
fn a_failure_waits_and_moves_the_backoff_on() {
    let (next, step) = after_attempt(1, Attempt::Failed("down".to_string()));
    assert_eq!(next, Next::Retry(TunnelStatus::Retrying("down".to_string()), 2));
    assert_eq!(step, 2);
    let (_, last) = after_attempt(4, Attempt::Failed("down".to_string()));
    assert_eq!(last, 4);
}

#[test]
fn a_stable_connection_starts_the_backoff_again() {
    let (next, step) = after_attempt(
        4,
        Attempt::Served {
            lasted_secs: 120,
            reason: "gone".to_string(),
        },
    );
    assert_eq!(next, Next::Retry(TunnelStatus::Retrying("gone".to_string()), 1));
    assert_eq!(step, 1);
    let (next, step) = after_attempt(
        3,
        Attempt::Served {
            lasted_secs: 5,
            reason: "gone".to_string(),
        },
    );
    assert_eq!(next, Next::Retry(TunnelStatus::Retrying("gone".to_string()), 10));
    assert_eq!(step, 4);
}

#[test]
fn a_locked_key_waits_without_moving_the_backoff() {
    let (next, step) = after_attempt(
        3,
        Attempt::Locked {
            message: "locked".to_string(),
            path: "/k/id".to_string(),
        },
    );
    assert_eq!(
        next,
        Next::AwaitUnlock(TunnelStatus::Retrying("locked".to_string()), "/k/id".to_string())
    );
    assert_eq!(step, 3);
}

#[test]
fn a_timeout_says_how_long_it_waited() {
    let (next, step) = after_attempt(
        0,
        Attempt::TimedOut {
            hostname: "nas".to_string(),
            budget_secs: 50,
        },
    );
    assert_eq!(
        next,
        Next::Retry(
            TunnelStatus::Retrying("no answer from nas within 50s".to_string()),
            1
        )
    );
    assert_eq!(step, 1);
}

#[test]
fn a_host_without_forwards_cannot_start() {
    assert_eq!(
        precheck(&vec![]),
        Some(TunnelStatus::Failed(
            "no port forwards are set up for this host".to_string()
        ))
    );
    assert_eq!(precheck(&vec![rule(None, 1, "h", 2)]), None);
}

// --- syncing -----------------------------------------------------------

#[test]
fn an_edit_restarts_only_the_tunnel_it_touches() {
    let a = Host {
        local_forwards: vec![rule(None, 1, "h", 2)],
        ..plain("a", "10.0.0.1")
    };
    let b = Host {
        local_forwards: vec![rule(None, 3, "h", 4)],
        ..plain("b", "10.0.0.2")
    };
    let c = Host {
        local_forwards: vec![rule(None, 5, "h", 6)],
        ..plain("c", "10.0.0.3")
    };
    let runs = vec![
        Run { host: a.clone(), running: true },
        Run { host: b.clone(), running: true },
        Run { host: c.clone(), running: true },
        Run { host: a.clone(), running: false },
    ];
    let mut b2 = b.clone();
    b2.hostname = "10.0.0.22".to_string();
    let mut a2 = a.clone();
    a2.notes = Some("only a note".to_string());
    let hosts = vec![b2, a2];
    assert_eq!(
        sync_plan(&runs, &hosts),
        vec![
            SyncAction::Keep,
            SyncAction::Restart(0),
            SyncAction::Stop,
            SyncAction::Keep
        ]
    );
}

#[test]
fn only_marked_hosts_with_forwards_start_on_launch() {
    let mut with = plain("with", "h1");
    with.local_forwards = vec![rule(None, 1, "h", 2)];
    with.tunnel_autostart = true;
    let mut unmarked = with.clone();
    unmarked.tunnel_autostart = false;
    let mut empty = plain("empty", "h3");
    empty.tunnel_autostart = true;
    assert_eq!(autostart(&[unmarked, with.clone(), empty, with]), vec![1, 3]);
}

// --- failures -------------------------------------------------------------

#[test]
fn a_refused_login_ends_the_tunnel_and_a_locked_key_waits() {
    let refused = ConnectError::new(Cause::Refused(Refused("no".to_string())))
        .context("connect".to_string());
    match attempt_of_failure(&refused) {
        Attempt::Refused(m) => assert_eq!(m, "connect: no"),
        other => panic!("expected a refusal, got {other:?}"),
    }
    let locked = ConnectError::new(Cause::PassphraseRequired(PassphraseRequired::new("/k".to_string())));
    match attempt_of_failure(&locked) {
        Attempt::Locked { message, path } => {
            assert_eq!(message, "SSH key requires a passphrase: /k");
            assert_eq!(path, "/k");
        }
        other => panic!("expected a locked key, got {other:?}"),
    }
    let down = ConnectError::new(Cause::Other("connection reset".to_string()));
    assert!(matches!(attempt_of_failure(&down), Attempt::Failed(m) if m == "connection reset"));
}

#[test]
fn failures_name_the_port_and_the_rule() {
    assert_eq!(
        listen_failure("127.0.0.1", 8080, "address in use"),
        "cannot listen on 127.0.0.1:8080: address in use"
    );
    assert_eq!(
        open_failure("nas", &rule(None, 9443, "127.0.0.1", 9443), "refused"),
        "Tunnel to 'nas': 9443:127.0.0.1:9443 could not be opened: refused"
    );
}
