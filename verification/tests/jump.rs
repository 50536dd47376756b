use omnyssh::client::Host;
use omnyssh::jump::{parse_jump_spec, resolve_chain, JumpError, JumpSpec, MAX_HOPS};
use omnyssh::ssh_config::{parse_ssh_config, Account};

const ME: &str = "me";

fn host(name: &str, hostname: &str) -> Host {
    Host {
        name: name.to_string(),
        hostname: hostname.to_string(),
        user: "ops".to_string(),
        ..Host::default_for(ME.to_string())
    }
}

fn jumping(name: &str, hostname: &str, via: &str) -> Host {
    Host {
        proxy_jump: Some(via.to_string()),
        ..host(name, hostname)
    }
}

fn names(chain: &[Host]) -> Vec<&str> {
    chain.iter().map(|h| h.name.as_str()).collect()
}

fn chain(target: &Host, known: &[Host]) -> Result<Vec<Host>, JumpError> {
    resolve_chain(target, known, ME)
}

// --- spec parsing ------------------------------------------------------

#[test]
fn parses_a_bare_alias() {
    assert_eq!(
        parse_jump_spec("bastion").unwrap(),
        vec![JumpSpec {
            user: None,
            host: "bastion".into(),
            port: None
        }]
    );
}

#[test]
fn parses_user_host_and_port() {
    assert_eq!(
        parse_jump_spec("ops@jump.example.com:2222").unwrap(),
        vec![JumpSpec {
            user: Some("ops".into()),
            host: "jump.example.com".into(),
            port: Some(2222)
        }]
    );
}

#[test]
fn parses_a_multi_hop_value_in_order() {
    let hops = parse_jump_spec("first, ops@second:2222").unwrap();
    assert_eq!(hops.len(), 2);
    assert_eq!(hops[0].host, "first");
    assert_eq!(hops[1].host, "second");
    assert_eq!(hops[1].port, Some(2222));
}

#[test]
fn parses_ipv6_literals() {
    let bare = parse_jump_spec("2001:db8::1").unwrap();
    assert_eq!(bare[0].host, "2001:db8::1");
    assert_eq!(bare[0].port, None);

    let bracketed = parse_jump_spec("ops@[2001:db8::1]:2222").unwrap();
    assert_eq!(bracketed[0].host, "2001:db8::1");
    assert_eq!(bracketed[0].port, Some(2222));
    assert_eq!(bracketed[0].user.as_deref(), Some("ops"));

    assert_eq!(parse_jump_spec("[2001:db8::1]").unwrap()[0].port, None);
}

#[test]
fn rejects_unusable_hops() {
    for value in [
        "",
        " , ",
        "host:not-a-port",
        "host:",
        "host:70000",
        "host:0",
        "gw: 2222",
        "ops@",
        "[2001:db8::1]junk:22",
        "first,bad:port",
    ] {
        assert!(
            parse_jump_spec(value).is_err(),
            "expected '{value}' to be rejected"
        );
    }
}

// --- chain resolution --------------------------------------------------

#[test]
fn no_proxy_jump_means_no_chain() {
    let target = host("web", "10.0.0.1");
    assert!(chain(&target, &[]).unwrap().is_empty());
}

#[test]
fn proxy_jump_none_opts_out() {
    let target = jumping("web", "10.0.0.1", "none");
    assert!(chain(&target, &[]).unwrap().is_empty());
}

#[test]
fn a_malformed_value_fails_instead_of_connecting_direct() {
    let target = jumping("internal", "192.168.100.50", "public-proxy:22x");
    assert!(chain(&target, &[]).is_err());
}

#[test]
fn resolves_an_alias_against_the_known_hosts() {
    let known = vec![Host {
        port: 2222,
        identity_file: Some("/keys/proxy".into()),
        ..host("public-proxy", "proxy.example.com")
    }];
    let target = jumping("internal", "192.168.100.50", "public-proxy");

    let chain = chain(&target, &known).unwrap();
    assert_eq!(chain.len(), 1);
    assert_eq!(chain[0].hostname, "proxy.example.com");
    assert_eq!(chain[0].user, "ops");
    assert_eq!(chain[0].port, 2222);
    assert_eq!(chain[0].identity_file.as_deref(), Some("/keys/proxy"));
}

#[test]
fn resolves_a_chain_parsed_straight_from_an_ssh_config() {
    let cfg = "\
Host public-proxy
    HostName proxy.example.com
    User ops

Host internal
    HostName 192.168.100.50
    User admin
    ProxyJump public-proxy
";
    let account = Account {
        user: ME.to_string(),
        home: None,
    };
    let hosts = parse_ssh_config(cfg, &account);
    let target = hosts.iter().find(|h| h.name == "internal").unwrap();

    let chain = chain(target, &hosts).unwrap();
    assert_eq!(chain.len(), 1);
    assert_eq!(chain[0].name, "public-proxy");
    assert_eq!(chain[0].hostname, "proxy.example.com");
    assert_eq!(chain[0].user, "ops");
    assert_eq!(chain[0].port, 22);
}

#[test]
fn a_renamed_bastion_is_still_found_under_its_original_alias() {
    let known = vec![Host {
        original_ssh_host: Some("public-proxy".into()),
        ..host("Prod Bastion", "proxy.example.com")
    }];
    let target = jumping("internal", "10.0.0.2", "public-proxy");
    assert_eq!(
        chain(&target, &known).unwrap()[0].hostname,
        "proxy.example.com"
    );

    let known = vec![
        Host {
            original_ssh_host: Some("public-proxy".into()),
            ..host("Prod Bastion", "renamed.example.com")
        },
        host("public-proxy", "proxy.example.com"),
    ];
    assert_eq!(
        chain(&target, &known).unwrap()[0].hostname,
        "proxy.example.com"
    );
}

#[test]
fn unknown_alias_falls_back_to_a_literal_host() {
    let target = jumping("internal", "10.0.0.2", "jump.example.com");
    let chain = chain(&target, &[]).unwrap();
    assert_eq!(chain.len(), 1);
    assert_eq!(chain[0].hostname, "jump.example.com");
    assert_eq!(chain[0].port, 22);
}

#[test]
fn explicit_user_and_port_override_the_known_entry() {
    let known = vec![Host {
        port: 2222,
        ..host("public-proxy", "proxy.example.com")
    }];
    let target = jumping("internal", "10.0.0.2", "admin@public-proxy:2022");

    let chain = chain(&target, &known).unwrap();
    assert_eq!(chain[0].hostname, "proxy.example.com");
    assert_eq!(chain[0].user, "admin");
    assert_eq!(chain[0].port, 2022);
}

#[test]
fn a_hostname_less_entry_uses_its_alias_as_the_address() {
    let known = vec![Host {
        hostname: String::new(),
        ..host("public-proxy", "")
    }];
    let target = jumping("internal", "10.0.0.2", "public-proxy");
    assert_eq!(chain(&target, &known).unwrap()[0].hostname, "public-proxy");
}

#[test]
fn multi_hop_chains_keep_connection_order() {
    let known = vec![host("first", "10.0.0.1"), host("second", "10.0.0.2")];
    let target = jumping("internal", "10.0.0.3", "first,second");

    let chain = chain(&target, &known).unwrap();
    assert_eq!(names(&chain), ["first", "second"]);
}

#[test]
fn a_nested_jump_host_is_connected_first() {
    let known = vec![
        host("outer", "10.0.0.1"),
        jumping("inner", "10.0.0.2", "outer"),
    ];
    let target = jumping("internal", "10.0.0.3", "inner");

    let chain = chain(&target, &known).unwrap();
    assert_eq!(names(&chain), ["outer", "inner"]);
    assert!(chain.iter().all(|h| h.proxy_jump.is_none()));
}

#[test]
fn only_the_first_hop_of_a_list_expands_its_own_bastion() {
    let known = vec![
        host("edge", "10.0.0.1"),
        host("first", "10.0.0.2"),
        jumping("second", "10.0.0.3", "edge"),
    ];
    let target = jumping("internal", "10.0.0.4", "first,second");
    assert_eq!(names(&chain(&target, &known).unwrap()), ["first", "second"]);

    let target = jumping("internal", "10.0.0.4", "second,first");
    assert_eq!(
        names(&chain(&target, &known).unwrap()),
        ["edge", "second", "first"]
    );
}

#[test]
fn a_bastion_named_twice_is_not_a_cycle() {
    let known = vec![
        host("edge", "10.0.0.1"),
        jumping("inner", "10.0.0.2", "edge"),
    ];

    let target = jumping("internal", "10.0.0.3", "inner,edge");
    assert_eq!(
        names(&chain(&target, &known).unwrap()),
        ["edge", "inner", "edge"]
    );

    let target = jumping("internal", "10.0.0.3", "edge,inner");
    assert_eq!(names(&chain(&target, &known).unwrap()), ["edge", "inner"]);
}

#[test]
fn a_self_referencing_jump_is_rejected() {
    let known = vec![jumping("loop", "10.0.0.1", "loop")];
    let target = jumping("internal", "10.0.0.2", "loop");
    let err = chain(&target, &known).unwrap_err().message();
    assert!(err.contains("cycle"), "unexpected error: {err}");
}

#[test]
fn two_aliases_for_one_bastion_are_rejected() {
    let known = vec![
        jumping("proxy-a", "10.0.0.1", "proxy-b"),
        host("proxy-b", "10.0.0.1"),
    ];
    let target = jumping("internal", "10.0.0.2", "proxy-a");
    assert!(chain(&target, &known).is_err());
}

#[test]
fn a_jump_back_to_the_target_is_rejected() {
    let known = vec![jumping("bastion", "10.0.0.1", "internal")];
    let target = jumping("internal", "10.0.0.2", "bastion");
    assert!(chain(&target, &known).is_err());
}

#[test]
fn the_hop_limit_is_the_boundary_it_claims() {
    let chain_of = |count: usize| {
        let hops: Vec<String> = (0..count).map(|i| format!("h{i}")).collect();
        let known: Vec<Host> = hops
            .iter()
            .enumerate()
            .map(|(i, name)| host(name, &format!("10.0.0.{i}")))
            .collect();
        let target = jumping("internal", "10.1.0.1", &hops.join(","));
        chain(&target, &known)
    };

    assert_eq!(chain_of(MAX_HOPS).unwrap().len(), MAX_HOPS);
    assert!(chain_of(MAX_HOPS + 1).is_err());
}

#[test]
fn a_deeply_nested_chain_is_rejected_before_it_recurses_away() {
    let known: Vec<Host> = (0..MAX_HOPS * 4)
        .map(|i| {
            jumping(
                &format!("h{i}"),
                &format!("10.0.0.{i}"),
                &format!("h{}", i + 1),
            )
        })
        .collect();
    let target = jumping("internal", "10.1.0.1", "h0");

    let err = chain(&target, &known).unwrap_err().message();
    assert!(err.contains("nested deeper"), "unexpected error: {err}");
}

// --- more cases --------------------------------------------------------------

#[test]
fn an_unknown_hop_logs_in_as_the_local_account() {
    let target = jumping("internal", "10.0.0.2", "jump.example.com");
    assert_eq!(chain(&target, &[]).unwrap()[0].user, ME);
}

#[test]
fn a_cycle_names_the_host_it_came_back_to() {
    let known = vec![jumping("loop", "10.0.0.1", "loop")];
    let target = jumping("internal", "10.0.0.2", "loop");
    assert_eq!(
        chain(&target, &known).unwrap_err(),
        JumpError::Cycle(String::from("loop"))
    );
}

#[test]
fn parse_errors_say_which_hop() {
    assert_eq!(
        parse_jump_spec("host:0").unwrap_err(),
        "unusable ProxyJump hop 'host:0': '0' is not a valid port"
    );
    assert_eq!(parse_jump_spec(" , ").unwrap_err(), "empty ProxyJump hop");
    assert_eq!(
        parse_jump_spec("ops@").unwrap_err(),
        "ProxyJump hop 'ops@' has no host"
    );
    assert_eq!(
        parse_jump_spec("[::1]junk:22").unwrap_err(),
        "unusable ProxyJump hop '[::1]junk:22': trailing 'junk:22' after ']'"
    );
}
