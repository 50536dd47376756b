use omnyssh::client::{Host, HostSource};
use omnyssh::ssh_config::{parse_ssh_config, resolve_include, Account, ConfigParser};
use omnyssh::tunnel::LocalForward;

fn account() -> Account {
    Account {
        user: String::from("me"),
        home: Some(String::from("/home/me")),
    }
}

fn parse(cfg: &str) -> Vec<Host> {
    parse_ssh_config(cfg, &account())
}

#[test]
fn test_empty_input() {
    assert!(parse("").is_empty());
    assert!(parse("   \n  \n").is_empty());
}

#[test]
fn test_comments_only() {
    let cfg = "# This is a comment\n# Another comment\n";
    assert!(parse(cfg).is_empty());
}

#[test]
fn test_minimal_config() {
    let cfg = "\
Host myserver
    HostName 192.168.1.100
";
    let hosts = parse(cfg);
    assert_eq!(hosts.len(), 1);
    assert_eq!(hosts[0].name, "myserver");
    assert_eq!(hosts[0].hostname, "192.168.1.100");
    // The login defaults to the local account's.
    assert_eq!(hosts[0].user, account().user);
    assert_eq!(hosts[0].port, 22); // default
}

#[test]
fn test_hostname_fallback_to_name() {
    let cfg = "\
Host myalias
    User admin
";
    let hosts = parse(cfg);
    assert_eq!(hosts.len(), 1);
    assert_eq!(hosts[0].hostname, "myalias");
}

#[test]
fn test_full_config_all_fields() {
    let cfg = "\
Host web-prod-1
    HostName 192.168.1.10
    User deploy
    Port 2222
    IdentityFile ~/.ssh/id_ed25519
    ProxyJump bastion
";
    let hosts = parse(cfg);
    assert_eq!(hosts.len(), 1);
    let h = &hosts[0];
    assert_eq!(h.name, "web-prod-1");
    assert_eq!(h.hostname, "192.168.1.10");
    assert_eq!(h.user, "deploy");
    assert_eq!(h.port, 2222);
    assert!(h
        .identity_file
        .as_deref()
        .unwrap_or("")
        .contains("id_ed25519"));
    assert_eq!(h.proxy_jump.as_deref(), Some("bastion"));
}

#[test]
fn test_multiple_hosts() {
    let cfg = "\
Host web
    HostName 10.0.0.1
    User ubuntu

Host db
    HostName 10.0.0.2
    User postgres
    Port 5432
";
    let hosts = parse(cfg);
    assert_eq!(hosts.len(), 2);
    assert_eq!(hosts[0].name, "web");
    assert_eq!(hosts[1].name, "db");
    assert_eq!(hosts[1].port, 5432);
}

#[test]
fn test_wildcard_host_ignored() {
    let cfg = "\
Host *
    User ubuntu
    ServerAliveInterval 60

Host realhost
    HostName 10.0.0.1
";
    let hosts = parse(cfg);
    assert_eq!(hosts.len(), 1);
    assert_eq!(hosts[0].name, "realhost");
}

#[test]
fn test_proxy_jump() {
    let cfg = "\
Host bastion
    HostName jump.example.com
    User ops

Host internal
    HostName 192.168.100.50
    User admin
    ProxyJump bastion
";
    let hosts = parse(cfg);
    assert_eq!(hosts.len(), 2);
    let internal = hosts.iter().find(|h| h.name == "internal").unwrap();
    assert_eq!(internal.proxy_jump.as_deref(), Some("bastion"));
}

#[test]
fn test_nonstandard_port() {
    let cfg = "Host custom\n    HostName 1.2.3.4\n    Port 22022\n";
    let hosts = parse(cfg);
    assert_eq!(hosts[0].port, 22022);
}

#[test]
fn test_case_insensitive_keywords() {
    let cfg = "\
host server1
    hostname 10.0.0.1
    user admin
    port 2222
";
    let hosts = parse(cfg);
    assert_eq!(hosts.len(), 1);
    assert_eq!(hosts[0].hostname, "10.0.0.1");
    assert_eq!(hosts[0].user, "admin");
    assert_eq!(hosts[0].port, 2222);
}

#[test]
fn test_inline_comment() {
    let cfg = "Host srv # this is a comment\n    HostName 1.2.3.4\n";
    let hosts = parse(cfg);
    assert_eq!(hosts.len(), 1);
    assert_eq!(hosts[0].name, "srv");
}

#[test]
fn test_source_is_ssh_config() {
    let cfg = "Host test\n    HostName 1.2.3.4\n";
    let hosts = parse(cfg);
    assert_eq!(hosts[0].source, HostSource::SshConfig);
}

#[test]
fn test_local_forwards() {
    let cfg = "\
Host nas
    HostName 10.0.0.5
    LocalForward 9443 127.0.0.1:9443
    LocalForward localhost:5432 db.internal:5432
    LocalForward [::1]:8080 [fe80::1]:80
";
    let hosts = parse(cfg);
    let specs: Vec<String> = hosts[0]
        .local_forwards
        .iter()
        .map(LocalForward::to_string)
        .collect();
    assert_eq!(
        specs,
        [
            "9443:127.0.0.1:9443",
            "localhost:5432:db.internal:5432",
            "[::1]:8080:[fe80::1]:80",
        ]
    );
}

#[test]
fn test_unusable_local_forward_skipped() {
    let cfg = "\
Host nas
    LocalForward /tmp/local.sock /run/remote.sock
    LocalForward 9443
    LocalForward 99999 localhost:80
    LocalForward 3000 localhost:3000
";
    let hosts = parse(cfg);
    assert_eq!(hosts.len(), 1);
    assert_eq!(hosts[0].local_forwards.len(), 1);
    assert_eq!(
        hosts[0].local_forwards[0].to_string(),
        "3000:localhost:3000"
    );
}

#[test]
fn test_match_block_not_attached_to_previous_host() {
    let cfg = "\
Host web
    HostName 10.0.0.1

Match host db*
    User postgres
    LocalForward 0.0.0.0:3306 db:3306

Host api
    HostName 10.0.0.2
";
    let hosts = parse(cfg);
    assert_eq!(hosts.len(), 2);
    assert!(hosts[0].local_forwards.is_empty());
    assert_ne!(hosts[0].user, "postgres");
    assert_eq!(hosts[1].name, "api");
    assert_eq!(hosts[1].hostname, "10.0.0.2");
}

#[test]
fn test_wildcard_local_forward_ignored() {
    let cfg = "\
Host *
    LocalForward 8080 localhost:80

Host web
    HostName 10.0.0.1
";
    let hosts = parse(cfg);
    assert!(hosts[0].local_forwards.is_empty());
}

#[test]
fn test_forward_agent() {
    let cfg = "\
Host bastion
    ForwardAgent yes
Host lab
    ForwardAgent True
Host web
    ForwardAgent no
Host plain
    HostName 10.0.0.1
";
    let hosts = parse(cfg);
    let forwarding: Vec<bool> = hosts.iter().map(|h| h.forward_agent).collect();
    assert_eq!(forwarding, [true, true, false, false]);
}

#[test]
fn test_forward_agent_first_value_wins() {
    let cfg = "\
Host web
    ForwardAgent no
    ForwardAgent yes
Host db
    ForwardAgent yes
";
    let hosts = parse(cfg);
    assert!(
        !hosts[0].forward_agent,
        "a later yes overrode an earlier no"
    );
    assert!(hosts[1].forward_agent, "the next block starts afresh");
}

#[test]
fn test_forward_agent_to_another_socket_skipped() {
    let cfg = "\
Host a
    ForwardAgent /run/user/1000/other.sock
Host b
    ForwardAgent $OTHER_SOCK
";
    let hosts = parse(cfg);
    assert!(hosts.iter().all(|h| !h.forward_agent));
}

#[test]
fn test_wildcard_forward_agent_ignored() {
    let cfg = "\
Host *
    ForwardAgent yes

Host web
    HostName 10.0.0.1
";
    let hosts = parse(cfg);
    assert!(!hosts[0].forward_agent);
}

#[test]
fn test_an_earlier_general_no_keeps_the_agent_home() {
    for general in [
        "ForwardAgent no\n",
        "Host *\n    ForwardAgent no\n",
        "Host *.internal\n    ForwardAgent no\n",
        "Match all\n    ForwardAgent no\n",
    ] {
        let cfg = format!("{general}Host web\n    ForwardAgent yes\n");
        let hosts = parse(&cfg);
        assert!(!hosts[0].forward_agent, "{general:?} did not win");
    }
}

#[test]
fn test_a_later_general_no_leaves_an_earlier_yes() {
    let cfg = "\
Host web
    ForwardAgent yes

Host *
    ForwardAgent no
";
    let hosts = parse(cfg);
    assert!(hosts[0].forward_agent);
}

#[test]
fn test_equals_separator() {
    let cfg = "Host=myhost\n    HostName=10.0.0.1\n    User=admin\n";
    let hosts = parse(cfg);
    assert_eq!(hosts.len(), 1);
    assert_eq!(hosts[0].hostname, "10.0.0.1");
    assert_eq!(hosts[0].user, "admin");
}

// --- more cases --------------------------------------------------------------

#[test]
fn a_tilde_identity_file_expands_under_the_home_directory() {
    let hosts = parse("Host k\n    IdentityFile ~/.ssh/id_ed25519\n");
    assert_eq!(
        hosts[0].identity_file.as_deref(),
        Some("/home/me/.ssh/id_ed25519")
    );
    let homeless = Account {
        user: String::from("me"),
        home: None,
    };
    let hosts = parse_ssh_config("Host k\n    IdentityFile ~/.ssh/id\n", &homeless);
    assert_eq!(hosts[0].identity_file.as_deref(), Some("~/.ssh/id"));
}

#[test]
fn an_include_in_a_host_block_lands_after_that_host() {
    let mut top = ConfigParser::new(&account());
    assert_eq!(top.feed_line("Host gate"), None);
    let patterns = top.feed_line("    Include conf.d/a.conf \"with space.conf\"");
    assert_eq!(
        patterns,
        Some(vec![
            String::from("conf.d/a.conf"),
            String::from("with space.conf")
        ])
    );
    let mut sub = top.for_include();
    assert_eq!(sub.depth(), 1);
    sub.feed_line("Host vps");
    sub.feed_line("    HostName 1.2.3.4");
    top.absorb(sub);
    top.feed_line("    HostName 10.0.0.9");
    let hosts = top.finish();
    let names: Vec<&str> = hosts.iter().map(|h| h.name.as_str()).collect();
    assert_eq!(names, ["gate", "vps"]);
    assert_eq!(hosts[0].hostname, "10.0.0.9");
}

#[test]
fn a_general_no_in_an_included_file_bars_later_hosts() {
    let mut top = ConfigParser::new(&account());
    top.feed_line("Include general.conf");
    let mut sub = top.for_include();
    sub.feed_line("ForwardAgent no");
    top.absorb(sub);
    top.feed_line("Host web");
    top.feed_line("    ForwardAgent yes");
    assert!(!top.finish()[0].forward_agent);
}

#[test]
fn include_nesting_stops_past_three_levels() {
    let top = ConfigParser::new(&account());
    let one = top.for_include();
    let two = one.for_include();
    let three = two.for_include();
    let mut four = three.for_include();
    assert_eq!(four.feed_line("Include more.conf"), None);
    four.feed_line("Host deep");
    assert!(four.finish().is_empty());
}

#[test]
fn include_patterns_resolve_against_the_base() {
    let home = Some(String::from("/home/me"));
    assert_eq!(
        resolve_include("conf.d/*.conf", Some("/home/me/.ssh"), &home).as_deref(),
        Some("/home/me/.ssh/conf.d/*.conf")
    );
    assert_eq!(
        resolve_include("/etc/ssh/x.conf", None, &home).as_deref(),
        Some("/etc/ssh/x.conf")
    );
    assert_eq!(
        resolve_include("~/cfg", None, &home).as_deref(),
        Some("/home/me/cfg")
    );
    assert_eq!(resolve_include("rel.conf", None, &home), None);
    // A base that looks like a pattern is escaped, and its trailing slash dropped.
    assert_eq!(
        resolve_include("x.conf", Some("/h/[w]*/"), &home).as_deref(),
        Some("/h/[[]w[]][*]/x.conf")
    );
}

#[test]
fn a_directive_applies_by_its_lowercased_keyword() {
    let mut p = ConfigParser::new(&account());
    let chars = |s: &str| s.chars().collect::<Vec<char>>();
    assert_eq!(p.apply_directive(&chars("host"), &chars("web")), None);
    assert_eq!(p.apply_directive(&chars("hostname"), &chars("10.0.0.1")), None);
    assert_eq!(p.apply_directive(&chars("user"), &chars("deploy")), None);
    assert_eq!(
        p.apply_directive(&chars("include"), &chars("a.conf \"b c.conf\"")),
        Some(vec!["a.conf".to_string(), "b c.conf".to_string()])
    );
    assert_eq!(p.apply_directive(&chars("port"), &chars("2222")), None);
    let hosts = p.finish();
    assert_eq!(hosts.len(), 1);
    assert_eq!(hosts[0].name, "web");
    assert_eq!(hosts[0].hostname, "10.0.0.1");
    assert_eq!(hosts[0].user, "deploy");
    assert_eq!(hosts[0].port, 2222);
}
