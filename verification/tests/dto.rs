use omnyssh::client::HostSource;
use omnyssh::dto::{HostSourceDto, SnippetResult};

#[test]
fn the_frontend_sees_where_a_host_came_from() {
    assert_eq!(HostSourceDto::from_source(HostSource::SshConfig), HostSourceDto::SshConfig);
    assert_eq!(HostSourceDto::from_source(HostSource::Manual), HostSourceDto::Manual);
}

#[test]
fn a_failed_run_reports_its_error_as_the_output() {
    let ok = SnippetResult::of_run("web".to_string(), "uptime".to_string(), Ok("up 3 days".to_string()));
    assert!(ok.ok);
    assert_eq!(ok.output, "up 3 days");
    let failed = SnippetResult::of_run(
        "db".to_string(),
        "uptime".to_string(),
        Err("Connect failed: timed out".to_string()),
    );
    assert!(!failed.ok);
    assert_eq!(failed.host_name, "db");
    assert_eq!(failed.output, "Connect failed: timed out");
}
