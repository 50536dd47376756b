//! The values that cross to the desktop frontend: hosts as it sees them,
//! command errors, and the events it is sent. Secrets — passwords, key
//! material — never appear here.

use vstd::prelude::*;
use crate::client::HostSource;

verus! {

/// Where a host entry came from, as the frontend sees it.
#[derive(Debug, Clone, Copy, PartialEq, Eq, Structural)]
pub enum HostSourceDto {
    SshConfig,
    Manual,
}

impl HostSourceDto {
    /// The frontend's name for where a host came from.
    pub fn from_source(source: HostSource) -> (d: HostSourceDto)
        ensures
            d == match source {
                HostSource::SshConfig => HostSourceDto::SshConfig,
                HostSource::Manual => HostSourceDto::Manual,
            },
    {
        match source {
            HostSource::SshConfig => HostSourceDto::SshConfig,
            HostSource::Manual => HostSourceDto::Manual,
        }
    }
}

/// A host as the frontend sees it: no password, no key material.
#[derive(Debug, Clone, PartialEq, Eq)]
pub struct HostDto {
    pub name: String,
    pub hostname: String,
    pub user: String,
    pub port: u16,
    pub tags: Vec<String>,
    pub notes: Option<String>,
    pub source: HostSourceDto,
    pub has_key: bool,
    pub password_auth_disabled: Option<bool>,
}

/// A failed command, as the frontend shows it.
#[derive(Debug, Clone, PartialEq, Eq)]
pub struct CommandError {
    pub message: String,
}

/// The full host list, broadcast after a reload.
#[derive(Debug, Clone, PartialEq, Eq)]
pub struct HostsLoaded(pub Vec<HostDto>);

/// Service discovery failed for a host.
#[derive(Debug, Clone, PartialEq, Eq)]
pub struct ServicesFailed {
    pub host_name: String,
    pub message: String,
}

/// The result of running a snippet on one host: stdout on success, the error
/// message on failure.
#[derive(Debug, Clone, PartialEq, Eq)]
pub struct SnippetResult {
    pub host_name: String,
    pub snippet_name: String,
    pub ok: bool,
    pub output: String,
}

/// A terminal session's remote shell exited or its connection dropped. A
/// close the user asked for never sends it.
#[derive(Debug, Clone, Copy, PartialEq, Eq, Structural)]
pub struct TerminalExited {
    pub session_id: u64,
}

/// A background error surfaced to the user.
#[derive(Debug, Clone, PartialEq, Eq)]
pub struct Error {
    pub message: String,
}

impl SnippetResult {
    /// The event for one host's run of a snippet: its output, or the error
    /// message in its place.
    pub fn of_run(host_name: String, snippet_name: String, run: Result<String, String>) -> (e: SnippetResult)
        ensures
            e.host_name@ == host_name@,
            e.snippet_name@ == snippet_name@,
            e.ok == run is Ok,
            e.output@ == match run {
                Ok(out) => out@,
                Err(m) => m@,
            },
    {
        match run {
            Ok(output) => SnippetResult { host_name, snippet_name, ok: true, output },
            Err(output) => SnippetResult { host_name, snippet_name, ok: false, output },
        }
    }
}

} // verus!
