//! The end of an automatic SSH key setup: what it reports, and what it writes
//! back onto the host.

use vstd::prelude::*;
use crate::client::{host_views, Host, HostView};
use crate::jump::{find_host, first_host_where, named};

verus! {

/// How a key setup ended.
#[derive(Debug, Clone, Copy, PartialEq, Eq, Structural)]
pub enum SetupEnd {
    /// The key is in place and password login was turned off.
    Success,
    /// The key is in place and works, but password login stays (no sudo).
    PartialSuccess,
    /// It failed and was undone.
    RolledBack,
    /// Any other ending.
    Failed,
}

/// What a finished key setup reports: exactly one of these.
#[derive(Debug, Clone, PartialEq, Eq)]
pub enum KeySetupReport {
    /// The key works; whether password login was turned off with it.
    Complete { password_disabled: bool },
    /// Undone, and why.
    Rollback(String),
    Failed(String),
}

/// The report for a setup that ended as `end` with `message`, or that could
/// not run (`Err`, with its message). A key in place is complete either way;
/// only a full success turned password login off.
pub fn key_setup_report(outcome: Result<(SetupEnd, Option<String>), String>) -> (r: KeySetupReport)
    ensures
        match outcome {
            Ok((end, message)) => match end {
                SetupEnd::Success => r == KeySetupReport::Complete { password_disabled: true },
                SetupEnd::PartialSuccess => r == KeySetupReport::Complete { password_disabled: false },
                SetupEnd::RolledBack => r matches KeySetupReport::Rollback(m) && m@ == match message {
                    Some(t) => t@,
                    None => "Rolled back."@,
                },
                SetupEnd::Failed => r matches KeySetupReport::Failed(m) && m@ == match message {
                    Some(t) => t@,
                    None => "Key setup failed."@,
                },
            },
            Err(e) => r matches KeySetupReport::Failed(m) && m@ == e@,
        },
{
    match outcome {
        Ok((end, message)) => match end {
            SetupEnd::Success => KeySetupReport::Complete { password_disabled: true },
            SetupEnd::PartialSuccess => KeySetupReport::Complete { password_disabled: false },
            SetupEnd::RolledBack => KeySetupReport::Rollback(
                match message {
                    Some(t) => t,
                    None => String::from_str("Rolled back."),
                },
            ),
            SetupEnd::Failed => KeySetupReport::Failed(
                match message {
                    Some(t) => t,
                    None => String::from_str("Key setup failed."),
                },
            ),
        },
        Err(e) => KeySetupReport::Failed(e),
    }
}

/// Why a key setup could not start: its connection failed.
pub fn connection_failed(error: &str) -> (m: String)
    ensures
        m@ == "Connection failed: "@ + error@,
{
    let mut m = String::from_str("Connection failed: ");
    m.append(error);
    m
}

/// The host after its key setup: the new key is its identity file, set up on
/// `date`; where password login was turned off, it is marked so and its
/// stored password dropped — the key supersedes it.
pub open spec fn with_key(h: HostView, key_path: Seq<char>, date: Seq<char>, password_disabled: bool) -> HostView {
    HostView {
        identity_file: Some(key_path),
        key_setup_date: Some(date),
        password_auth_disabled: if password_disabled {
            Some(true)
        } else {
            h.password_auth_disabled
        },
        password: if password_disabled {
            None
        } else {
            h.password
        },
        ..h
    }
}

/// Writes a finished key setup onto the first host named `name`, and says
/// whether there was one: an SSH-config host is not in the manual list, and
/// then nothing changes.
pub fn record_key(
    hosts: &mut Vec<Host>,
    name: &String,
    key_path: &str,
    date: &str,
    password_disabled: bool,
) -> (found: bool)
    ensures
        ({
            let i = first_host_where(host_views(old(hosts)@), named(name@));
            &&& found == (i >= 0)
            &&& host_views(final(hosts)@) == if i >= 0 {
                host_views(old(hosts)@).update(
                    i,
                    with_key(host_views(old(hosts)@)[i], key_path@, date@, password_disabled),
                )
            } else {
                host_views(old(hosts)@)
            }
        }),
{
    let ghost hv = host_views(hosts@);
    match find_host(hosts.as_slice(), name, false) {
        None => false,
        Some(i) => {
            let mut h = hosts[i].copy();
            assert(h@ == hv[i as int]);
            h.identity_file = Some(String::from_str(key_path));
            h.key_setup_date = Some(String::from_str(date));
            if password_disabled {
                h.password_auth_disabled = Some(true);
                h.password = None;
            }
            hosts[i] = h;
            assert(host_views(hosts@) =~= hv.update(i as int, with_key(hv[i as int], key_path@, date@, password_disabled)));
            true
        },
    }
}

} // verus!
