//! Host entries: where they come from, how they are watched, and what a
//! connection to one needs.

use vstd::prelude::*;

use crate::tunnel::{copy_opt_string, opt_chars, parse_forward, ForwardView, LocalForward};

verus! {

/// Indicates where a host entry originated.
#[derive(Debug, Clone, Copy, PartialEq, Eq, Structural)]
pub enum HostSource {
    /// Imported from `~/.ssh/config` at startup.
    SshConfig,
    /// Added manually through the TUI form.
    Manual,
}

impl Default for HostSource {
    fn default() -> (s: Self)
        ensures
            s == HostSource::Manual,
    {
        HostSource::Manual
    }
}

/// How a host is watched on the dashboard.
#[derive(Debug, Clone, Copy, PartialEq, Eq, Structural)]
pub enum MonitorMode {
    /// A live SSH session with shell metrics — the default.
    Ssh,
    /// A plain TCP connect, with no login. For devices that answer SSH but have
    /// no POSIX shell to collect metrics from, such as network appliances.
    TcpPort,
}

impl Default for MonitorMode {
    fn default() -> (m: Self)
        ensures
            m == MonitorMode::Ssh,
    {
        MonitorMode::Ssh
    }
}

impl MonitorMode {
    /// Whether this is the default mode, which `hosts.toml` leaves unwritten.
    pub fn is_ssh(&self) -> (b: bool)
        ensures
            b == (*self == MonitorMode::Ssh),
    {
        matches!(self, MonitorMode::Ssh)
    }
}

/// A single host entry used for SSH connections.
///
/// Populated either from `~/.ssh/config` (via the parser) or from
/// `~/.config/omnyssh/hosts.toml` (manual entries added through the TUI).
#[derive(Debug, Clone)]
pub struct Host {
    /// Display name / alias (e.g. `"web-prod-1"`).
    pub name: String,
    /// Hostname or IP address to connect to.
    pub hostname: String,
    /// SSH user.
    pub user: String,
    /// SSH port. Defaults to `22` when not specified.
    pub port: u16,
    /// Path to the private key file (e.g. `~/.ssh/id_ed25519`).
    pub identity_file: Option<String>,
    /// Password for password-based authentication.
    pub password: Option<String>,
    /// ProxyJump host alias (for bastion / jump-host setups).
    pub proxy_jump: Option<String>,
    /// Organisational tags (e.g. `["production", "web"]`).
    pub tags: Vec<String>,
    /// Free-text notes about this host.
    pub notes: Option<String>,
    /// Where this entry came from.
    pub source: HostSource,
    /// Original host name from `~/.ssh/config` if this host was renamed.
    pub original_ssh_host: Option<String>,
    /// How this host is watched.
    pub monitoring: MonitorMode,
    /// Port for the reachability probe. Falls back to `port` when unset.
    pub monitor_port: Option<u16>,
    /// Local port forwards (`ssh -L`) carried by this host's tunnel.
    pub local_forwards: Vec<LocalForward>,
    /// Start the tunnel when OmnySSH starts.
    pub tunnel_autostart: bool,
    /// Lend the local SSH agent to this host (`ForwardAgent yes`).
    pub forward_agent: bool,
    /// Date when an SSH key was configured by OmnySSH (ISO 8601).
    pub key_setup_date: Option<String>,
    /// Whether password authentication has been disabled on the server.
    pub password_auth_disabled: Option<bool>,
}

/// The plain value of a [`Host`].
pub struct HostView {
    pub name: Seq<char>,
    pub hostname: Seq<char>,
    pub user: Seq<char>,
    pub port: u16,
    pub identity_file: Option<Seq<char>>,
    pub password: Option<Seq<char>>,
    pub proxy_jump: Option<Seq<char>>,
    pub tags: Seq<Seq<char>>,
    pub notes: Option<Seq<char>>,
    pub source: HostSource,
    pub original_ssh_host: Option<Seq<char>>,
    pub monitoring: MonitorMode,
    pub monitor_port: Option<u16>,
    pub local_forwards: Seq<ForwardView>,
    pub tunnel_autostart: bool,
    pub forward_agent: bool,
    pub key_setup_date: Option<Seq<char>>,
    pub password_auth_disabled: Option<bool>,
}

/// The plain values of the hosts `s`.
pub open spec fn host_views(s: Seq<Host>) -> Seq<HostView> {
    s.map_values(|h: Host| h@)
}

pub open spec fn forward_views(s: Seq<LocalForward>) -> Seq<ForwardView> {
    s.map_values(|f: LocalForward| f@)
}

impl View for Host {
    type V = HostView;

    open spec fn view(&self) -> HostView {
        HostView {
            name: self.name@,
            hostname: self.hostname@,
            user: self.user@,
            port: self.port,
            identity_file: opt_chars(self.identity_file),
            password: opt_chars(self.password),
            proxy_jump: opt_chars(self.proxy_jump),
            tags: self.tags@.map_values(|t: String| t@),
            notes: opt_chars(self.notes),
            source: self.source,
            original_ssh_host: opt_chars(self.original_ssh_host),
            monitoring: self.monitoring,
            monitor_port: self.monitor_port,
            local_forwards: forward_views(self.local_forwards@),
            tunnel_autostart: self.tunnel_autostart,
            forward_agent: self.forward_agent,
            key_setup_date: opt_chars(self.key_setup_date),
            password_auth_disabled: self.password_auth_disabled,
        }
    }
}

/// The port SSH listens on unless told otherwise.
pub fn default_port() -> (p: u16)
    ensures
        p == 22,
{
    22
}

/// A host with nothing but a name and the defaults: `user` as the login, port
/// 22, no key, password, bastion, tags or forwards, no agent lent, watched
/// over SSH, and entered by hand.
pub open spec fn default_host(name: Seq<char>, user: Seq<char>) -> HostView {
    HostView {
        name,
        hostname: seq![],
        user,
        port: 22,
        identity_file: None,
        password: None,
        proxy_jump: None,
        tags: seq![],
        notes: None,
        source: HostSource::Manual,
        original_ssh_host: None,
        monitoring: MonitorMode::Ssh,
        monitor_port: None,
        local_forwards: seq![],
        tunnel_autostart: false,
        forward_agent: false,
        key_setup_date: None,
        password_auth_disabled: None,
    }
}

impl Host {
    /// The default host, logging in as `user` — the local account name
    /// (`$USER`, else `$LOGNAME`, else `root`), which the caller reads.
    pub fn default_for(user: String) -> (h: Host)
        ensures
            h@ == default_host(seq![], user@),
    {
        let h = Host {
            name: String::new(),
            hostname: String::new(),
            user,
            port: default_port(),
            identity_file: None,
            password: None,
            proxy_jump: None,
            tags: Vec::new(),
            notes: None,
            source: HostSource::Manual,
            original_ssh_host: None,
            monitoring: MonitorMode::Ssh,
            monitor_port: None,
            local_forwards: Vec::new(),
            tunnel_autostart: false,
            forward_agent: false,
            key_setup_date: None,
            password_auth_disabled: None,
        };
        assert(h@.tags =~= Seq::<Seq<char>>::empty());
        assert(h@.local_forwards =~= Seq::<ForwardView>::empty());
        h
    }

    /// A copy of the host.
    pub fn copy(&self) -> (r: Host)
        ensures
            r@ == self@,
    {
        let mut tags: Vec<String> = Vec::new();
        let mut i: usize = 0;
        while i < self.tags.len()
            invariant
                i <= self.tags@.len(),
                tags@.len() == i,
                forall|j: int| 0 <= j < i ==> (#[trigger] tags@[j])@ == self.tags@[j]@,
            decreases self.tags.len() - i,
        {
            tags.push(self.tags[i].clone());
            i = i + 1;
        }
        let mut forwards: Vec<LocalForward> = Vec::new();
        let mut k: usize = 0;
        while k < self.local_forwards.len()
            invariant
                k <= self.local_forwards@.len(),
                forwards@.len() == k,
                forall|j: int| 0 <= j < k ==> (#[trigger] forwards@[j])@ == self.local_forwards@[j]@,
            decreases self.local_forwards.len() - k,
        {
            forwards.push(self.local_forwards[k].copy());
            k = k + 1;
        }
        let r = Host {
            name: self.name.clone(),
            hostname: self.hostname.clone(),
            user: self.user.clone(),
            port: self.port,
            identity_file: copy_opt_string(&self.identity_file),
            password: copy_opt_string(&self.password),
            proxy_jump: copy_opt_string(&self.proxy_jump),
            tags,
            notes: copy_opt_string(&self.notes),
            source: self.source,
            original_ssh_host: copy_opt_string(&self.original_ssh_host),
            monitoring: self.monitoring,
            monitor_port: self.monitor_port,
            local_forwards: forwards,
            tunnel_autostart: self.tunnel_autostart,
            forward_agent: self.forward_agent,
            key_setup_date: copy_opt_string(&self.key_setup_date),
            password_auth_disabled: self.password_auth_disabled,
        };
        assert(r@.tags =~= self@.tags);
        assert(r@.local_forwards =~= self@.local_forwards);
        r
    }
}

/// The rules among `specs` that parse, in order; the others are dropped.
pub open spec fn readable(specs: Seq<Seq<char>>) -> Seq<ForwardView>
    decreases specs.len(),
{
    if specs.len() == 0 {
        seq![]
    } else {
        let before = readable(specs.drop_last());
        match parse_forward(specs.last()) {
            Ok(f) => before.push(f),
            Err(_) => before,
        }
    }
}

/// Reads the forwards one by one, dropping an unreadable rule: failing it
/// would fail the whole file, and every manual host with it.
pub fn readable_forwards(specs: Vec<String>) -> (r: Vec<LocalForward>)
    ensures
        forward_views(r@) == readable(specs@.map_values(|s: String| s@)),
{
    let ghost all = specs@.map_values(|s: String| s@);
    let mut r: Vec<LocalForward> = Vec::new();
    let mut i: usize = 0;
    while i < specs.len()
        invariant
            i <= specs@.len(),
            all == specs@.map_values(|s: String| s@),
            forward_views(r@) == readable(all.subrange(0, i as int)),
        decreases specs.len() - i,
    {
        assert(all.subrange(0, i + 1).drop_last() =~= all.subrange(0, i as int));
        assert(all.subrange(0, i + 1).last() == specs@[i as int]@);
        match LocalForward::parse(specs[i].as_str()) {
            Ok(f) => {
                let ghost before = forward_views(r@);
                r.push(f);
                assert(forward_views(r@) =~= before.push(f@));
            },
            Err(_) => {},
        }
        i = i + 1;
    }
    assert(all.subrange(0, specs@.len() as int) =~= all);
    r
}

/// Runtime connection status for a host. Never serialised to disk.
#[derive(Debug, Clone, PartialEq)]
pub enum ConnectionStatus {
    /// No connection attempt has been made yet.
    Unknown,
    /// A connection attempt is currently in progress.
    Connecting,
    /// The host is connected.
    Connected,
    /// The last connection attempt failed with the given message.
    Failed(String),
}

impl Default for ConnectionStatus {
    fn default() -> (s: Self)
        ensures
            s == ConnectionStatus::Unknown,
    {
        ConnectionStatus::Unknown
    }
}

} // verus!
