//! Local port forwarding rules (`ssh -L` / `LocalForward`) and the decisions
//! that keep a host's tunnel running.

use vstd::prelude::*;
use crate::client::{host_views, Host, HostView};
use crate::jump::{first_host_where, named};
use crate::session::{
    chain_text, is_refused, locked_path, passphrase_required, refused, ConnectError,
};
use crate::text::{
    is_ws, lemma_decimal_digits, lemma_parse_decimal, trim_end, trim_start, char_views,
    chars_between, chars_of, decimal, has_char, parse_u16, parse_u16_chars, push_chars,
    push_decimal, string_of, trim, trimmed,
};

verus! {

/// One `ssh -L` rule: `[bind_address:]port:host:hostport`.
///
/// Stored in `hosts.toml` in that same notation.
#[derive(Debug, Clone, PartialEq, Eq)]
pub struct LocalForward {
    /// Local address to listen on. `None` and `localhost` mean the loopback
    /// only, as with ssh; `*` or an empty address mean every interface.
    pub bind_address: Option<String>,
    /// Local port to listen on.
    pub bind_port: u16,
    /// Where the server connects to, resolved on the server's side.
    pub remote_host: String,
    /// The port the server connects to.
    pub remote_port: u16,
}

/// The plain value of a [`LocalForward`].
pub struct ForwardView {
    pub bind_address: Option<Seq<char>>,
    pub bind_port: u16,
    pub remote_host: Seq<char>,
    pub remote_port: u16,
}

pub open spec fn opt_chars(o: Option<String>) -> Option<Seq<char>> {
    match o {
        Some(s) => Some(s@),
        None => None,
    }
}

impl View for LocalForward {
    type V = ForwardView;

    open spec fn view(&self) -> ForwardView {
        ForwardView {
            bind_address: opt_chars(self.bind_address),
            bind_port: self.bind_port,
            remote_host: self.remote_host@,
            remote_port: self.remote_port,
        }
    }
}

/// A copy of `o`.
pub fn copy_opt_string(o: &Option<String>) -> (r: Option<String>)
    ensures
        opt_chars(r) == opt_chars(*o),
{
    match o {
        Some(s) => Some(s.clone()),
        None => None,
    }
}

// ---------------------------------------------------------------------------
// The notation
// ---------------------------------------------------------------------------

/// Splits `s` on the colons outside `[...]`: the fields so far are `acc`, the
/// field being read is `cur`, and `open` says a bracket is open. `None` when a
/// bracket is left open at the end.
pub open spec fn fields_from(s: Seq<char>, cur: Seq<char>, open: bool, acc: Seq<Seq<char>>) -> Option<Seq<Seq<char>>>
    decreases s.len(),
{
    if s.len() == 0 {
        if open {
            None
        } else {
            Some(acc.push(cur))
        }
    } else {
        let c = s[0];
        let rest = s.drop_first();
        if c == '[' {
            fields_from(rest, cur.push(c), true, acc)
        } else if c == ']' {
            fields_from(rest, cur.push(c), false, acc)
        } else if c == ':' && !open {
            fields_from(rest, seq![], false, acc.push(cur))
        } else {
            fields_from(rest, cur.push(c), open, acc)
        }
    }
}

/// A field with its surrounding brackets removed, when it has both.
pub open spec fn unbracket(f: Seq<char>) -> Seq<char> {
    if f.len() >= 2 && f[0] == '[' && f.last() == ']' {
        f.subrange(1, f.len() - 1)
    } else {
        f
    }
}

/// The colon-separated fields of `s`, a bracketed IPv6 address unwrapped;
/// `None` when a bracket is left open.
pub open spec fn split_fields(s: Seq<char>) -> Option<Seq<Seq<char>>> {
    match fields_from(s, seq![], false, seq![]) {
        Some(raw) => Some(raw.map_values(|f: Seq<char>| unbracket(f))),
        None => None,
    }
}

/// The rule's notation as written for `s`, for error messages.
pub open spec fn usage_message(spec: Seq<char>) -> Seq<char> {
    "expected [bind_address:]port:host:hostport, got '"@ + spec + "'"@
}

pub open spec fn port_message(value: Seq<char>, spec: Seq<char>) -> Seq<char> {
    "'"@ + value + "' is not a port between 1 and 65535 in '"@ + spec + "'"@
}

/// A port in the notation: a number from 1 to 65535.
pub open spec fn forward_port(value: Seq<char>) -> Option<u16> {
    match parse_u16(value) {
        Some(p) if p != 0 => Some(p),
        _ => None,
    }
}

/// What parsing the notation `text` gives, as `LocalForward::from_str`: the
/// rule, or the message saying why it is not one.
pub open spec fn parse_forward(text: Seq<char>) -> Result<ForwardView, Seq<char>> {
    let spec = trim(text);
    match split_fields(spec) {
        None => Err(usage_message(spec)),
        Some(f) => {
            if f.len() != 3 && f.len() != 4 {
                Err(usage_message(spec))
            } else {
                let bind = if f.len() == 4 { Some(f[0]) } else { None };
                let k: int = if f.len() == 4 { 1 } else { 0 };
                if f[k + 1].len() == 0 {
                    Err(usage_message(spec))
                } else {
                    match forward_port(f[k]) {
                        None => Err(port_message(f[k], spec)),
                        Some(bp) => match forward_port(f[k + 2]) {
                            None => Err(port_message(f[k + 2], spec)),
                            Some(rp) => Ok(
                                ForwardView {
                                    bind_address: bind,
                                    bind_port: bp,
                                    remote_host: f[k + 1],
                                    remote_port: rp,
                                },
                            ),
                        },
                    }
                }
            }
        },
    }
}

/// An address as the notation carries it: an IPv6 address in brackets.
pub open spec fn bracketed(a: Seq<char>) -> Seq<char> {
    if a.contains(':') {
        seq!['['] + a + seq![']']
    } else {
        a
    }
}

/// The notation of a rule, as `LocalForward`'s `Display` writes it.
pub open spec fn forward_notation(f: ForwardView) -> Seq<char> {
    let bind = match f.bind_address {
        Some(b) => bracketed(b) + seq![':'],
        None => seq![],
    };
    bind + decimal(f.bind_port as nat) + seq![':'] + bracketed(f.remote_host) + seq![':']
        + decimal(f.remote_port as nat)
}

/// The raw colon-separated fields of `v`; `None` when a bracket is left open.
fn raw_fields(v: &[char]) -> (r: Option<Vec<Vec<char>>>)
    ensures
        match r {
            Some(f) => fields_from(v@, seq![], false, seq![]) == Some(char_views(f@)),
            None => fields_from(v@, seq![], false, seq![]) is None,
        },
{
    let n = v.len();
    let mut acc: Vec<Vec<char>> = Vec::new();
    let mut cur: Vec<char> = Vec::new();
    let mut open = false;
    let mut i: usize = 0;
    assert(v@.subrange(0, n as int) =~= v@);
    assert(char_views(acc@) =~= Seq::<Seq<char>>::empty());
    while i < n
        invariant
            i <= n == v@.len(),
            fields_from(v@, seq![], false, seq![]) == fields_from(
                v@.subrange(i as int, n as int),
                cur@,
                open,
                char_views(acc@),
            ),
        decreases n - i,
    {
        let c = v[i];
        let ghost rest = v@.subrange(i as int, n as int);
        assert(rest.drop_first() =~= v@.subrange(i + 1, n as int));
        assert(rest[0] == c);
        if c == '[' {
            cur.push(c);
            open = true;
        } else if c == ']' {
            cur.push(c);
            open = false;
        } else if c == ':' && !open {
            let ghost before = char_views(acc@);
            acc.push(cur);
            assert(char_views(acc@) =~= before.push(cur@));
            cur = Vec::new();
            assert(cur@ =~= Seq::<char>::empty());
            open = false;
        } else {
            cur.push(c);
        }
        i = i + 1;
    }
    assert(v@.subrange(n as int, n as int) =~= Seq::<char>::empty());
    if open {
        None
    } else {
        let ghost before = char_views(acc@);
        acc.push(cur);
        assert(char_views(acc@) =~= before.push(cur@));
        Some(acc)
    }
}

/// `f` without the brackets around it.
fn unbracketed(f: &[char]) -> (r: Vec<char>)
    ensures
        r@ == unbracket(f@),
{
    let n = f.len();
    if n >= 2 && f[0] == '[' && f[n - 1] == ']' {
        chars_between(f, 1, n - 1)
    } else {
        chars_between(f, 0, n)
    }
}

/// The colon-separated fields of `v`, brackets unwrapped.
pub fn split_fields_of(v: &[char]) -> (r: Option<Vec<Vec<char>>>)
    ensures
        match r {
            Some(f) => split_fields(v@) == Some(char_views(f@)),
            None => split_fields(v@) is None,
        },
{
    match raw_fields(v) {
        None => None,
        Some(raw) => {
            let mut out: Vec<Vec<char>> = Vec::new();
            let mut i: usize = 0;
            while i < raw.len()
                invariant
                    i <= raw@.len(),
                    out@.len() == i,
                    forall|j: int| 0 <= j < i ==> (#[trigger] out@[j])@ == unbracket(raw@[j]@),
                decreases raw.len() - i,
            {
                let u = unbracketed(raw[i].as_slice());
                out.push(u);
                i = i + 1;
            }
            assert(char_views(out@) =~= char_views(raw@).map_values(|f: Seq<char>| unbracket(f)));
            Some(out)
        },
    }
}

/// Parses a port of the notation.
fn forward_port_of(v: &[char]) -> (r: Option<u16>)
    ensures
        r == forward_port(v@),
{
    match parse_u16_chars(v) {
        Some(p) if p != 0 => Some(p),
        _ => None,
    }
}

/// `String` holding the characters of `v`.
pub fn string_from(v: &[char]) -> (s: String)
    ensures
        s@ == v@,
{
    let s = string_of(v, 0, v.len());
    assert(v@.subrange(0, v@.len() as int) =~= v@);
    s
}

fn usage_of(spec: &[char]) -> (m: String)
    ensures
        m@ == usage_message(spec@),
{
    let mut m = String::from_str("expected [bind_address:]port:host:hostport, got '");
    push_chars(&mut m, spec);
    m.append("'");
    m
}

fn port_message_of(value: &[char], spec: &[char]) -> (m: String)
    ensures
        m@ == port_message(value@, spec@),
{
    let mut m = String::from_str("'");
    push_chars(&mut m, value);
    m.append("' is not a port between 1 and 65535 in '");
    push_chars(&mut m, spec);
    m.append("'");
    m
}

impl LocalForward {
    /// Parses the `ssh -L` notation `[bind_address:]port:host:hostport`; a
    /// bracketed IPv6 address is unwrapped. Surrounding white space is ignored.
    pub fn parse(text: &str) -> (r: Result<LocalForward, String>)
        ensures
            match (r, parse_forward(text@)) {
                (Ok(f), Ok(v)) => f@ == v,
                (Err(m), Err(w)) => m@ == w,
                _ => false,
            },
    {
        let all = chars_of(text);
        LocalForward::parse_chars(all.as_slice())
    }

    /// [`LocalForward::parse`] on the characters `v`.
    pub fn parse_chars(v: &[char]) -> (r: Result<LocalForward, String>)
        ensures
            match (r, parse_forward(v@)) {
                (Ok(f), Ok(w)) => f@ == w,
                (Err(m), Err(w)) => m@ == w,
                _ => false,
            },
    {
        let spec = trimmed(v);
        let fields = match split_fields_of(spec.as_slice()) {
            None => return Err(usage_of(spec.as_slice())),
            Some(f) => f,
        };
        let ghost f = char_views(fields@);
        if fields.len() != 3 && fields.len() != 4 {
            return Err(usage_of(spec.as_slice()));
        }
        let k: usize = if fields.len() == 4 { 1 } else { 0 };
        assert(fields@[k as int]@ == f[k as int]);
        assert(fields@[k + 1]@ == f[k + 1]);
        assert(fields@[k + 2]@ == f[k + 2]);
        if fields[k + 1].len() == 0 {
            return Err(usage_of(spec.as_slice()));
        }
        let bind_port = match forward_port_of(fields[k].as_slice()) {
            None => return Err(port_message_of(fields[k].as_slice(), spec.as_slice())),
            Some(p) => p,
        };
        let remote_port = match forward_port_of(fields[k + 2].as_slice()) {
            None => return Err(port_message_of(fields[k + 2].as_slice(), spec.as_slice())),
            Some(p) => p,
        };
        let bind_address = if k == 1 {
            assert(fields@[0]@ == f[0]);
            Some(string_from(fields[0].as_slice()))
        } else {
            None
        };
        Ok(
            LocalForward {
                bind_address,
                bind_port,
                remote_host: string_from(fields[k + 1].as_slice()),
                remote_port,
            },
        )
    }

    /// The rule in the `ssh -L` notation, an IPv6 address in brackets; the
    /// form `hosts.toml` stores.
    pub fn to_string(&self) -> (s: String)
        ensures
            s@ == forward_notation(self@),
    {
        let mut s = String::new();
        match &self.bind_address {
            Some(b) => {
                push_bracketed(&mut s, b.as_str());
                s.push(':');
            },
            None => {},
        }
        push_decimal(&mut s, self.bind_port as u64);
        s.push(':');
        push_bracketed(&mut s, self.remote_host.as_str());
        s.push(':');
        push_decimal(&mut s, self.remote_port as u64);
        assert(s@ =~= forward_notation(self@));
        s
    }

    /// A copy of the rule.
    pub fn copy(&self) -> (r: LocalForward)
        ensures
            r@ == self@,
    {
        LocalForward {
            bind_address: copy_opt_string(&self.bind_address),
            bind_port: self.bind_port,
            remote_host: self.remote_host.clone(),
            remote_port: self.remote_port,
        }
    }

    /// Whether two rules are the same.
    pub fn same_as(&self, other: &LocalForward) -> (b: bool)
        ensures
            b == (self@ == other@),
    {
        let binds = match (&self.bind_address, &other.bind_address) {
            (Some(a), Some(b)) => a.eq(b),
            (None, None) => true,
            _ => false,
        };
        binds && self.bind_port == other.bind_port && self.remote_host.eq(&other.remote_host)
            && self.remote_port == other.remote_port
    }
}

/// Appends `a`, bracketed when it holds a colon.
fn push_bracketed(s: &mut String, a: &str)
    ensures
        final(s)@ == old(s)@ + bracketed(a@),
{
    let v = chars_of(a);
    if has_char(v.as_slice(), ':') {
        s.push('[');
        push_chars(s, v.as_slice());
        s.push(']');
        assert(final(s)@ =~= old(s)@ + bracketed(a@));
    } else {
        push_chars(s, v.as_slice());
    }
}


// ---------------------------------------------------------------------------
// Binding
// ---------------------------------------------------------------------------

/// The addresses a forward listens on.
#[derive(Debug, Clone, PartialEq, Eq)]
pub enum BindPlan {
    /// The loopback: IPv4, plus IPv6 where the system has it, as ssh does —
    /// for no bind address and for `localhost`.
    Loopback,
    /// Every IPv4 interface — for `*` and an empty address.
    Everywhere,
    /// The address given: an IP literal, else a name to look up.
    Named(String),
}

/// Which addresses the bind address `bind` stands for.
pub open spec fn bind_plan(bind: Option<Seq<char>>) -> BindPlanView {
    match bind {
        None => BindPlanView::Loopback,
        Some(a) => if a == "localhost"@ {
            BindPlanView::Loopback
        } else if a == seq!['*'] || a.len() == 0 {
            BindPlanView::Everywhere
        } else {
            BindPlanView::Named(a)
        },
    }
}

pub enum BindPlanView {
    Loopback,
    Everywhere,
    Named(Seq<char>),
}

impl View for BindPlan {
    type V = BindPlanView;

    open spec fn view(&self) -> BindPlanView {
        match self {
            BindPlan::Loopback => BindPlanView::Loopback,
            BindPlan::Everywhere => BindPlanView::Everywhere,
            BindPlan::Named(a) => BindPlanView::Named(a@),
        }
    }
}

impl LocalForward {
    /// The addresses this forward listens on.
    pub fn bind_plan(&self) -> (p: BindPlan)
        ensures
            p@ == bind_plan(self@.bind_address),
    {
        match &self.bind_address {
            None => BindPlan::Loopback,
            Some(a) => {
                let v = chars_of(a.as_str());
                if crate::text::same_chars(v.as_slice(), "localhost") {
                    BindPlan::Loopback
                } else if v.len() == 0 || (v.len() == 1 && v[0] == '*') {
                    proof {
                        if v.len() == 1 {
                            assert(v@ =~= seq!['*']);
                        }
                    }
                    BindPlan::Everywhere
                } else {
                    proof {
                        if v@ == seq!['*'] {
                            assert(v@.len() == 1);
                        }
                    }
                    BindPlan::Named(a.clone())
                }
            },
        }
    }
}

// ---------------------------------------------------------------------------
// Status and retries
// ---------------------------------------------------------------------------

/// Where a host's tunnel stands.
#[derive(Debug, Clone, PartialEq, Eq)]
pub enum TunnelStatus {
    /// Dialling the host: the first attempt, or the next one after a drop.
    Connecting,
    /// Connected, with every forward listening.
    Up,
    /// The connection failed or dropped; another attempt follows a backoff.
    /// The ports stay bound in the meantime.
    Retrying(String),
    /// Ended and will not retry: a port could not be bound, or the server
    /// refused the credentials or its host key.
    Failed(String),
    /// Stopped on request.
    Stopped,
}

/// The waits, in seconds, between one dial and the next; the last repeats.
pub open spec fn retry_delay(step: nat) -> nat {
    if step == 0 {
        1
    } else if step == 1 {
        2
    } else if step == 2 {
        5
    } else if step == 3 {
        10
    } else {
        30
    }
}

/// How many steps the backoff has.
pub const RETRY_STEPS: usize = 5;

/// A connection that lasted this long, in seconds, resets the backoff.
/// Resetting on connect alone would redial every second a server that
/// accepts and then drops us.
pub const STABLE_AFTER_SECS: u64 = 60;

/// Head room, in seconds, over the connect budget for authentication.
pub const AUTH_BUDGET_SECS: u64 = 20;

/// How one attempt to bring the tunnel up ended.
#[derive(Debug)]
pub enum Attempt {
    /// It connected and served until the connection went, after
    /// `lasted_secs` seconds, for `reason`.
    Served { lasted_secs: u64, reason: String },
    /// The server refused the credentials or its host key.
    Refused(String),
    /// The encrypted key at `path` has no passphrase yet.
    Locked { message: String, path: String },
    /// Any other failure.
    Failed(String),
    /// No answer within the budget.
    TimedOut { hostname: String, budget_secs: u64 },
}

/// What the tunnel does after an attempt.
#[derive(Debug, PartialEq, Eq)]
pub enum Next {
    /// Report the status and end: the tunnel will not retry.
    End(TunnelStatus),
    /// Report the status, wait this many seconds, dial again.
    Retry(TunnelStatus, u64),
    /// Report the status, then wait for the key at this path to be unlocked
    /// (asking for its passphrase once) and dial again at once.
    AwaitUnlock(TunnelStatus, String),
}

/// The message of a timed-out attempt.
pub open spec fn timeout_message(hostname: Seq<char>, secs: u64) -> Seq<char> {
    "no answer from "@ + hostname + " within "@ + decimal(secs as nat) + "s"@
}

/// The retry step after a wait at step `step`.
pub open spec fn advanced(step: nat) -> nat {
    if step + 1 < RETRY_STEPS {
        step + 1
    } else {
        (RETRY_STEPS - 1) as nat
    }
}

/// The wait before the next dial, in seconds, at backoff step `step`.
pub fn retry_delay_secs(step: usize) -> (d: u64)
    requires
        step < RETRY_STEPS,
    ensures
        d == retry_delay(step as nat),
{
    if step == 0 {
        1
    } else if step == 1 {
        2
    } else if step == 2 {
        5
    } else if step == 3 {
        10
    } else {
        30
    }
}

/// Decides what follows an attempt at backoff step `step`: the next action
/// and the step after it. A refusal ends the tunnel — every try would be one
/// more failed login; a locked key waits for its passphrase without moving the
/// backoff; anything else waits the step's delay and moves it on, after a
/// connection that stayed up [`STABLE_AFTER_SECS`] starting again from the
/// shortest wait.
pub fn after_attempt(step: usize, attempt: Attempt) -> (r: (Next, usize))
    requires
        step < RETRY_STEPS,
    ensures
        r.1 < RETRY_STEPS,
        match attempt {
            Attempt::Served { lasted_secs, reason } => {
                let s = if lasted_secs >= STABLE_AFTER_SECS { 0 } else { step as nat };
                r.0 == Next::Retry(TunnelStatus::Retrying(reason), retry_delay(s) as u64)
                    && r.1 == advanced(s)
            },
            Attempt::Refused(m) => r.0 == Next::End(TunnelStatus::Failed(m)) && r.1 == step,
            Attempt::Locked { message, path } => r.0 == Next::AwaitUnlock(TunnelStatus::Retrying(message), path)
                && r.1 == step,
            Attempt::Failed(m) => r.0 == Next::Retry(TunnelStatus::Retrying(m), retry_delay(step as nat) as u64)
                && r.1 == advanced(step as nat),
            Attempt::TimedOut { .. } => true,
        },
        attempt matches Attempt::TimedOut { hostname, budget_secs } ==> (r.0 matches Next::Retry(
            TunnelStatus::Retrying(m),
            d,
        ) && m@ == timeout_message(hostname@, budget_secs) && d == retry_delay(step as nat) && r.1
            == advanced(step as nat)),
{
    let wait_and_advance = |s: usize| -> (r: (u64, usize))
        requires
            s < RETRY_STEPS,
        ensures
            r.0 == retry_delay(s as nat),
            r.1 == advanced(s as nat),
        {
            let next = if s + 1 < RETRY_STEPS { s + 1 } else { RETRY_STEPS - 1 };
            (retry_delay_secs(s), next)
        };
    match attempt {
        Attempt::Served { lasted_secs, reason } => {
            let s = if lasted_secs >= STABLE_AFTER_SECS { 0 } else { step };
            let (d, n) = wait_and_advance(s);
            (Next::Retry(TunnelStatus::Retrying(reason), d), n)
        },
        Attempt::Refused(m) => (Next::End(TunnelStatus::Failed(m)), step),
        Attempt::Locked { message, path } => (Next::AwaitUnlock(TunnelStatus::Retrying(message), path), step),
        Attempt::Failed(m) => {
            let (d, n) = wait_and_advance(step);
            (Next::Retry(TunnelStatus::Retrying(m), d), n)
        },
        Attempt::TimedOut { hostname, budget_secs } => {
            let mut m = String::from_str("no answer from ");
            m.append(hostname.as_str());
            m.append(" within ");
            push_decimal(&mut m, budget_secs);
            m.append("s");
            let (d, n) = wait_and_advance(step);
            (Next::Retry(TunnelStatus::Retrying(m), d), n)
        },
    }
}

/// Why a host's tunnel cannot start at all, if it cannot: a host with no
/// forwards has nothing to carry.
pub fn precheck(forwards: &Vec<LocalForward>) -> (r: Option<TunnelStatus>)
    ensures
        forwards@.len() == 0 ==> (r matches Some(TunnelStatus::Failed(m)) && m@
            == "no port forwards are set up for this host"@),
        forwards@.len() > 0 ==> r is None,
{
    if forwards.len() == 0 {
        Some(TunnelStatus::Failed(String::from_str("no port forwards are set up for this host")))
    } else {
        None
    }
}


// ---------------------------------------------------------------------------
// Which tunnels run
// ---------------------------------------------------------------------------

/// Whether an edit touched anything a running tunnel was started with: where
/// and how it logs in, its bastion, or its forwards. Tags, notes and the
/// autostart flag are not among them.
pub open spec fn changed(before: HostView, after: HostView) -> bool {
    before.hostname != after.hostname || before.port != after.port || before.user != after.user
        || before.identity_file != after.identity_file || before.password != after.password
        || before.proxy_jump != after.proxy_jump || before.local_forwards != after.local_forwards
}

fn same_opt(a: &Option<String>, b: &Option<String>) -> (r: bool)
    ensures
        r == (opt_chars(*a) == opt_chars(*b)),
{
    match (a, b) {
        (Some(x), Some(y)) => x.eq(y),
        (None, None) => true,
        _ => false,
    }
}

/// Whether an edit from `before` to `after` touched anything a running tunnel
/// was started with.
pub fn changed_between(before: &Host, after: &Host) -> (r: bool)
    ensures
        r == changed(before@, after@),
{
    if !before.hostname.eq(&after.hostname) || before.port != after.port || !before.user.eq(&after.user)
        || !same_opt(&before.identity_file, &after.identity_file) || !same_opt(
        &before.password,
        &after.password,
    ) || !same_opt(&before.proxy_jump, &after.proxy_jump) {
        return true;
    }
    let a = &before.local_forwards;
    let b = &after.local_forwards;
    if a.len() != b.len() {
        assert(before@.local_forwards.len() != after@.local_forwards.len());
        return true;
    }
    let mut i: usize = 0;
    while i < a.len()
        invariant
            a@.len() == b@.len(),
            a@ == before.local_forwards@,
            b@ == after.local_forwards@,
            i <= a@.len(),
            forall|j: int| 0 <= j < i ==> (#[trigger] a@[j])@ == b@[j]@,
        decreases a.len() - i,
    {
        if !a[i].same_as(&b[i]) {
            assert(before@.local_forwards[i as int] != after@.local_forwards[i as int]);
            return true;
        }
        i = i + 1;
    }
    assert(before@.local_forwards =~= after@.local_forwards);
    false
}

/// A tunnel that has been started: the host as it was started with, and
/// whether it still runs (neither ended nor asked to stop).
pub struct Run {
    pub host: Host,
    pub running: bool,
}

/// What bringing one tunnel in line with an edited host list does to it.
#[derive(Debug, Clone, Copy, PartialEq, Eq, Structural)]
pub enum SyncAction {
    /// Leave it as it is.
    Keep,
    /// Stop it: its host is gone or has no forwards left.
    Stop,
    /// Restart it with the host at this index of the list: its connection or
    /// forwards changed.
    Restart(usize),
}

/// What syncing does to a tunnel started with `started`, running or not,
/// against the edited `hosts`. Nothing is started that was not running.
pub open spec fn sync_action(started: HostView, running: bool, hosts: Seq<HostView>) -> SyncAction {
    let i = first_host_where(hosts, named(started.name));
    if !running {
        SyncAction::Keep
    } else if i < 0 {
        SyncAction::Stop
    } else if hosts[i].local_forwards.len() == 0 {
        SyncAction::Stop
    } else if changed(started, hosts[i]) {
        SyncAction::Restart(i as usize)
    } else {
        SyncAction::Keep
    }
}

/// Brings the running tunnels in line with an edited host list: a host that
/// is gone, or has no forwards left, is stopped, and one whose connection or
/// forwards changed is restarted. One action per run, in order.
pub fn sync_plan(runs: &Vec<Run>, hosts: &[Host]) -> (r: Vec<SyncAction>)
    ensures
        r@.len() == runs@.len(),
        forall|k: int| 0 <= k < runs@.len() ==> r@[k] == sync_action(
            (#[trigger] runs@[k]).host@,
            runs@[k].running,
            host_views(hosts@),
        ),
{
    let mut out: Vec<SyncAction> = Vec::new();
    let mut k: usize = 0;
    while k < runs.len()
        invariant
            k <= runs@.len(),
            out@.len() == k,
            forall|j: int| 0 <= j < k ==> out@[j] == sync_action(
                (#[trigger] runs@[j]).host@,
                runs@[j].running,
                host_views(hosts@),
            ),
        decreases runs.len() - k,
    {
        let run = &runs[k];
        let action = if !run.running {
            SyncAction::Keep
        } else {
            match crate::jump::find_host(hosts, &run.host.name, false) {
                None => SyncAction::Stop,
                Some(i) => {
                    assert(host_views(hosts@)[i as int] == hosts@[i as int]@);
                    if hosts[i].local_forwards.len() == 0 {
                        SyncAction::Stop
                    } else if changed_between(&run.host, &hosts[i]) {
                        SyncAction::Restart(i)
                    } else {
                        SyncAction::Keep
                    }
                },
            }
        };
        out.push(action);
        k = k + 1;
    }
    out
}

/// Whether `h` starts its tunnel with OmnySSH: marked to, with forwards to
/// carry.
pub open spec fn starts_on_launch(h: HostView) -> bool {
    h.tunnel_autostart && h.local_forwards.len() > 0
}

/// The hosts whose tunnel starts on launch, by index, in order.
pub fn autostart(hosts: &[Host]) -> (r: Vec<usize>)
    ensures
        forall|k: int| 0 <= k < r@.len() ==> r@[k] < hosts@.len() && starts_on_launch(
            hosts@[r@[k] as int]@,
        ),
        forall|i: int| 0 <= i < hosts@.len() && starts_on_launch(#[trigger] hosts@[i]@) ==> r@.contains(
            i as usize,
        ),
        forall|a: int, b: int| 0 <= a < b < r@.len() ==> r@[a] < r@[b],
{
    let mut out: Vec<usize> = Vec::new();
    let mut i: usize = 0;
    while i < hosts.len()
        invariant
            i <= hosts@.len(),
            forall|k: int| 0 <= k < out@.len() ==> out@[k] < i && starts_on_launch(hosts@[out@[k] as int]@),
            forall|j: int| 0 <= j < i && starts_on_launch(#[trigger] hosts@[j]@) ==> out@.contains(j as usize),
            forall|a: int, b: int| 0 <= a < b < out@.len() ==> out@[a] < out@[b],
        decreases hosts.len() - i,
    {
        if hosts[i].tunnel_autostart && hosts[i].local_forwards.len() > 0 {
            let ghost old_out = out@;
            out.push(i);
            assert(out@[out@.len() - 1] == i);
            assert forall|x: usize| old_out.contains(x) implies out@.contains(x) by {
                let k = choose|k: int| 0 <= k < old_out.len() && old_out[k] == x;
                assert(out@[k] == x);
            }
        }
        i = i + 1;
    }
    out
}


// ---------------------------------------------------------------------------
// The notation round trip
// ---------------------------------------------------------------------------

/// No bracket among the characters of `t`.
pub open spec fn no_brackets(t: Seq<char>) -> bool {
    forall|i: int| 0 <= i < t.len() ==> t[i] != '[' && t[i] != ']'
}

/// The rules whose notation reads back as the same rule: ports from 1 up, a
/// target host, no brackets in either address (the notation uses them to
/// wrap IPv6 addresses), and a bind address that does not start with white
/// space (the notation is read trimmed).
pub open spec fn notation_safe(f: ForwardView) -> bool {
    &&& f.bind_port != 0
    &&& f.remote_port != 0
    &&& f.remote_host.len() > 0
    &&& no_brackets(f.remote_host)
    &&& match f.bind_address {
        Some(b) => no_brackets(b) && (b.len() == 0 || !is_ws(b[0])),
        None => true,
    }
}

proof fn lemma_scan_plain(t: Seq<char>, r: Seq<char>, cur: Seq<char>, open: bool, acc: Seq<Seq<char>>)
    requires
        forall|i: int| 0 <= i < t.len() ==> t[i] != '[' && t[i] != ']' && (open || t[i] != ':'),
    ensures
        fields_from(t + r, cur, open, acc) == fields_from(r, cur + t, open, acc),
    decreases t.len(),
{
    if t.len() == 0 {
        assert(t + r =~= r);
        assert(cur + t =~= cur);
    } else {
        let tr = t + r;
        assert(tr[0] == t[0]);
        assert(tr.drop_first() =~= t.drop_first() + r);
        lemma_scan_plain(t.drop_first(), r, cur.push(t[0]), open, acc);
        assert(cur.push(t[0]) + t.drop_first() =~= cur + t);
    }
}

/// Scanning an address as the notation writes it, then the rest.
proof fn lemma_scan_address(a: Seq<char>, r: Seq<char>, acc: Seq<Seq<char>>)
    requires
        no_brackets(a),
    ensures
        fields_from(bracketed(a) + r, seq![], false, acc) == fields_from(r, bracketed(a), false, acc),
{
    if a.contains(':') {
        let t = bracketed(a);
        assert(t + r =~= seq!['['] + (a + (seq![']'] + r)));
        let tr = t + r;
        assert(tr[0] == '[');
        assert(tr.drop_first() =~= a + (seq![']'] + r));
        lemma_scan_plain(a, seq![']'] + r, seq!['['], true, acc);
        let r2 = seq![']'] + r;
        assert(r2[0] == ']');
        assert(r2.drop_first() =~= r);
        assert((seq!['['] + a).push(']') =~= t);
    } else {
        assert forall|i: int| 0 <= i < a.len() implies a[i] != '[' && a[i] != ']' && a[i] != ':' by {
            if a[i] == ':' {
                assert(a.contains(':'));
            }
        }
        lemma_scan_plain(a, r, seq![], false, acc);
        assert(Seq::<char>::empty() + a =~= a);
    }
}

proof fn lemma_scan_number(n: nat, r: Seq<char>, acc: Seq<Seq<char>>)
    ensures
        fields_from(decimal(n) + r, seq![], false, acc) == fields_from(r, decimal(n), false, acc),
        unbracket(decimal(n)) == decimal(n),
{
    lemma_decimal_digits(n);
    let d = decimal(n);
    assert forall|i: int| 0 <= i < d.len() implies d[i] != '[' && d[i] != ']' && d[i] != ':' by {
        assert(crate::text::is_digit(d[i]));
    }
    lemma_scan_plain(d, r, seq![], false, acc);
    assert(Seq::<char>::empty() + d =~= d);
    assert(crate::text::is_digit(d[0]));
}

proof fn lemma_colon(r: Seq<char>, cur: Seq<char>, acc: Seq<Seq<char>>)
    ensures
        fields_from(seq![':'] + r, cur, false, acc) == fields_from(r, seq![], false, acc.push(cur)),
{
    let t = seq![':'] + r;
    assert(t[0] == ':');
    assert(t.drop_first() =~= r);
}

proof fn lemma_unbracket_address(a: Seq<char>)
    requires
        no_brackets(a),
    ensures
        unbracket(bracketed(a)) == a,
{
    if a.contains(':') {
        let t = bracketed(a);
        assert(t.subrange(1, t.len() - 1) =~= a);
    } else if a.len() >= 2 {
        assert(a[0] != '[');
    }
}

proof fn lemma_trim_clean(s: Seq<char>)
    requires
        s.len() > 0,
        !is_ws(s[0]),
        !is_ws(s.last()),
    ensures
        trim(s) == s,
{
    assert(trim_start(s) == s);
    assert(trim_end(s) == s);
}

/// A rule written in the notation reads back as the same rule.
pub proof fn lemma_forward_round_trip(f: ForwardView)
    requires
        notation_safe(f),
    ensures
        parse_forward(forward_notation(f)) == Ok::<ForwardView, Seq<char>>(f),
{
    let d1 = decimal(f.bind_port as nat);
    let d2 = decimal(f.remote_port as nat);
    let hh = bracketed(f.remote_host);
    let tail = d1 + (seq![':'] + (hh + (seq![':'] + d2)));
    lemma_decimal_digits(f.bind_port as nat);
    lemma_decimal_digits(f.remote_port as nat);
    lemma_parse_decimal(f.bind_port);
    lemma_parse_decimal(f.remote_port);
    lemma_unbracket_address(f.remote_host);
    // The fields after the bind address.
    let acc0: Seq<Seq<char>> = match f.bind_address {
        Some(b) => seq![bracketed(b)],
        None => seq![],
    };
    lemma_scan_number(f.bind_port as nat, seq![':'] + (hh + (seq![':'] + d2)), acc0);
    lemma_colon(hh + (seq![':'] + d2), d1, acc0);
    lemma_scan_address(f.remote_host, seq![':'] + d2, acc0.push(d1));
    lemma_colon(d2, hh, acc0.push(d1));
    lemma_scan_number(f.remote_port as nat, seq![], acc0.push(d1).push(hh));
    assert(d2 + Seq::<char>::empty() =~= d2);
    let raw = acc0.push(d1).push(hh).push(d2);
    assert(fields_from(tail, seq![], false, acc0) == Some(raw));
    let n = forward_notation(f);
    match f.bind_address {
        Some(b) => {
            let bb = bracketed(b);
            assert(n =~= bb + (seq![':'] + tail));
            lemma_scan_address(b, seq![':'] + tail, seq![]);
            lemma_colon(tail, bb, seq![]);
            assert(Seq::<Seq<char>>::empty().push(bb) =~= acc0);
            lemma_unbracket_address(b);
            if b.contains(':') {
                assert(n[0] == '[');
            } else if b.len() == 0 {
                assert(n[0] == ':');
            } else {
                assert(n[0] == b[0]);
            }
        },
        None => {
            assert(n =~= tail);
            assert(n[0] == d1[0]);
        },
    }
    assert(n.last() == d2.last());
    assert(crate::text::is_digit(d2[d2.len() - 1]));
    assert(crate::text::is_digit(d1[0]));
    lemma_trim_clean(n);
    assert(fields_from(n, seq![], false, seq![]) == Some(raw));
    let fs = raw.map_values(|x: Seq<char>| unbracket(x));
    assert(split_fields(n) == Some(fs));
    match f.bind_address {
        Some(b) => {
            assert(fs[0] == b);
            assert(fs[1] == d1);
            assert(fs[2] == f.remote_host);
            assert(fs[3] == d2);
        },
        None => {
            assert(fs[0] == d1);
            assert(fs[1] == f.remote_host);
            assert(fs[2] == d2);
        },
    }
}

// ---------------------------------------------------------------------------
// Failures
// ---------------------------------------------------------------------------

/// What a failed connect means for the tunnel: a refusal ends it, a locked key
/// waits for its passphrase, anything else is retried. The reason is the whole
/// chain of the failure on one line.
pub fn attempt_of_failure(e: &ConnectError) -> (a: Attempt)
    ensures
        refused(e@) ==> (a matches Attempt::Refused(m) && m@ == chain_text(e@)),
        !refused(e@) ==> match locked_path(e@) {
            Some(p) => a matches Attempt::Locked { message, path } && message@ == chain_text(e@)
                && path@ == p,
            None => a matches Attempt::Failed(m) && m@ == chain_text(e@),
        },
{
    let message = e.full_message();
    if is_refused(e) {
        return Attempt::Refused(message);
    }
    match passphrase_required(e) {
        Some(p) => Attempt::Locked { message, path: String::from_str(p) },
        None => Attempt::Failed(message),
    }
}

/// Why a forward's address could not be listened on.
pub fn listen_failure(address: &str, port: u16, error: &str) -> (m: String)
    ensures
        m@ == "cannot listen on "@ + address@ + ":"@ + decimal(port as nat) + ": "@ + error@,
{
    let mut m = String::from_str("cannot listen on ");
    m.append(address);
    m.append(":");
    push_decimal(&mut m, port as u64);
    m.append(": ");
    m.append(error);
    m
}

/// Why one forwarded connection went nowhere while the tunnel stays up: a
/// stopped service, or a server that forbids forwarding.
pub fn open_failure(name: &str, forward: &LocalForward, error: &str) -> (m: String)
    ensures
        m@ == "Tunnel to '"@ + name@ + "': "@ + forward_notation(forward@) + " could not be opened: "@
            + error@,
{
    let mut m = String::from_str("Tunnel to '");
    m.append(name);
    m.append("': ");
    let f = forward.to_string();
    m.append(f.as_str());
    m.append(" could not be opened: ");
    m.append(error);
    m
}

/// Every input a running tunnel was started with counts as a change — where
/// and as whom it logs in (address, SSH port, user, key, password), its
/// bastion, and its forwards — while edits to anything else (tags, notes,
/// autostart) do not.
pub proof fn law_tunnel_inputs_are_changes(before: HostView, after: HostView)
    ensures
        before.hostname != after.hostname ==> changed(before, after),
        before.port != after.port ==> changed(before, after),
        before.user != after.user ==> changed(before, after),
        before.identity_file != after.identity_file ==> changed(before, after),
        before.password != after.password ==> changed(before, after),
        before.proxy_jump != after.proxy_jump ==> changed(before, after),
        before.local_forwards != after.local_forwards ==> changed(before, after),
        (after == HostView {
            tags: after.tags,
            notes: after.notes,
            tunnel_autostart: after.tunnel_autostart,
            ..before
        }) ==> !changed(before, after),
{
}

/// A running tunnel whose host kept its name and forwards but had its SSH
/// port edited is restarted with the edited host, so it does not keep dialling
/// the old port.
pub proof fn law_a_port_edit_restarts_the_tunnel(started: HostView, hosts: Seq<HostView>, i: int)
    requires
        0 <= i < hosts.len(),
        hosts[i].name == started.name,
        forall|j: int| 0 <= j < i ==> hosts[j].name != started.name,
        hosts[i].local_forwards.len() > 0,
        hosts[i].port != started.port,
    ensures
        sync_action(started, true, hosts) == SyncAction::Restart(i as usize),
{
    crate::jump::lemma_first_host_where_is(hosts, named(started.name), i);
    law_tunnel_inputs_are_changes(started, hosts[i]);
}

} // verus!
