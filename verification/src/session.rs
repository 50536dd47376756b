//! The decisions of an SSH connection: how its failures are told apart, which
//! login a typed password belongs to, how keyboard-interactive prompts are
//! answered, and what a command's output and exit status come to.
//!
//! A failure is kept as its chain of causes, outermost first, as it travels
//! out through the jump hosts and the callers that add context to it. A locked
//! key, a missing password or a refusal stays recognisable all the way out.

use vstd::prelude::*;
use crate::client::{Host, HostView};
use crate::text::{
    char_views, chars_of, decimal, from_utf8_lossy, lines_of, push_chars, push_decimal, split_lines,
    utf8_lossy,
};

verus! {

// ---------------------------------------------------------------------------
// Failures
// ---------------------------------------------------------------------------

/// A connection the server turned away on purpose: it refused every
/// credential, or its host key no longer matches `known_hosts`. A caller that
/// reconnects by itself stops on it instead of piling up failed logins.
#[derive(Debug, Clone, PartialEq, Eq)]
pub struct Refused(pub String);

/// No credential got in, and an encrypted key was skipped for want of its
/// passphrase. Not final: once the key is unlocked the same login can succeed.
#[derive(Debug, Clone, PartialEq, Eq)]
pub struct PassphraseRequired {
    /// Canonical path of the encrypted key.
    pub path: String,
    pub message: String,
}

/// No key got in and there was no password to try. Not final either: once one
/// is typed for the login elsewhere the same connection can go again.
#[derive(Debug, Clone, PartialEq, Eq)]
pub struct PasswordRequired {
    /// The login key the password is remembered under.
    pub login: String,
    pub message: String,
}

/// One layer of a connection failure.
#[derive(Debug, Clone, PartialEq, Eq)]
pub enum Cause {
    /// Context a caller added on the way out ("SFTP SSH connect").
    Context(String),
    Refused(Refused),
    PassphraseRequired(PassphraseRequired),
    PasswordRequired(PasswordRequired),
    /// The transport's own report of a server key it does not know, by its
    /// message. It counts as a refusal.
    UnknownKey(String),
    /// Any other failure, by its message.
    Other(String),
}

/// The plain value of a [`Cause`].
pub enum CauseView {
    Context(Seq<char>),
    Refused(Seq<char>),
    PassphraseRequired { path: Seq<char>, message: Seq<char> },
    PasswordRequired { login: Seq<char>, message: Seq<char> },
    UnknownKey(Seq<char>),
    Other(Seq<char>),
}

impl View for Cause {
    type V = CauseView;

    open spec fn view(&self) -> CauseView {
        match self {
            Cause::Context(m) => CauseView::Context(m@),
            Cause::Refused(r) => CauseView::Refused(r.0@),
            Cause::PassphraseRequired(p) => CauseView::PassphraseRequired {
                path: p.path@,
                message: p.message@,
            },
            Cause::PasswordRequired(p) => CauseView::PasswordRequired {
                login: p.login@,
                message: p.message@,
            },
            Cause::UnknownKey(m) => CauseView::UnknownKey(m@),
            Cause::Other(m) => CauseView::Other(m@),
        }
    }
}

/// What a cause says.
pub open spec fn cause_message(c: CauseView) -> Seq<char> {
    match c {
        CauseView::Context(m) => m,
        CauseView::Refused(m) => m,
        CauseView::PassphraseRequired { message, .. } => message,
        CauseView::PasswordRequired { message, .. } => message,
        CauseView::UnknownKey(m) => m,
        CauseView::Other(m) => m,
    }
}

/// A failed connection: its causes, outermost first. Never empty.
#[derive(Debug, Clone, PartialEq, Eq)]
pub struct ConnectError {
    pub causes: Vec<Cause>,
}

pub open spec fn cause_views(s: Seq<Cause>) -> Seq<CauseView> {
    s.map_values(|c: Cause| c@)
}

impl View for ConnectError {
    type V = Seq<CauseView>;

    open spec fn view(&self) -> Seq<CauseView> {
        cause_views(self.causes@)
    }
}

/// Every cause's message, outermost first, joined by `": "` — how the whole
/// chain reads on one line.
pub open spec fn chain_text(cs: Seq<CauseView>) -> Seq<char>
    decreases cs.len(),
{
    if cs.len() == 0 {
        Seq::empty()
    } else if cs.len() == 1 {
        cause_message(cs[0])
    } else {
        chain_text(cs.drop_last()) + ": "@ + cause_message(cs.last())
    }
}

/// The message a passphrase request carries: the path goes last, since
/// frontends cut messages at the first `:` and a Windows path has one.
pub open spec fn locked_message(path: Seq<char>) -> Seq<char> {
    "SSH key requires a passphrase: "@ + path
}

impl PassphraseRequired {
    /// The failure for the encrypted key at `path`.
    pub fn new(path: String) -> (p: PassphraseRequired)
        ensures
            p.path@ == path@,
            p.message@ == locked_message(path@),
    {
        let mut message = String::from_str("SSH key requires a passphrase: ");
        message.append(path.as_str());
        PassphraseRequired { path, message }
    }
}

impl Cause {
    /// What the cause says.
    pub fn message(&self) -> (m: &String)
        ensures
            m@ == cause_message(self@),
    {
        match self {
            Cause::Context(m) => m,
            Cause::Refused(r) => &r.0,
            Cause::PassphraseRequired(p) => &p.message,
            Cause::PasswordRequired(p) => &p.message,
            Cause::UnknownKey(m) => m,
            Cause::Other(m) => m,
        }
    }
}

impl ConnectError {
    /// A failure with the single cause `root`.
    pub fn new(root: Cause) -> (e: ConnectError)
        ensures
            e@ == seq![root@],
    {
        let mut causes = Vec::new();
        causes.push(root);
        let e = ConnectError { causes };
        assert(e@ =~= seq![root@]);
        e
    }

    /// The same failure, with `context` said on top of it.
    pub fn context(self, context: String) -> (e: ConnectError)
        ensures
            e@ == seq![CauseView::Context(context@)] + self@,
    {
        let mut causes = Vec::new();
        causes.push(Cause::Context(context));
        let mut rest = self.causes;
        causes.append(&mut rest);
        let e = ConnectError { causes };
        assert(e@ =~= seq![CauseView::Context(context@)] + self@);
        e
    }

    /// What the failure says on its own: its outermost cause.
    pub fn to_string(&self) -> (s: String)
        requires
            self@.len() > 0,
        ensures
            s@ == cause_message(self@[0]),
    {
        self.causes[0].message().clone()
    }

    /// The whole chain on one line.
    pub fn full_message(&self) -> (s: String)
        ensures
            s@ == chain_text(self@),
    {
        let ghost cs = self@;
        let mut s = String::new();
        let mut i: usize = 0;
        while i < self.causes.len()
            invariant
                i <= cs.len(),
                cs == self@,
                cs.len() == self.causes@.len(),
                s@ == chain_text(cs.subrange(0, i as int)),
            decreases self.causes.len() - i,
        {
            let ghost before = cs.subrange(0, i as int);
            assert(cs.subrange(0, i + 1).drop_last() =~= before);
            assert(cs[i as int] == self.causes@[i as int]@);
            if i > 0 {
                s.append(": ");
            } else {
                assert(before =~= Seq::<CauseView>::empty());
            }
            s.append(self.causes[i].message().as_str());
            assert(s@ =~= chain_text(cs.subrange(0, i + 1)));
            i = i + 1;
        }
        assert(cs.subrange(0, cs.len() as int) =~= cs);
        s
    }
}

/// Whether the cause at `i` is the first one in `cs` that asks for a
/// passphrase.
pub open spec fn first_locked_at(cs: Seq<CauseView>, i: int) -> bool {
    &&& 0 <= i < cs.len()
    &&& cs[i] is PassphraseRequired
    &&& forall|j: int| 0 <= j < i ==> !(#[trigger] cs[j] is PassphraseRequired)
}

/// The key a failure is waiting on: the path of its first passphrase request.
pub open spec fn locked_path(cs: Seq<CauseView>) -> Option<Seq<char>> {
    if exists|i: int| first_locked_at(cs, i) {
        Some(cs[choose|i: int| first_locked_at(cs, i)]->path)
    } else {
        None
    }
}

/// Whether the cause at `i` is the first one in `cs` that asks for a password.
pub open spec fn first_missing_at(cs: Seq<CauseView>, i: int) -> bool {
    &&& 0 <= i < cs.len()
    &&& cs[i] is PasswordRequired
    &&& forall|j: int| 0 <= j < i ==> !(#[trigger] cs[j] is PasswordRequired)
}

/// The login a failure needs a password for: that of its first password
/// request.
pub open spec fn missing_login(cs: Seq<CauseView>) -> Option<Seq<char>> {
    if exists|i: int| first_missing_at(cs, i) {
        Some(cs[choose|i: int| first_missing_at(cs, i)]->login)
    } else {
        None
    }
}

/// Whether a failure is, or wraps, a refusal.
pub open spec fn refused(cs: Seq<CauseView>) -> bool {
    exists|i: int| 0 <= i < cs.len() && (cs[i] is Refused || #[trigger] cs[i] is UnknownKey)
}

/// The key a failed connection is waiting on, if that is why it failed.
pub fn passphrase_required(e: &ConnectError) -> (r: Option<&str>)
    ensures
        match r {
            Some(p) => locked_path(e@) == Some(p@),
            None => locked_path(e@) is None,
        },
{
    let ghost cs = e@;
    let mut i: usize = 0;
    while i < e.causes.len()
        invariant
            i <= cs.len() == e.causes@.len(),
            cs == e@,
            forall|j: int| 0 <= j < i ==> !(#[trigger] cs[j] is PassphraseRequired),
        decreases e.causes.len() - i,
    {
        assert(cs[i as int] == e.causes@[i as int]@);
        match &e.causes[i] {
            Cause::PassphraseRequired(p) => {
                assert(first_locked_at(cs, i as int));
                assert forall|k: int| first_locked_at(cs, k) implies k == i by {
                    if k < i {
                        assert(!(cs[k] is PassphraseRequired));
                    } else if k > i {
                        assert(!(cs[i as int] is PassphraseRequired));
                    }
                }
                return Some(p.path.as_str());
            },
            _ => {},
        }
        i = i + 1;
    }
    None
}

/// The login a failed connection needs a password for, if that is why it
/// failed.
pub fn password_required(e: &ConnectError) -> (r: Option<&str>)
    ensures
        match r {
            Some(l) => missing_login(e@) == Some(l@),
            None => missing_login(e@) is None,
        },
{
    let ghost cs = e@;
    let mut i: usize = 0;
    while i < e.causes.len()
        invariant
            i <= cs.len() == e.causes@.len(),
            cs == e@,
            forall|j: int| 0 <= j < i ==> !(#[trigger] cs[j] is PasswordRequired),
        decreases e.causes.len() - i,
    {
        assert(cs[i as int] == e.causes@[i as int]@);
        match &e.causes[i] {
            Cause::PasswordRequired(p) => {
                assert(first_missing_at(cs, i as int));
                assert forall|k: int| first_missing_at(cs, k) implies k == i by {
                    if k < i {
                        assert(!(cs[k] is PasswordRequired));
                    } else if k > i {
                        assert(!(cs[i as int] is PasswordRequired));
                    }
                }
                return Some(p.login.as_str());
            },
            _ => {},
        }
        i = i + 1;
    }
    None
}

/// Whether a failure is, or wraps, a refused connection.
pub fn is_refused(e: &ConnectError) -> (b: bool)
    ensures
        b == refused(e@),
{
    let ghost cs = e@;
    let mut i: usize = 0;
    while i < e.causes.len()
        invariant
            i <= cs.len() == e.causes@.len(),
            cs == e@,
            forall|j: int| 0 <= j < i ==> !(cs[j] is Refused || #[trigger] cs[j] is UnknownKey),
        decreases e.causes.len() - i,
    {
        assert(cs[i as int] == e.causes@[i as int]@);
        match &e.causes[i] {
            Cause::Refused(_) => return true,
            Cause::UnknownKey(_) => return true,
            _ => {},
        }
        i = i + 1;
    }
    false
}

/// The failure a hop reports for `cs`, prefixed with `context`: flattened to
/// one message, but still a locked key, a missing password or a refusal, as
/// `cs` was — in that order of precedence.
pub open spec fn hop_failure(cs: Seq<CauseView>, context: Seq<char>) -> CauseView {
    let message = context + ": "@ + chain_text(cs);
    match locked_path(cs) {
        Some(path) => CauseView::PassphraseRequired { path, message },
        None => match missing_login(cs) {
            Some(login) => CauseView::PasswordRequired { login, message },
            None => if refused(cs) {
                CauseView::Refused(message)
            } else {
                CauseView::Other(message)
            },
        },
    }
}

/// Prefixes a hop's failure with where it failed. The message is flattened,
/// but a refusal or a locked key stays recognisable through the jump chain.
pub fn at_hop(e: ConnectError, context: String) -> (r: ConnectError)
    ensures
        r@ == seq![hop_failure(e@, context@)],
{
    let mut message = context;
    message.append(": ");
    let text = e.full_message();
    message.append(text.as_str());
    let cause = match passphrase_required(&e) {
        Some(path) => Cause::PassphraseRequired(
            PassphraseRequired { path: String::from_str(path), message },
        ),
        None => match password_required(&e) {
            Some(login) => Cause::PasswordRequired(
                PasswordRequired { login: String::from_str(login), message },
            ),
            None => if is_refused(&e) {
                Cause::Refused(Refused(message))
            } else {
                Cause::Other(message)
            },
        },
    };
    ConnectError::new(cause)
}

/// Context added on the way out hides nothing: a failure that waits on a
/// locked key or a password, or was refused, still says so under it.
pub proof fn law_context_keeps_what_failed(cs: Seq<CauseView>, context: Seq<char>)
    ensures
        locked_path(seq![CauseView::Context(context)] + cs) == locked_path(cs),
        missing_login(seq![CauseView::Context(context)] + cs) == missing_login(cs),
        refused(seq![CauseView::Context(context)] + cs) == refused(cs),
{
    let d = seq![CauseView::Context(context)] + cs;
    assert forall|i: int| first_locked_at(d, i) <==> i >= 1 && first_locked_at(cs, i - 1) by {
        if 1 <= i < d.len() {
            assert(d[i] == cs[i - 1]);
            assert forall|j: int| 0 <= j < i implies (d[j] is PassphraseRequired) == (j >= 1 && cs[j - 1] is PassphraseRequired) by {
                if j >= 1 {
                    assert(d[j] == cs[j - 1]);
                }
            }
            if first_locked_at(cs, i - 1) {
                assert forall|j: int| 0 <= j < i implies !(#[trigger] d[j] is PassphraseRequired) by {
                    if j >= 1 {
                        assert(d[j] == cs[j - 1]);
                    }
                }
            }
            if first_locked_at(d, i) {
                assert forall|j: int| 0 <= j < i - 1 implies !(#[trigger] cs[j] is PassphraseRequired) by {
                    assert(d[j + 1] == cs[j]);
                }
            }
        }
    }
    if exists|i: int| first_locked_at(cs, i) {
        let i = choose|i: int| first_locked_at(cs, i);
        assert(first_locked_at(d, i + 1));
        let k = choose|k: int| first_locked_at(d, k);
        assert forall|a: int, b: int| first_locked_at(d, a) && first_locked_at(d, b) implies a == b by {
            if a < b {
                assert(!(d[a] is PassphraseRequired));
            } else if b < a {
                assert(!(d[b] is PassphraseRequired));
            }
        }
        assert(k == i + 1);
        assert(d[k] == cs[i]);
    }
    assert forall|i: int| first_missing_at(d, i) <==> i >= 1 && first_missing_at(cs, i - 1) by {
        if 1 <= i < d.len() {
            assert(d[i] == cs[i - 1]);
            if first_missing_at(cs, i - 1) {
                assert forall|j: int| 0 <= j < i implies !(#[trigger] d[j] is PasswordRequired) by {
                    if j >= 1 {
                        assert(d[j] == cs[j - 1]);
                    }
                }
            }
            if first_missing_at(d, i) {
                assert forall|j: int| 0 <= j < i - 1 implies !(#[trigger] cs[j] is PasswordRequired) by {
                    assert(d[j + 1] == cs[j]);
                }
            }
        }
    }
    if exists|i: int| first_missing_at(cs, i) {
        let i = choose|i: int| first_missing_at(cs, i);
        assert(first_missing_at(d, i + 1));
        let k = choose|k: int| first_missing_at(d, k);
        assert forall|a: int, b: int| first_missing_at(d, a) && first_missing_at(d, b) implies a == b by {
            if a < b {
                assert(!(d[a] is PasswordRequired));
            } else if b < a {
                assert(!(d[b] is PasswordRequired));
            }
        }
        assert(k == i + 1);
        assert(d[k] == cs[i]);
    }
    if refused(cs) {
        let i = choose|i: int| 0 <= i < cs.len() && (cs[i] is Refused || #[trigger] cs[i] is UnknownKey);
        assert(d[i + 1] == cs[i]);
    }
    if refused(d) {
        let i = choose|i: int| 0 <= i < d.len() && (d[i] is Refused || #[trigger] d[i] is UnknownKey);
        assert(i >= 1);
        assert(d[i] == cs[i - 1]);
    }
}

/// Through a jump host a failure is flattened to one message, but what it was
/// stays recognisable: a locked key keeps its path, a missing password its
/// login, and a refusal stays a refusal — in that order of precedence.
pub proof fn law_a_hop_keeps_what_failed(cs: Seq<CauseView>, context: Seq<char>)
    ensures
        locked_path(seq![hop_failure(cs, context)]) == locked_path(cs),
        locked_path(cs) is None ==> missing_login(seq![hop_failure(cs, context)]) == missing_login(cs),
        (locked_path(cs) is None && missing_login(cs) is None) ==> refused(seq![hop_failure(cs, context)])
            == refused(cs),
{
    let h = seq![hop_failure(cs, context)];
    if h[0] is PassphraseRequired {
        assert(first_locked_at(h, 0));
    } else {
        assert forall|i: int| !first_locked_at(h, i) by {}
    }
    if h[0] is PasswordRequired {
        assert(first_missing_at(h, 0));
    } else {
        assert forall|i: int| !first_missing_at(h, i) by {}
    }
    if h[0] is Refused {
        assert(refused(h)) by {
            assert(h[0] is Refused);
        }
    }
}

// ---------------------------------------------------------------------------
// Logins
// ---------------------------------------------------------------------------

/// How one hop's login reads: `user@hostname:port`.
pub open spec fn login_of(h: HostView) -> Seq<char> {
    h.user + "@"@ + h.hostname + ":"@ + decimal(h.port as nat)
}

/// The key a typed password is remembered under: the login, then every
/// bastion on the way from the nearest back to the first, joined by `" via "`,
/// so a private address behind another bastion never gets it.
pub open spec fn login_key_of(host: HostView, bastions: Seq<HostView>) -> Seq<char>
    decreases bastions.len(),
{
    if bastions.len() == 0 {
        login_of(host)
    } else {
        login_key_of(host, bastions.drop_first()) + " via "@ + login_of(bastions[0])
    }
}

fn push_login(s: &mut String, h: &Host)
    ensures
        final(s)@ == old(s)@ + login_of(h@),
{
    s.append(h.user.as_str());
    s.append("@");
    s.append(h.hostname.as_str());
    s.append(":");
    push_decimal(s, h.port as u64);
    assert(final(s)@ =~= old(s)@ + login_of(h@));
}

/// The key a typed password for `host`, reached through the bastions `bastions`
/// (first to nearest), is remembered under.
pub fn login_key(host: &Host, bastions: &[Host]) -> (k: String)
    ensures
        k@ == login_key_of(host@, crate::client::host_views(bastions@)),
{
    let ghost vs = crate::client::host_views(bastions@);
    let mut k = String::new();
    push_login(&mut k, host);
    assert(k@ =~= login_of(host@));
    let mut i: usize = bastions.len();
    assert(vs.subrange(i as int, vs.len() as int) =~= Seq::<HostView>::empty());
    while i > 0
        invariant
            i <= bastions@.len() == vs.len(),
            vs == crate::client::host_views(bastions@),
            k@ == login_key_of(host@, vs.subrange(i as int, vs.len() as int)),
        decreases i,
    {
        i = i - 1;
        let ghost tail = vs.subrange(i as int, vs.len() as int);
        assert(tail.drop_first() =~= vs.subrange(i + 1, vs.len() as int));
        assert(tail[0] == bastions@[i as int]@);
        k.append(" via ");
        push_login(&mut k, &bastions[i]);
        assert(k@ =~= login_key_of(host@, tail));
    }
    assert(vs.subrange(0, vs.len() as int) =~= vs);
    k
}

// ---------------------------------------------------------------------------
// Keyboard-interactive
// ---------------------------------------------------------------------------

/// One question of a keyboard-interactive round.
#[derive(Debug, Clone, PartialEq, Eq)]
pub struct KbdPrompt {
    pub prompt: String,
    /// Whether the answer is shown as it is typed.
    pub echo: bool,
}

/// Answers to one round of keyboard-interactive prompts: the password goes,
/// once, to a lone hidden prompt; anything else (a code, a visible question)
/// gets a blank the server will refuse. Every prompt is answered: the server
/// waits for all of them.
pub fn kbd_answers(prompts: &[KbdPrompt], password: &mut Option<&str>) -> (r: Vec<String>)
    ensures
        r@.len() == prompts@.len(),
        (prompts@.len() == 1 && !prompts@[0].echo) ==> (match *old(password) {
            Some(p) => r@[0]@ == p@,
            None => r@[0]@ == Seq::<char>::empty(),
        } && *final(password) is None),
        !(prompts@.len() == 1 && !prompts@[0].echo) ==> (*final(password) == *old(password)
            && forall|i: int| 0 <= i < r@.len() ==> (#[trigger] r@[i])@ == Seq::<char>::empty()),
{
    let mut r: Vec<String> = Vec::new();
    if prompts.len() == 1 && !prompts[0].echo {
        match password.take() {
            Some(p) => r.push(String::from_str(p)),
            None => r.push(String::new()),
        }
    } else {
        let mut i: usize = 0;
        while i < prompts.len()
            invariant
                i <= prompts@.len(),
                r@.len() == i,
                forall|j: int| 0 <= j < r@.len() ==> (#[trigger] r@[j])@ == Seq::<char>::empty(),
            decreases prompts.len() - i,
        {
            r.push(String::new());
            i = i + 1;
        }
    }
    r
}

// ---------------------------------------------------------------------------
// Budgets, host keys, commands
// ---------------------------------------------------------------------------

/// Seconds each hop gets for the TCP connect and the SSH handshake.
pub const CONNECT_TIMEOUT_SECS: u64 = 10;

/// Upper bound, in seconds, on the SSH agent's share of one hop's login.
pub const AGENT_BUDGET_SECS: u64 = 20;

/// Seconds one connect needs through `hops` bastions: the connect timeout and
/// the agent's bound, once for every bastion and once for the target.
pub fn connect_budget_secs(hops: usize) -> (s: u64)
    requires
        hops < u32::MAX,
    ensures
        s == (CONNECT_TIMEOUT_SECS + AGENT_BUDGET_SECS) * (hops + 1),
{
    (CONNECT_TIMEOUT_SECS + AGENT_BUDGET_SECS) * (hops as u64 + 1)
}

/// How a server's host key compares with `known_hosts`.
#[derive(Debug, Clone, PartialEq, Eq)]
pub enum KnownHostsCheck {
    /// Recorded, and it matches.
    Matches,
    /// Not seen before.
    Unknown,
    /// A recorded key changed: possibly a man in the middle.
    Changed,
    /// `known_hosts` could not be read or parsed.
    Unreadable(String),
}

/// What to do with a server's host key.
#[derive(Debug, Clone, Copy, PartialEq, Eq, Structural)]
pub enum HostKeyVerdict {
    Accept,
    /// Trust on first use: record the key, so a later change is caught, and
    /// accept. Recording is best effort.
    LearnAndAccept,
    /// Refuse the connection.
    Refuse,
}

/// The verdict on a host key: a known key passes, an unknown one is learned,
/// a changed one is refused, and an unreadable `known_hosts` fails closed.
pub fn host_key_verdict(check: &KnownHostsCheck) -> (v: HostKeyVerdict)
    ensures
        v == match check {
            KnownHostsCheck::Matches => HostKeyVerdict::Accept,
            KnownHostsCheck::Unknown => HostKeyVerdict::LearnAndAccept,
            KnownHostsCheck::Changed => HostKeyVerdict::Refuse,
            KnownHostsCheck::Unreadable(_) => HostKeyVerdict::Refuse,
        },
{
    match check {
        KnownHostsCheck::Matches => HostKeyVerdict::Accept,
        KnownHostsCheck::Unknown => HostKeyVerdict::LearnAndAccept,
        KnownHostsCheck::Changed => HostKeyVerdict::Refuse,
        KnownHostsCheck::Unreadable(_) => HostKeyVerdict::Refuse,
    }
}

/// What a remote exit status makes of a checked command: a missing status
/// counts as success — failing a command that likely worked is worse than
/// missing a rare edge case.
pub fn checked_status(status: Option<u32>) -> (r: Result<(), String>)
    ensures
        match status {
            None => r is Ok,
            Some(code) => if code == 0 {
                r is Ok
            } else {
                r matches Err(m) && m@ == "remote command exited with status "@ + decimal(
                    code as nat,
                )
            },
        },
{
    match status {
        Some(code) => {
            if code == 0 {
                Ok(())
            } else {
                let mut m = String::from_str("remote command exited with status ");
                push_decimal(&mut m, code as u64);
                Err(m)
            }
        },
        None => Ok(()),
    }
}

// ---------------------------------------------------------------------------
// Command output
// ---------------------------------------------------------------------------

/// What a command's channel delivers.
#[derive(Debug, Clone, PartialEq, Eq)]
pub enum ChannelEvent {
    /// Bytes on stdout.
    Data(Vec<u8>),
    /// Bytes on stderr, which are dropped so they cannot corrupt stdout.
    ExtendedData,
    /// The command's exit status. Trailing stdout may still follow.
    ExitStatus(u32),
    /// End of output. The exit status may still follow.
    Eof,
    /// The channel closed, or its connection went.
    Close,
    /// Anything else.
    Other,
}

/// A command's stdout and exit status, as they come in.
pub struct OutputCollector {
    buf: Vec<u8>,
    exit_status: Option<u32>,
}

impl View for OutputCollector {
    type V = (Seq<u8>, Option<u32>);

    closed spec fn view(&self) -> (Seq<u8>, Option<u32>) {
        (self.buf@, self.exit_status)
    }
}

/// Each line of `lines` followed by `\n`.
pub open spec fn joined_lines(lines: Seq<Seq<char>>) -> Seq<char>
    decreases lines.len(),
{
    if lines.len() == 0 {
        Seq::empty()
    } else {
        joined_lines(lines.drop_last()) + lines.last() + seq!['\n']
    }
}

/// Output text with its line endings made `\n`, as `str::lines` reads them —
/// a `\r\n` becomes `\n` — and a final line always ended.
pub open spec fn normalised(text: Seq<char>) -> Seq<char> {
    joined_lines(lines_of(text))
}

impl OutputCollector {
    /// Nothing collected yet.
    pub fn new() -> (c: OutputCollector)
        ensures
            c@.0 == Seq::<u8>::empty(),
            c@.1 is None,
    {
        let c = OutputCollector { buf: Vec::new(), exit_status: None };
        assert(c@.0 =~= Seq::<u8>::empty());
        c
    }

    /// Takes in one channel event; `true` once the channel is done.
    pub fn feed(&mut self, event: ChannelEvent) -> (done: bool)
        ensures
            done == (event == ChannelEvent::Close),
            match event {
                ChannelEvent::Data(d) => final(self)@ == (old(self)@.0 + d@, old(self)@.1),
                ChannelEvent::ExitStatus(code) => final(self)@ == (old(self)@.0, Some(code)),
                _ => final(self)@ == old(self)@,
            },
    {
        match event {
            ChannelEvent::Data(mut d) => {
                let ghost added = d@;
                self.buf.append(&mut d);
                assert(self.buf@ =~= old(self)@.0 + added);
                false
            },
            ChannelEvent::ExitStatus(code) => {
                self.exit_status = Some(code);
                false
            },
            ChannelEvent::Close => true,
            _ => false,
        }
    }

    /// The collected stdout, decoded and with its line endings made `\n`, and
    /// the exit status if one came.
    pub fn finish(self) -> (r: (String, Option<u32>))
        ensures
            r.0@ == normalised(utf8_lossy(self@.0)),
            r.1 == self@.1,
    {
        let raw = from_utf8_lossy(self.buf.as_slice());
        let v = chars_of(raw.as_str());
        let lines = split_lines(v.as_slice());
        let ghost ls = char_views(lines@);
        let mut out = String::new();
        let mut i: usize = 0;
        while i < lines.len()
            invariant
                i <= lines@.len() == ls.len(),
                ls == char_views(lines@),
                out@ == joined_lines(ls.subrange(0, i as int)),
            decreases lines.len() - i,
        {
            assert(ls.subrange(0, i + 1).drop_last() =~= ls.subrange(0, i as int));
            assert(ls[i as int] == lines@[i as int]@);
            push_chars(&mut out, lines[i].as_slice());
            out.push('\n');
            assert(out@ =~= joined_lines(ls.subrange(0, i + 1)));
            i = i + 1;
        }
        assert(ls.subrange(0, ls.len() as int) =~= ls);
        (out, self.exit_status)
    }
}

// ---------------------------------------------------------------------------
// Keys
// ---------------------------------------------------------------------------

/// The default private keys ssh(1) tries with no `-i`, in that order, under
/// `home`. FIDO (`id_*_sk`) keys are left out: they cannot sign here, so a
/// locked one would ask for a passphrase that could never help.
pub open spec fn default_keys_under(home: Seq<char>) -> Seq<Seq<char>> {
    seq![
        home + "/.ssh/id_ed25519"@,
        home + "/.ssh/id_rsa"@,
        home + "/.ssh/id_ecdsa"@,
    ]
}

/// The default key paths, or none when no home directory was found.
pub fn default_key_paths(home: Option<&str>) -> (r: Vec<String>)
    ensures
        match home {
            Some(h) => r@.map_values(|p: String| p@) == default_keys_under(h@),
            None => r@.len() == 0,
        },
{
    let mut r: Vec<String> = Vec::new();
    match home {
        None => r,
        Some(h) => {
            let mut a = String::from_str(h);
            a.append("/.ssh/id_ed25519");
            let mut b = String::from_str(h);
            b.append("/.ssh/id_rsa");
            let mut c = String::from_str(h);
            c.append("/.ssh/id_ecdsa");
            r.push(a);
            r.push(b);
            r.push(c);
            assert(r@.map_values(|p: String| p@) =~= default_keys_under(h@));
            r
        },
    }
}

/// How trying one key went.
#[derive(Debug, Clone, PartialEq, Eq)]
pub enum KeyTry {
    Accepted,
    Rejected,
    /// The key could not be used: locked, with the canonical path when that
    /// is why.
    Unusable { locked_path: Option<String> },
}

/// Notes the first locked key met, so a failed login can ask for its
/// passphrase; anything else a key attempt fails with is only logged.
pub fn note_encrypted(encrypted_key: &mut Option<String>, failure: &KeyTry)
    ensures
        match (*old(encrypted_key), failure) {
            (None, KeyTry::Unusable { locked_path: Some(p) }) => *final(encrypted_key) matches Some(q)
                && q@ == p@,
            _ => *final(encrypted_key) == *old(encrypted_key),
        },
{
    match failure {
        KeyTry::Unusable { locked_path: Some(p) } => {
            if encrypted_key.is_none() {
                *encrypted_key = Some(p.clone());
            }
        },
        _ => {},
    }
}

/// One key file to try, and whether a lock on it is worth a passphrase
/// prompt.
#[derive(Debug, Clone, PartialEq, Eq)]
pub struct KeyAttempt {
    pub path: String,
    pub notes_lock: bool,
}

/// The key files a login tries after the agent, in order: the host's
/// identity file, then the default keys that exist. A locked default key is
/// worth a prompt only without an identity file: ssh(1) would not offer it
/// then.
pub open spec fn key_attempts_of(identity_file: Option<Seq<char>>, present: Seq<Seq<char>>) -> Seq<(Seq<char>, bool)> {
    let first = match identity_file {
        Some(p) => seq![(p, true)],
        None => Seq::empty(),
    };
    first + present.map_values(|p: Seq<char>| (p, identity_file is None))
}

/// The key files to try, from the host's identity file and the default keys
/// found on disk.
pub fn key_attempts(identity_file: &Option<String>, present: &Vec<String>) -> (r: Vec<KeyAttempt>)
    ensures
        r@.map_values(|a: KeyAttempt| (a.path@, a.notes_lock)) == key_attempts_of(
            match identity_file {
                Some(p) => Some(p@),
                None => None,
            },
            present@.map_values(|p: String| p@),
        ),
{
    let ghost want = key_attempts_of(
        match identity_file {
            Some(p) => Some(p@),
            None => None,
        },
        present@.map_values(|p: String| p@),
    );
    let mut r: Vec<KeyAttempt> = Vec::new();
    let first: usize = match identity_file {
        Some(p) => {
            r.push(KeyAttempt { path: p.clone(), notes_lock: true });
            1
        },
        None => 0,
    };
    let notes = identity_file.is_none();
    let mut i: usize = 0;
    while i < present.len()
        invariant
            i <= present@.len(),
            first <= 1,
            first == 1 <==> identity_file is Some,
            notes == identity_file is None,
            want == key_attempts_of(
                match identity_file {
                    Some(p) => Some(p@),
                    None => None,
                },
                present@.map_values(|p: String| p@),
            ),
            r@.len() == first + i,
            forall|k: int| 0 <= k < r@.len() ==> ((#[trigger] r@[k]).path@, r@[k].notes_lock) == want[k],
        decreases present.len() - i,
    {
        r.push(KeyAttempt { path: present[i].clone(), notes_lock: notes });
        i = i + 1;
    }
    assert(r@.map_values(|a: KeyAttempt| (a.path@, a.notes_lock)) =~= want);
    r
}

/// What the SSH agent signed, if it is usable: a reply as long as the request
/// is one the transport could not read, and comes back unchanged. An
/// unusable or missing signature hands the request back unsigned, so nothing
/// is sent and the login moves on to the other methods.
pub fn agent_signature(reply: Option<Vec<u8>>, request_len: usize) -> (r: Option<Vec<u8>>)
    ensures
        match reply {
            Some(d) => if d@.len() != request_len {
                r == Some(d)
            } else {
                r is None
            },
            None => r is None,
        },
{
    match reply {
        Some(d) => if d.len() != request_len {
            Some(d)
        } else {
            None
        },
        None => None,
    }
}

// ---------------------------------------------------------------------------
// Offering a password
// ---------------------------------------------------------------------------

/// Where an offered password got in, if anywhere.
#[derive(Debug, Clone, Copy, PartialEq, Eq, Structural)]
pub enum Offer {
    /// On the connection it was offered on.
    Here,
    /// On a fresh connection, by keyboard-interactive.
    There,
    No,
}

/// What offering a password does next.
#[derive(Debug, Clone, Copy, PartialEq, Eq, Structural)]
pub enum OfferStep {
    /// Try the password method on the connection at hand.
    PasswordHere,
    /// Open a fresh connection to the same hop.
    Dial,
    /// Keyboard-interactive on the fresh connection: some servers take only
    /// that, and it works only as a connection's first method.
    KeyboardInteractive,
    /// The password method on the fresh connection.
    PasswordThere,
    Done(Offer),
}

/// Offering a password the way ssh(1) does: by the password method, then by
/// keyboard-interactive on a fresh connection. Where the server already hung
/// up, the password method runs on the fresh connection too.
#[derive(Debug, Clone, Copy, PartialEq, Eq, Structural)]
pub struct OfferFlow {
    /// Whether the connection at hand was still open, so the password
    /// method was tried there.
    pub offered: bool,
    pub step: OfferStep,
}

impl OfferFlow {
    /// The first step, given whether the connection at hand is still open.
    pub fn start(link_open: bool) -> (f: OfferFlow)
        ensures
            f.offered == link_open,
            f.step == if link_open { OfferStep::PasswordHere } else { OfferStep::Dial },
    {
        OfferFlow { offered: link_open, step: if link_open { OfferStep::PasswordHere } else { OfferStep::Dial } }
    }

    /// The step after the current one went `ok` (it got in, or the dial
    /// worked).
    pub fn next(self, ok: bool) -> (f: OfferFlow)
        ensures
            f.offered == self.offered,
            f.step == match self.step {
                OfferStep::PasswordHere => if ok { OfferStep::Done(Offer::Here) } else { OfferStep::Dial },
                OfferStep::Dial => if ok { OfferStep::KeyboardInteractive } else { OfferStep::Done(Offer::No) },
                OfferStep::KeyboardInteractive => if ok {
                    OfferStep::Done(Offer::There)
                } else if !self.offered {
                    OfferStep::PasswordThere
                } else {
                    OfferStep::Done(Offer::No)
                },
                OfferStep::PasswordThere => if ok { OfferStep::Done(Offer::There) } else { OfferStep::Done(Offer::No) },
                OfferStep::Done(o) => OfferStep::Done(o),
            },
    {
        let step = match self.step {
            OfferStep::PasswordHere => if ok { OfferStep::Done(Offer::Here) } else { OfferStep::Dial },
            OfferStep::Dial => if ok { OfferStep::KeyboardInteractive } else { OfferStep::Done(Offer::No) },
            OfferStep::KeyboardInteractive => if ok {
                OfferStep::Done(Offer::There)
            } else if !self.offered {
                OfferStep::PasswordThere
            } else {
                OfferStep::Done(Offer::No)
            },
            OfferStep::PasswordThere => if ok { OfferStep::Done(Offer::There) } else { OfferStep::Done(Offer::No) },
            OfferStep::Done(o) => OfferStep::Done(o),
        };
        OfferFlow { offered: self.offered, step }
    }
}

/// Rounds of server prompts one keyboard-interactive login may take.
pub const KBD_ROUNDS: usize = 4;

/// What a keyboard-interactive request came back with.
#[derive(Debug, Clone, PartialEq, Eq)]
pub enum KbdReply {
    Success,
    /// Another round of questions.
    InfoRequest(Vec<KbdPrompt>),
    /// Refused, failed or timed out.
    Failure,
}

/// What a keyboard-interactive login does next.
#[derive(Debug, Clone, PartialEq, Eq)]
pub enum KbdNext {
    /// Send these answers.
    Respond(Vec<String>),
    /// Finished: whether it got in.
    Done(bool),
}

/// A keyboard-interactive login answering the server's password prompt.
pub struct KbdLogin<'a> {
    /// The password, until it is spent on a lone hidden prompt.
    pub password: Option<&'a str>,
    /// Rounds answered so far.
    pub rounds: usize,
}

impl<'a> KbdLogin<'a> {
    /// A login that will answer with `password`.
    pub fn new(password: &'a str) -> (l: KbdLogin<'a>)
        ensures
            l.password == Some(password),
            l.rounds == 0,
    {
        KbdLogin { password: Some(password), rounds: 0 }
    }

    /// Takes in the server's reply. After [`KBD_ROUNDS`] rounds the login
    /// gives up, whatever came back. Every round of questions is answered:
    /// the server waits for the answers and takes nothing else meanwhile.
    pub fn on_reply(&mut self, reply: &KbdReply) -> (n: KbdNext)
        requires
            old(self).rounds <= KBD_ROUNDS,
        ensures
            final(self).rounds <= KBD_ROUNDS,
            old(self).rounds == KBD_ROUNDS ==> n == KbdNext::Done(false) && *final(self) == *old(self),
            old(self).rounds < KBD_ROUNDS ==> match reply {
                KbdReply::Success => n == KbdNext::Done(true) && *final(self) == *old(self),
                KbdReply::Failure => n == KbdNext::Done(false) && *final(self) == *old(self),
                KbdReply::InfoRequest(prompts) => final(self).rounds == old(self).rounds + 1 && (
                n matches KbdNext::Respond(answers) && answers@.len() == prompts@.len() && if prompts@.len()
                    == 1 && !prompts@[0].echo {
                    final(self).password is None && match old(self).password {
                        Some(p) => answers@[0]@ == p@,
                        None => answers@[0]@ == Seq::<char>::empty(),
                    }
                } else {
                    final(self).password == old(self).password && forall|i: int|
                        0 <= i < answers@.len() ==> (#[trigger] answers@[i])@ == Seq::<char>::empty()
                }),
            },
    {
        if self.rounds == KBD_ROUNDS {
            return KbdNext::Done(false);
        }
        match reply {
            KbdReply::Success => KbdNext::Done(true),
            KbdReply::Failure => KbdNext::Done(false),
            KbdReply::InfoRequest(prompts) => {
                self.rounds = self.rounds + 1;
                KbdNext::Respond(kbd_answers(prompts.as_slice(), &mut self.password))
            },
        }
    }
}

// ---------------------------------------------------------------------------
// The jump chain
// ---------------------------------------------------------------------------

/// One connection of a login through bastions.
#[derive(Debug, Clone, PartialEq, Eq)]
pub struct HopPlan {
    /// The bastion's index in the chain, or `None` for the target.
    pub bastion: Option<usize>,
    /// The key typed passwords for this hop are remembered under.
    pub key: String,
    /// Whether it rides the previous hop rather than a direct connection.
    pub tunnelled: bool,
    /// What its failure is prefixed with, if anything.
    pub context: Option<String>,
}

/// "ProxyJump via 'name' failed".
pub open spec fn bastion_context(name: Seq<char>) -> Seq<char> {
    "ProxyJump via '"@ + name + "' failed"@
}

/// "connecting via 'name' failed".
pub open spec fn target_context(name: Seq<char>) -> Seq<char> {
    "connecting via '"@ + name + "' failed"@
}

/// The connections a login to `host` through `chain` makes, in order: each
/// bastion outward — the first direct, every later one through the one before
/// — then the target through the last bastion, or direct without one.
pub fn connect_plan(host: &Host, chain: &[Host]) -> (r: Vec<HopPlan>)
    ensures
        r@.len() == chain@.len() + 1,
        forall|i: int| 0 <= i < chain@.len() ==> {
            let p = #[trigger] r@[i];
            &&& p.bastion == Some(i as usize)
            &&& p.key@ == login_key_of(chain@[i]@, crate::client::host_views(chain@.subrange(0, i)))
            &&& p.tunnelled == (i > 0)
            &&& p.context matches Some(c) && c@ == bastion_context(chain@[i]@.name)
        },
        ({
            let t = r@[chain@.len() as int];
            &&& t.bastion is None
            &&& t.key@ == login_key_of(host@, crate::client::host_views(chain@))
            &&& t.tunnelled == (chain@.len() > 0)
            &&& if chain@.len() > 0 {
                t.context matches Some(c) && c@ == target_context(chain@.last()@.name)
            } else {
                t.context is None
            }
        }),
{
    let mut r: Vec<HopPlan> = Vec::new();
    let mut i: usize = 0;
    while i < chain.len()
        invariant
            i <= chain@.len(),
            r@.len() == i,
            forall|k: int| 0 <= k < i ==> {
                let p = #[trigger] r@[k];
                &&& p.bastion == Some(k as usize)
                &&& p.key@ == login_key_of(chain@[k]@, crate::client::host_views(chain@.subrange(0, k)))
                &&& p.tunnelled == (k > 0)
                &&& p.context matches Some(c) && c@ == bastion_context(chain@[k]@.name)
            },
        decreases chain.len() - i,
    {
        let before = crate::text::slice_prefix(chain, i);
        let key = login_key(&chain[i], before);
        let mut context = String::from_str("ProxyJump via '");
        context.append(chain[i].name.as_str());
        context.append("' failed");
        r.push(HopPlan { bastion: Some(i), key, tunnelled: i > 0, context: Some(context) });
        i = i + 1;
    }
    let key = login_key(host, chain);
    let context = if chain.len() > 0 {
        let mut c = String::from_str("connecting via '");
        c.append(chain[chain.len() - 1].name.as_str());
        c.append("' failed");
        Some(c)
    } else {
        None
    };
    r.push(HopPlan { bastion: None, key, tunnelled: chain.len() > 0, context });
    r
}

} // verus!
