//! What a connection tries, in order, once no key got in: the passwords it
//! knows, then — where the user is watching — the ones the user types, and
//! what the failure says when nothing got in.
//!
//! Passwords go last: keys are what users are steered towards. A password
//! typed this session goes before the saved one, being newer; one the server
//! refuses is forgotten. The flow is a state machine: the caller performs
//! each step (offering a password, asking the user, looking at the link) and
//! hands back what came of it.

use vstd::prelude::*;
use crate::client::Host;
use crate::session::{
    locked_message, Cause, CauseView, ConnectError, PassphraseRequired, PasswordRequired, Refused,
};

verus! {

/// Which login passwords a connection may use.
#[derive(Debug, Clone, Copy, PartialEq, Eq, Structural)]
pub enum PasswordUse {
    /// The host's saved password and one typed for the login this session.
    /// Background work: pollers, tunnels that retry, snippets.
    Remembered,
    /// The host's saved password only. Key setup checks a new key this way: a
    /// remembered password would let a broken key pass.
    SavedOnly,
    /// As `Remembered`, then ask the user: a connection the user started and
    /// is watching.
    Ask,
}

/// How many passwords the user may type for one login before it fails.
pub const PASSWORD_PROMPTS: usize = 3;

/// Where the flow stands.
#[derive(Debug, Clone, PartialEq, Eq)]
pub enum AuthStage {
    /// The known passwords from this index on are still to offer.
    Offering(usize),
    /// The known password at this index is on offer.
    OfferingAt(usize),
    /// Waiting for the user's answer; this many answers were refused.
    Asking(usize),
    /// The user's answer is on offer; this many answers were refused before.
    TryingAnswer(usize, String),
    /// Looking at whether the server hung up on us.
    CheckingHangUp,
    Finished,
}

/// What came of the last step.
#[derive(Debug, Clone, PartialEq, Eq)]
pub enum AuthEvent {
    /// Go on: at the start, and after a forgotten password.
    Continue,
    /// A password was offered; whether it got in.
    Offered(bool),
    /// What the user typed, or `None` for a cancel.
    Answered(Option<String>),
    /// Whether the link is closed, and whether the server ended it itself.
    HangUp { closed: bool, hung_up: bool },
}

/// What to do next.
#[derive(Debug, Clone, PartialEq, Eq)]
pub enum AuthStep {
    /// Offer this password (by the password method, then
    /// keyboard-interactive).
    Offer(String),
    /// The typed password was refused: forget it, then go on.
    Forget(String),
    /// Ask the user for the password of `login`; `retry` says one was refused.
    Ask { login: String, retry: bool },
    /// Look at whether the server hung up, as the last word on the failure.
    CheckHangUp,
    /// Logged in; remember the password the user typed, if it was one.
    LoggedIn(Option<String>),
    /// Nothing got in.
    Fail(ConnectError),
}

/// The passwords a connection knows, in the order they are offered, each with
/// whether it was typed this session: the typed one — unless only the saved
/// one may be used — then the saved one unless it is the same.
pub open spec fn candidates_of(
    mode: PasswordUse,
    typed: Option<Seq<char>>,
    saved: Option<Seq<char>>,
) -> Seq<(Seq<char>, bool)> {
    let t = if mode == PasswordUse::SavedOnly {
        None
    } else {
        typed
    };
    let first = match t {
        Some(p) => seq![(p, true)],
        None => Seq::empty(),
    };
    match saved {
        Some(s) => if t == Some(s) {
            first
        } else {
            first.push((s, false))
        },
        None => first,
    }
}

/// The flow for one login.
pub struct AuthFlow {
    /// The host's name, for messages.
    pub host_name: String,
    /// `user@hostname`, as the user is asked for it.
    pub login: String,
    /// The key typed passwords are remembered under.
    pub key: String,
    pub mode: PasswordUse,
    /// An encrypted key skipped for want of its passphrase.
    pub encrypted_key: Option<String>,
    /// The passwords known, in order, each with whether it was typed.
    pub candidates: Vec<(String, bool)>,
    /// Whether any password was known.
    pub known: bool,
    pub stage: AuthStage,
}

/// The plain value of an [`AuthStage`].
pub enum StageView {
    Offering(int),
    OfferingAt(int),
    Asking(int),
    TryingAnswer(int, Seq<char>),
    CheckingHangUp,
    Finished,
}

/// The plain value of an [`AuthStep`].
pub enum StepView {
    Offer(Seq<char>),
    Forget(Seq<char>),
    Ask { login: Seq<char>, retry: bool },
    CheckHangUp,
    LoggedIn(Option<Seq<char>>),
    Fail(Seq<CauseView>),
}

/// The plain value of an [`AuthEvent`].
pub enum EventView {
    Continue,
    Offered(bool),
    Answered(Option<Seq<char>>),
    HangUp { closed: bool, hung_up: bool },
}

/// The plain value of an [`AuthFlow`].
pub struct FlowView {
    pub host_name: Seq<char>,
    pub login: Seq<char>,
    pub key: Seq<char>,
    pub mode: PasswordUse,
    pub encrypted_key: Option<Seq<char>>,
    pub candidates: Seq<(Seq<char>, bool)>,
    pub known: bool,
    pub stage: StageView,
}

impl View for AuthStage {
    type V = StageView;

    open spec fn view(&self) -> StageView {
        match self {
            AuthStage::Offering(i) => StageView::Offering(*i as int),
            AuthStage::OfferingAt(i) => StageView::OfferingAt(*i as int),
            AuthStage::Asking(n) => StageView::Asking(*n as int),
            AuthStage::TryingAnswer(n, p) => StageView::TryingAnswer(*n as int, p@),
            AuthStage::CheckingHangUp => StageView::CheckingHangUp,
            AuthStage::Finished => StageView::Finished,
        }
    }
}

impl View for AuthStep {
    type V = StepView;

    open spec fn view(&self) -> StepView {
        match self {
            AuthStep::Offer(p) => StepView::Offer(p@),
            AuthStep::Forget(p) => StepView::Forget(p@),
            AuthStep::Ask { login, retry } => StepView::Ask { login: login@, retry: *retry },
            AuthStep::CheckHangUp => StepView::CheckHangUp,
            AuthStep::LoggedIn(p) => StepView::LoggedIn(
                match p {
                    Some(s) => Some(s@),
                    None => None,
                },
            ),
            AuthStep::Fail(e) => StepView::Fail(e@),
        }
    }
}

impl View for AuthEvent {
    type V = EventView;

    open spec fn view(&self) -> EventView {
        match self {
            AuthEvent::Continue => EventView::Continue,
            AuthEvent::Offered(b) => EventView::Offered(*b),
            AuthEvent::Answered(a) => EventView::Answered(
                match a {
                    Some(s) => Some(s@),
                    None => None,
                },
            ),
            AuthEvent::HangUp { closed, hung_up } => EventView::HangUp {
                closed: *closed,
                hung_up: *hung_up,
            },
        }
    }
}

pub open spec fn pair_views(s: Seq<(String, bool)>) -> Seq<(Seq<char>, bool)> {
    s.map_values(|e: (String, bool)| (e.0@, e.1))
}

impl View for AuthFlow {
    type V = FlowView;

    open spec fn view(&self) -> FlowView {
        FlowView {
            host_name: self.host_name@,
            login: self.login@,
            key: self.key@,
            mode: self.mode,
            encrypted_key: match self.encrypted_key {
                Some(p) => Some(p@),
                None => None,
            },
            candidates: pair_views(self.candidates@),
            known: self.known,
            stage: self.stage@,
        }
    }
}

/// "SSH authentication failed for `name`".
pub open spec fn failed_message(name: Seq<char>) -> Seq<char> {
    "SSH authentication failed for "@ + name
}

/// Why a login with nothing to try failed.
pub open spec fn missing_message(name: Seq<char>) -> Seq<char> {
    failed_message(name) + ": no key was accepted and no password is saved"@
}

/// "SSH login cancelled for `name`".
pub open spec fn cancelled_message(name: Seq<char>) -> Seq<char> {
    "SSH login cancelled for "@ + name
}

/// Where the flow goes once the known passwords are spent: a locked key asks
/// for its passphrase; a watched connection asks the user; a login with no
/// password at all says one is missing; else the link decides.
pub open spec fn after_known(v: FlowView) -> (StageView, StepView) {
    match v.encrypted_key {
        Some(path) => (
            StageView::Finished,
            StepView::Fail(seq![CauseView::PassphraseRequired { path, message: locked_message(path) }]),
        ),
        None => if v.mode == PasswordUse::Ask {
            (StageView::Asking(0), StepView::Ask { login: v.login, retry: v.known })
        } else if !v.known && v.mode != PasswordUse::SavedOnly {
            (
                StageView::Finished,
                StepView::Fail(
                    seq![CauseView::PasswordRequired { login: v.key, message: missing_message(v.host_name) }],
                ),
            )
        } else {
            (StageView::CheckingHangUp, StepView::CheckHangUp)
        },
    }
}

/// The next stage and step, from the flow `v` and what came of its last step.
/// An event the stage does not wait for ends the flow as failed.
pub open spec fn transition(v: FlowView, e: EventView) -> (StageView, StepView) {
    let failed = (
        StageView::Finished,
        StepView::Fail(seq![CauseView::Refused(failed_message(v.host_name))]),
    );
    let offer_next = |i: int|
        if i < v.candidates.len() {
            (StageView::OfferingAt(i), StepView::Offer(v.candidates[i].0))
        } else {
            after_known(v)
        };
    match (v.stage, e) {
        (StageView::Offering(i), EventView::Continue) => offer_next(i),
        (StageView::OfferingAt(i), EventView::Offered(got_in)) => if got_in {
            (StageView::Finished, StepView::LoggedIn(None))
        } else if 0 <= i < v.candidates.len() && v.candidates[i].1 {
            (StageView::Offering(i + 1), StepView::Forget(v.candidates[i].0))
        } else {
            offer_next(i + 1)
        },
        (StageView::Asking(n), EventView::Answered(a)) => match a {
            None => (
                StageView::Finished,
                StepView::Fail(seq![CauseView::Refused(cancelled_message(v.host_name))]),
            ),
            Some(p) => (StageView::TryingAnswer(n, p), StepView::Offer(p)),
        },
        (StageView::TryingAnswer(n, p), EventView::Offered(got_in)) => if got_in {
            (StageView::Finished, StepView::LoggedIn(Some(p)))
        } else if n + 1 < PASSWORD_PROMPTS {
            (StageView::Asking(n + 1), StepView::Ask { login: v.login, retry: true })
        } else {
            failed
        },
        (StageView::CheckingHangUp, EventView::HangUp { closed, hung_up }) => (
            StageView::Finished,
            StepView::Fail(
                seq![
                    if closed && !hung_up {
                        CauseView::Other(failed_message(v.host_name))
                    } else {
                        CauseView::Refused(failed_message(v.host_name))
                    },
                ],
            ),
        ),
        _ => failed,
    }
}

fn message_with(prefix: &str, name: &String) -> (m: String)
    ensures
        m@ == prefix@ + name@,
{
    let mut m = String::from_str(prefix);
    m.append(name.as_str());
    m
}

impl AuthFlow {
    /// Whether the flow is well formed: at most the typed and the saved
    /// password are known, and the stage's indices are within bounds.
    pub open spec fn wf(&self) -> bool {
        &&& self.candidates@.len() <= 2
        &&& match self.stage {
            AuthStage::Offering(i) => i <= self.candidates@.len(),
            AuthStage::OfferingAt(i) => i < self.candidates@.len(),
            AuthStage::Asking(n) => n < PASSWORD_PROMPTS,
            AuthStage::TryingAnswer(n, _) => n < PASSWORD_PROMPTS,
            _ => true,
        }
    }

    /// The flow for logging in to `host` under the password key `key`, after
    /// no key got in. `encrypted_key` is a key skipped for want of its
    /// passphrase; `typed` the password typed for the login this session.
    pub fn start(
        host: &Host,
        key: String,
        mode: PasswordUse,
        encrypted_key: Option<String>,
        typed: Option<String>,
    ) -> (f: AuthFlow)
        ensures
            f.wf(),
            f@.host_name == host@.name,
            f@.login == host@.user + "@"@ + host@.hostname,
            f@.key == key@,
            f@.mode == mode,
            f@.encrypted_key == match encrypted_key {
                Some(p) => Some(p@),
                None => None::<Seq<char>>,
            },
            f@.candidates == candidates_of(
                mode,
                match typed {
                    Some(p) => Some(p@),
                    None => None,
                },
                match host.password {
                    Some(p) => Some(p@),
                    None => None,
                },
            ),
            f@.known == (f@.candidates.len() > 0),
            f@.stage == StageView::Offering(0),
    {
        let mut login = host.user.clone();
        login.append("@");
        login.append(host.hostname.as_str());
        let t = match mode {
            PasswordUse::SavedOnly => None,
            _ => typed,
        };
        let mut candidates: Vec<(String, bool)> = Vec::new();
        let same = match (&t, &host.password) {
            (Some(a), Some(b)) => a.eq(b),
            _ => false,
        };
        match t {
            Some(p) => candidates.push((p, true)),
            None => {},
        }
        if !same {
            match &host.password {
                Some(s) => candidates.push((s.clone(), false)),
                None => {},
            }
        }
        let known = candidates.len() > 0;
        let f = AuthFlow {
            host_name: host.name.clone(),
            login,
            key,
            mode,
            encrypted_key,
            candidates,
            known,
            stage: AuthStage::Offering(0),
        };
        assert(f@.candidates =~= candidates_of(
            mode,
            match typed {
                Some(p) => Some(p@),
                None => None,
            },
            match host.password {
                Some(p) => Some(p@),
                None => None,
            },
        ));
        f
    }

    fn after_known(&mut self) -> (r: AuthStep)
        requires
            old(self).wf(),
        ensures
            final(self).wf(),
            (final(self)@.stage, r@) == after_known(old(self)@),
            final(self)@.candidates == old(self)@.candidates,
            final(self)@.host_name == old(self)@.host_name,
            final(self)@.login == old(self)@.login,
            final(self)@.key == old(self)@.key,
            final(self)@.mode == old(self)@.mode,
            final(self)@.encrypted_key == old(self)@.encrypted_key,
            final(self)@.known == old(self)@.known,
    {
        match &self.encrypted_key {
            Some(path) => {
                let p = PassphraseRequired::new(path.clone());
                self.stage = AuthStage::Finished;
                AuthStep::Fail(ConnectError::new(Cause::PassphraseRequired(p)))
            },
            None => {
                if self.mode == PasswordUse::Ask {
                    self.stage = AuthStage::Asking(0);
                    AuthStep::Ask { login: self.login.clone(), retry: self.known }
                } else if !self.known && self.mode != PasswordUse::SavedOnly {
                    let mut message = message_with("SSH authentication failed for ", &self.host_name);
                    message.append(": no key was accepted and no password is saved");
                    self.stage = AuthStage::Finished;
                    AuthStep::Fail(
                        ConnectError::new(
                            Cause::PasswordRequired(PasswordRequired { login: self.key.clone(), message }),
                        ),
                    )
                } else {
                    self.stage = AuthStage::CheckingHangUp;
                    AuthStep::CheckHangUp
                }
            },
        }
    }

    fn offer_from(&mut self, i: usize) -> (r: AuthStep)
        requires
            old(self).wf(),
            i <= old(self).candidates@.len(),
        ensures
            final(self).wf(),
            (final(self)@.stage, r@) == (if i < old(self)@.candidates.len() {
                (StageView::OfferingAt(i as int), StepView::Offer(old(self)@.candidates[i as int].0))
            } else {
                after_known(old(self)@)
            }),
            final(self)@.candidates == old(self)@.candidates,
            final(self)@.host_name == old(self)@.host_name,
            final(self)@.login == old(self)@.login,
            final(self)@.key == old(self)@.key,
            final(self)@.mode == old(self)@.mode,
            final(self)@.encrypted_key == old(self)@.encrypted_key,
            final(self)@.known == old(self)@.known,
    {
        if i < self.candidates.len() {
            self.stage = AuthStage::OfferingAt(i);
            AuthStep::Offer(self.candidates[i].0.clone())
        } else {
            self.after_known()
        }
    }

    fn fail_refused(&mut self) -> (r: AuthStep)
        ensures
            final(self)@.stage == StageView::Finished,
            r@ == StepView::Fail(seq![CauseView::Refused(failed_message(old(self)@.host_name))]),
            final(self).candidates == old(self).candidates,
            final(self).host_name == old(self).host_name,
            final(self).login == old(self).login,
            final(self).key == old(self).key,
            final(self).mode == old(self).mode,
            final(self).encrypted_key == old(self).encrypted_key,
            final(self).known == old(self).known,
    {
        let m = message_with("SSH authentication failed for ", &self.host_name);
        self.stage = AuthStage::Finished;
        AuthStep::Fail(ConnectError::new(Cause::Refused(Refused(m))))
    }

    /// Takes in what came of the last step and says what to do next.
    pub fn advance(&mut self, event: AuthEvent) -> (r: AuthStep)
        requires
            old(self).wf(),
        ensures
            final(self).wf(),
            (final(self)@.stage, r@) == transition(old(self)@, event@),
            final(self)@.candidates == old(self)@.candidates,
            final(self)@.host_name == old(self)@.host_name,
            final(self)@.login == old(self)@.login,
            final(self)@.key == old(self)@.key,
            final(self)@.mode == old(self)@.mode,
            final(self)@.encrypted_key == old(self)@.encrypted_key,
            final(self)@.known == old(self)@.known,
    {
        let mut stage = AuthStage::Finished;
        std::mem::swap(&mut stage, &mut self.stage);
        match (stage, event) {
            (AuthStage::Offering(i), AuthEvent::Continue) => self.offer_from(i),
            (AuthStage::OfferingAt(i), AuthEvent::Offered(got_in)) => {
                if got_in {
                    self.stage = AuthStage::Finished;
                    AuthStep::LoggedIn(None)
                } else if self.candidates[i].1 {
                    self.stage = AuthStage::Offering(i + 1);
                    AuthStep::Forget(self.candidates[i].0.clone())
                } else {
                    self.offer_from(i + 1)
                }
            },
            (AuthStage::Asking(n), AuthEvent::Answered(a)) => match a {
                None => {
                    let m = message_with("SSH login cancelled for ", &self.host_name);
                    self.stage = AuthStage::Finished;
                    AuthStep::Fail(ConnectError::new(Cause::Refused(Refused(m))))
                },
                Some(p) => {
                    let offered = p.clone();
                    self.stage = AuthStage::TryingAnswer(n, p);
                    AuthStep::Offer(offered)
                },
            },
            (AuthStage::TryingAnswer(n, p), AuthEvent::Offered(got_in)) => {
                if got_in {
                    self.stage = AuthStage::Finished;
                    AuthStep::LoggedIn(Some(p))
                } else if n + 1 < PASSWORD_PROMPTS {
                    self.stage = AuthStage::Asking(n + 1);
                    AuthStep::Ask { login: self.login.clone(), retry: true }
                } else {
                    self.fail_refused()
                }
            },
            (AuthStage::CheckingHangUp, AuthEvent::HangUp { closed, hung_up }) => {
                let m = message_with("SSH authentication failed for ", &self.host_name);
                self.stage = AuthStage::Finished;
                if closed && !hung_up {
                    AuthStep::Fail(ConnectError::new(Cause::Other(m)))
                } else {
                    AuthStep::Fail(ConnectError::new(Cause::Refused(Refused(m))))
                }
            },
            _ => self.fail_refused(),
        }
    }
}

/// A password is offered once per login: the known passwords are distinct, so
/// a saved password the server refused as the typed one is not sent again.
pub proof fn law_known_passwords_are_distinct(
    mode: PasswordUse,
    typed: Option<Seq<char>>,
    saved: Option<Seq<char>>,
)
    ensures
        ({
            let c = candidates_of(mode, typed, saved);
            &&& c.len() <= 2
            &&& forall|a: int, b: int| 0 <= a < b < c.len() ==> c[a].0 != c[b].0
            &&& mode == PasswordUse::SavedOnly ==> forall|k: int| 0 <= k < c.len() ==> !c[k].1
        }),
{
}

/// The user is asked at most [`PASSWORD_PROMPTS`] times: a refused answer at
/// the last prompt ends the login as refused.
pub proof fn law_asks_are_bounded(v: FlowView, p: Seq<char>)
    requires
        v.stage == StageView::TryingAnswer(PASSWORD_PROMPTS - 1, p),
    ensures
        transition(v, EventView::Offered(false)) == (
            StageView::Finished,
            StepView::Fail(seq![CauseView::Refused(failed_message(v.host_name))]),
        ),
{
}

/// A login with nothing to try says what is missing: with no key locked, no
/// password known and no one to ask, it fails for want of a password, under
/// the login's key — unless only the saved password could be used.
pub proof fn law_nothing_to_try_says_what_is_missing(v: FlowView)
    requires
        v.encrypted_key is None,
        v.candidates.len() == 0,
        !v.known,
        v.mode == PasswordUse::Remembered,
        v.stage == StageView::Offering(0),
    ensures
        transition(v, EventView::Continue) == (
            StageView::Finished,
            StepView::Fail(
                seq![CauseView::PasswordRequired { login: v.key, message: missing_message(v.host_name) }],
            ),
        ),
{
}

/// Outside `SavedOnly`, a password typed this session for the login is the
/// first one offered, marked as typed; the saved password follows unless it
/// is the same; `SavedOnly` offers the saved password alone.
pub proof fn law_a_typed_password_goes_first(
    mode: PasswordUse,
    typed: Option<Seq<char>>,
    saved: Option<Seq<char>>,
)
    ensures
        ({
            let c = candidates_of(mode, typed, saved);
            &&& mode != PasswordUse::SavedOnly && typed is Some ==> c.len() > 0 && c[0] == (typed->0, true)
            &&& mode != PasswordUse::SavedOnly && typed is Some && saved is Some && saved != typed
                ==> c.len() == 2 && c[1] == (saved->0, false)
            &&& (mode == PasswordUse::SavedOnly || typed is None) ==> c == match saved {
                Some(s) => seq![(s, false)],
                None => Seq::<(Seq<char>, bool)>::empty(),
            }
            &&& forall|k: int| 0 <= k < c.len() ==> ((#[trigger] c[k]).0 == typed->0 && typed is Some)
                || (saved is Some && c[k].0 == saved->0)
        }),
{
}

/// A flow that knows a password offers it first, whatever the mode: the first
/// step of a login with a typed password — watched or not — offers that
/// password before anyone is asked.
pub proof fn law_a_known_password_is_offered_before_asking(v: FlowView, p: Seq<char>)
    requires
        v.stage == StageView::Offering(0),
        v.mode != PasswordUse::SavedOnly,
        v.candidates == candidates_of(v.mode, Some(p), None),
    ensures
        transition(v, EventView::Continue) == (StageView::OfferingAt(0), StepView::Offer(p)),
{
    law_a_typed_password_goes_first(v.mode, Some(p), None);
}

} // verus!
