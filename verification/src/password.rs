//! Login passwords typed at a prompt, and the prompts waiting for one.
//!
//! A password is kept in memory only, and only once a server has accepted it.
//! It is keyed by the login it was typed for — user, host, port and the
//! bastions on the way — so it is never offered to another server that shares
//! an address behind a different bastion.
//!
//! A prompt waiting for its answer is kept under a request id, together with
//! the reply handle `R` that the answer goes back through.

use vstd::prelude::*;
use crate::keyed::Table;
use crate::registry::Registry;

verus! {

/// An answer that has no prompt to go to.
#[derive(Debug, Clone, Copy, PartialEq, Eq, Structural)]
pub enum PasswordError {
    /// The request was answered already, or its connection stopped waiting.
    NotRequested,
}

impl PasswordError {
    /// What the error says.
    pub fn message(&self) -> (m: String)
        ensures
            m@ == "no login is waiting for this password"@,
    {
        String::from_str("no login is waiting for this password")
    }
}

/// The passwords servers accepted this session, and the prompts still open.
pub struct PasswordBook<R> {
    accepted: Table,
    pending: Registry<R>,
}

/// The plain value of a [`PasswordBook`].
pub struct BookView<R> {
    /// Accepted passwords, by login key.
    pub accepted: Map<Seq<char>, Seq<char>>,
    /// Open prompts' reply handles, by request id.
    pub pending: Map<u64, R>,
    /// The last request id handed out.
    pub last_request: u64,
}

impl<R> View for PasswordBook<R> {
    type V = BookView<R>;

    closed spec fn view(&self) -> BookView<R> {
        BookView {
            accepted: self.accepted@,
            pending: self.pending@.items,
            last_request: self.pending@.last_id,
        }
    }
}

/// The accepted passwords after `password` was turned down for `key`: it goes,
/// unless a newer one took its place meanwhile.
pub open spec fn forgotten(
    accepted: Map<Seq<char>, Seq<char>>,
    key: Seq<char>,
    password: Seq<char>,
) -> Map<Seq<char>, Seq<char>> {
    if accepted.contains_key(key) && accepted[key] == password {
        accepted.remove(key)
    } else {
        accepted
    }
}

impl<R> PasswordBook<R> {
    /// Whether the open prompts are well formed.
    pub closed spec fn wf(&self) -> bool {
        self.pending.wf()
    }

    /// A book with nothing accepted and no prompt open.
    pub fn new() -> (b: PasswordBook<R>)
        ensures
            b.wf(),
            b@.accepted == Map::<Seq<char>, Seq<char>>::empty(),
            b@.pending == Map::<u64, R>::empty(),
            b@.last_request == 0,
    {
        PasswordBook { accepted: Table::new(), pending: Registry::new() }
    }

    /// The last request id handed out; `0` before the first.
    pub fn last_request(&self) -> (id: u64)
        requires
            self.wf(),
        ensures
            id == self@.last_request,
    {
        self.pending.last_id()
    }

    /// Opens a prompt whose answer goes back through `reply`, under a request
    /// id no open prompt has: the one after the last handed out.
    pub fn open_prompt(&mut self, reply: R) -> (id: u64)
        requires
            old(self).wf(),
            old(self)@.last_request < u64::MAX,
        ensures
            final(self).wf(),
            id == old(self)@.last_request + 1,
            !old(self)@.pending.contains_key(id),
            final(self)@.pending == old(self)@.pending.insert(id, reply),
            final(self)@.last_request == id,
            final(self)@.accepted == old(self)@.accepted,
    {
        self.pending.insert(reply)
    }

    /// Takes the prompt `request_id` down, if it is still open, and says
    /// whether it was: a connection that stopped waiting takes its prompt down.
    pub fn close_prompt(&mut self, request_id: u64) -> (was_open: bool)
        requires
            old(self).wf(),
        ensures
            final(self).wf(),
            was_open == old(self)@.pending.contains_key(request_id),
            final(self)@.pending == old(self)@.pending.remove(request_id),
            final(self)@.last_request == old(self)@.last_request,
            final(self)@.accepted == old(self)@.accepted,
    {
        self.pending.remove(request_id).is_some()
    }
}

/// The password a server accepted for `key` this session, if any.
pub fn accepted<R>(book: &PasswordBook<R>, key: &String) -> (r: Option<String>)
    ensures
        match r {
            Some(p) => book@.accepted.contains_key(key@) && book@.accepted[key@] == p@,
            None => !book@.accepted.contains_key(key@),
        },
{
    book.accepted.get(key)
}

/// Remembers `password` for `key`; called only once the server took it.
pub fn remember<R>(book: &mut PasswordBook<R>, key: &String, password: &String)
    requires
        old(book).wf(),
    ensures
        final(book).wf(),
        final(book)@.accepted == old(book)@.accepted.insert(key@, password@),
        final(book)@.pending == old(book)@.pending,
        final(book)@.last_request == old(book)@.last_request,
{
    book.accepted.insert(key, password);
}

/// Forgets `password` for `key` after the server turned it down. A newer one
/// remembered meanwhile stays.
pub fn forget<R>(book: &mut PasswordBook<R>, key: &String, password: &String)
    requires
        old(book).wf(),
    ensures
        final(book).wf(),
        final(book)@.accepted == forgotten(old(book)@.accepted, key@, password@),
        final(book)@.pending == old(book)@.pending,
        final(book)@.last_request == old(book)@.last_request,
{
    match book.accepted.get(key) {
        Some(p) => {
            if p.eq(password) {
                book.accepted.remove(key);
            }
        },
        None => {},
    }
}

/// Answers the prompt `request_id`: takes it down and hands back the reply
/// handle the answer goes through. The caller sends the answer — a password to
/// try, or none to cancel the login — and a connection that stopped listening
/// meanwhile counts as [`PasswordError::NotRequested`] too.
///
/// # Errors
/// [`PasswordError::NotRequested`] when no prompt is open under that id.
pub fn answer<R>(book: &mut PasswordBook<R>, request_id: u64) -> (r: Result<R, PasswordError>)
    requires
        old(book).wf(),
    ensures
        final(book).wf(),
        match r {
            Ok(reply) => old(book)@.pending.contains_key(request_id) && old(book)@.pending[request_id]
                == reply,
            Err(e) => e == PasswordError::NotRequested && !old(book)@.pending.contains_key(request_id),
        },
        final(book)@.pending == old(book)@.pending.remove(request_id),
        final(book)@.accepted == old(book)@.accepted,
        final(book)@.last_request == old(book)@.last_request,
{
    match book.pending.remove(request_id) {
        Some(reply) => Ok(reply),
        None => Err(PasswordError::NotRequested),
    }
}

/// A refused password is forgotten, but one remembered after it stays.
pub proof fn law_refused_password_forgotten_newer_stays(
    accepted: Map<Seq<char>, Seq<char>>,
    key: Seq<char>,
    refused: Seq<char>,
    newer: Seq<char>,
)
    requires
        refused != newer,
    ensures
        !forgotten(accepted.insert(key, refused), key, refused).contains_key(key),
        forgotten(accepted.insert(key, newer), key, refused) == accepted.insert(key, newer),
{
    assert(accepted.insert(key, refused)[key] == refused);
}

/// Each prompt is answered at most once: once answered, or taken down, its id
/// is no longer open, so a second answer finds no prompt.
pub proof fn law_a_prompt_is_answered_once<R>(pending: Map<u64, R>, request_id: u64)
    ensures
        !pending.remove(request_id).contains_key(request_id),
{
}

} // verus!
