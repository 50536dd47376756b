//! Loading SSH identity files, including passphrase-protected keys.
//!
//! Passphrases are kept in memory only — never written to disk — keyed by the
//! canonical path of the private key, so every host that shares a key unlocks
//! it once per session. Reading and decrypting the key file is the caller's;
//! this module decides what each outcome means and what is remembered.

use vstd::prelude::*;
use crate::keyed::Table;

verus! {

/// Failure to load or unlock a private key file.
#[derive(Debug, Clone, PartialEq, Eq)]
pub enum IdentityError {
    /// The key is encrypted and no usable passphrase is cached.
    Encrypted(String),
    /// The passphrase did not decrypt the key.
    WrongPassphrase,
    /// No connection has asked for this key's passphrase.
    NotRequested(String),
    /// The file could not be read or parsed for a reason other than
    /// encryption.
    Load { path: String, source: String },
}

impl IdentityError {
    /// What the error says.
    pub fn message(&self) -> (m: String)
        ensures
            m@ == match self {
                IdentityError::Encrypted(p) => "SSH key "@ + p@ + " requires a passphrase"@,
                IdentityError::WrongPassphrase => "wrong passphrase"@,
                IdentityError::NotRequested(p) => "no passphrase was asked for SSH key "@ + p@,
                IdentityError::Load { path, source } => "could not load SSH key "@ + path@ + ": "@
                    + source@,
            },
    {
        match self {
            IdentityError::Encrypted(p) => {
                let mut m = String::from_str("SSH key ");
                m.append(p.as_str());
                m.append(" requires a passphrase");
                m
            },
            IdentityError::WrongPassphrase => String::from_str("wrong passphrase"),
            IdentityError::NotRequested(p) => {
                let mut m = String::from_str("no passphrase was asked for SSH key ");
                m.append(p.as_str());
                m
            },
            IdentityError::Load { path, source } => {
                let mut m = String::from_str("could not load SSH key ");
                m.append(path.as_str());
                m.append(": ");
                m.append(source.as_str());
                m
            },
        }
    }
}

/// The passphrases that decrypted their keys, and the keys found encrypted.
/// Only a key found encrypted can be unlocked, so a frontend cannot use
/// unlocking to probe arbitrary files.
pub struct KeyCache {
    passphrases: Table,
    encrypted: Table,
}

/// The plain value of a [`KeyCache`].
pub struct KeyCacheView {
    /// Passphrases that decrypted their key, by canonical key path.
    pub passphrases: Map<Seq<char>, Seq<char>>,
    /// Keys found encrypted.
    pub encrypted: Set<Seq<char>>,
}

impl View for KeyCache {
    type V = KeyCacheView;

    closed spec fn view(&self) -> KeyCacheView {
        KeyCacheView { passphrases: self.passphrases@, encrypted: self.encrypted@.dom() }
    }
}

/// How reading a key without a passphrase went.
#[derive(Debug, Clone, PartialEq, Eq)]
pub enum PlainLoad {
    Loaded,
    /// The key needs a passphrase.
    Encrypted,
    /// Any other failure, by its message.
    Failed(String),
}

/// How decrypting a key with a passphrase went.
#[derive(Debug, Clone, PartialEq, Eq)]
pub enum UnlockLoad {
    Loaded,
    /// The file could not be read, by the message.
    Unreadable(String),
    /// It would not decode: for a key known to be encrypted, the passphrase.
    Undecodable,
}

/// What loading a key does next.
#[derive(Debug, PartialEq, Eq)]
pub enum LoadStep {
    /// Finished: the key loaded, or why not.
    Done(Result<(), IdentityError>),
    /// Decrypt it with this cached passphrase.
    TryPassphrase(String),
}

impl KeyCache {
    /// A cache with nothing in it.
    pub fn new() -> (c: KeyCache)
        ensures
            c@.passphrases == Map::<Seq<char>, Seq<char>>::empty(),
            c@.encrypted == Set::<Seq<char>>::empty(),
    {
        let c = KeyCache { passphrases: Table::new(), encrypted: Table::new() };
        assert(c@.encrypted =~= Set::<Seq<char>>::empty());
        c
    }

    /// Whether a passphrase is cached for the key at `path`.
    pub fn is_unlocked(&self, path: &String) -> (b: bool)
        ensures
            b == self@.passphrases.contains_key(path@),
    {
        self.passphrases.contains_key(path)
    }

    /// Whether `passphrase` may be tried on the key at `key_path`: only on a
    /// key some connection found encrypted.
    ///
    /// # Errors
    /// [`IdentityError::NotRequested`] for any other key.
    pub fn unlock_request(&self, key_path: &String) -> (r: Result<(), IdentityError>)
        ensures
            self@.encrypted.contains(key_path@) ==> r is Ok,
            !self@.encrypted.contains(key_path@) ==> (r matches Err(IdentityError::NotRequested(p))
                && p@ == key_path@),
    {
        if self.encrypted.contains_key(key_path) {
            Ok(())
        } else {
            Err(IdentityError::NotRequested(key_path.clone()))
        }
    }

    /// Takes in how decrypting the key at `key_path` with `passphrase` went:
    /// a passphrase that worked is remembered; any decode failure of a key
    /// known to be encrypted is the passphrase's.
    pub fn unlock_outcome(&mut self, key_path: &String, passphrase: &String, outcome: UnlockLoad) -> (r: Result<(), IdentityError>)
        ensures
            final(self)@.encrypted == old(self)@.encrypted,
            match outcome {
                UnlockLoad::Loaded => r is Ok && final(self)@.passphrases == old(self)@.passphrases.insert(
                    key_path@,
                    passphrase@,
                ),
                UnlockLoad::Unreadable(m) => final(self)@.passphrases == old(self)@.passphrases && (
                r matches Err(IdentityError::Load { path, source }) && path@ == key_path@ && source@
                    == m@),
                UnlockLoad::Undecodable => final(self)@.passphrases == old(self)@.passphrases && r
                    == Err::<(), IdentityError>(IdentityError::WrongPassphrase),
            },
    {
        match outcome {
            UnlockLoad::Loaded => {
                self.passphrases.insert(key_path, passphrase);
                Ok(())
            },
            UnlockLoad::Unreadable(m) => Err(IdentityError::Load { path: key_path.clone(), source: m }),
            UnlockLoad::Undecodable => Err(IdentityError::WrongPassphrase),
        }
    }

    /// Takes in how reading the key at `key_path` without a passphrase went.
    /// Plain comes first, so a key whose passphrase was removed on disk is
    /// never fed a cached one. An encrypted key is marked so, then tried with
    /// the cached passphrase if there is one.
    pub fn plain_outcome(&mut self, key_path: &String, outcome: PlainLoad) -> (r: LoadStep)
        ensures
            final(self)@.passphrases == old(self)@.passphrases,
            match outcome {
                PlainLoad::Loaded => r == LoadStep::Done(Ok(())) && final(self)@.encrypted == old(
                    self,
                )@.encrypted,
                PlainLoad::Failed(m) => final(self)@.encrypted == old(self)@.encrypted && (
                r matches LoadStep::Done(Err(IdentityError::Load { path, source })) && path@
                    == key_path@ && source@ == m@),
                PlainLoad::Encrypted => final(self)@.encrypted == old(self)@.encrypted.insert(
                    key_path@,
                ) && if old(self)@.passphrases.contains_key(key_path@) {
                    r matches LoadStep::TryPassphrase(p) && p@ == old(self)@.passphrases[key_path@]
                } else {
                    r matches LoadStep::Done(Err(IdentityError::Encrypted(p))) && p@ == key_path@
                },
            },
    {
        match outcome {
            PlainLoad::Loaded => LoadStep::Done(Ok(())),
            PlainLoad::Failed(m) => LoadStep::Done(
                Err(IdentityError::Load { path: key_path.clone(), source: m }),
            ),
            PlainLoad::Encrypted => {
                let blank = String::new();
                self.encrypted.insert(key_path, &blank);
                assert(self@.encrypted =~= old(self)@.encrypted.insert(key_path@));
                match self.passphrases.get(key_path) {
                    Some(p) => LoadStep::TryPassphrase(p),
                    None => LoadStep::Done(Err(IdentityError::Encrypted(key_path.clone()))),
                }
            },
        }
    }

    /// Takes in whether the cached passphrase still decrypted the key at
    /// `key_path`. One that no longer does — the key was re-encrypted since —
    /// is dropped, so the user is asked again.
    pub fn cached_outcome(&mut self, key_path: &String, loaded: bool) -> (r: Result<(), IdentityError>)
        ensures
            final(self)@.encrypted == old(self)@.encrypted,
            loaded ==> r is Ok && final(self)@.passphrases == old(self)@.passphrases,
            !loaded ==> final(self)@.passphrases == old(self)@.passphrases.remove(key_path@) && (
            r matches Err(IdentityError::Encrypted(p)) && p@ == key_path@),
    {
        if loaded {
            Ok(())
        } else {
            self.passphrases.remove(key_path);
            Err(IdentityError::Encrypted(key_path.clone()))
        }
    }
}

/// A stale passphrase leads to a new prompt: once the cached one fails, the
/// key is no longer unlocked and loading it asks for a passphrase again.
pub proof fn law_a_stale_passphrase_asks_again(
    passphrases: Map<Seq<char>, Seq<char>>,
    key_path: Seq<char>,
)
    ensures
        !passphrases.remove(key_path).contains_key(key_path),
{
}

/// Whether a key path starts at the home directory: `~` alone or `~/…`.
pub open spec fn homed(path: Seq<char>) -> bool {
    path == seq!['~'] || (path.len() >= 2 && path[0] == '~' && path[1] == '/')
}

/// `path` with a leading `~` replaced by `home`, when it starts at the home
/// directory and the home directory is known.
pub open spec fn tilde_expanded(path: Seq<char>, home: Option<Seq<char>>) -> Seq<char> {
    match home {
        Some(h) => if homed(path) {
            h + path.subrange(1, path.len() as int)
        } else {
            path
        },
        None => path,
    }
}

/// Expands a leading `~` of a key path to `home`, the home directory the
/// caller found, if any.
pub fn expand_tilde(path: &str, home: Option<&str>) -> (r: String)
    ensures
        r@ == tilde_expanded(path@, match home {
            Some(h) => Some(h@),
            None => None,
        }),
{
    let v = crate::text::chars_of(path);
    let is_homed = (v.len() == 1 && v[0] == '~') || (v.len() >= 2 && v[0] == '~' && v[1] == '/');
    proof {
        if v@.len() == 1 && v@[0] == '~' {
            assert(v@ =~= seq!['~']);
        }
    }
    match home {
        Some(h) => {
            if is_homed {
                let mut r = String::from_str(h);
                let rest = crate::tunnel::string_from(crate::text::chars_between(v.as_slice(), 1, v.len()).as_slice());
                r.append(rest.as_str());
                r
            } else {
                String::from_str(path)
            }
        },
        None => String::from_str(path),
    }
}

} // verus!
