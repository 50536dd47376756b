use omnyssh::identity::{expand_tilde, IdentityError, KeyCache, LoadStep, PlainLoad, UnlockLoad};

fn s(text: &str) -> String {
    text.to_string()
}

#[test]
fn an_unencrypted_key_loads_without_a_passphrase() {
    let mut cache = KeyCache::new();
    assert_eq!(cache.plain_outcome(&s("/k/id"), PlainLoad::Loaded), LoadStep::Done(Ok(())));
}

#[test]
fn an_encrypted_key_reports_that_a_passphrase_is_required() {
    let mut cache = KeyCache::new();
    assert_eq!(
        cache.plain_outcome(&s("/k/id"), PlainLoad::Encrypted),
        LoadStep::Done(Err(IdentityError::Encrypted(s("/k/id"))))
    );
}

#[test]
fn unlocking_caches_the_passphrase_for_later_loads() {
    let mut cache = KeyCache::new();
    let path = s("/k/id");
    cache.plain_outcome(&path, PlainLoad::Encrypted);
    assert_eq!(cache.unlock_request(&path), Ok(()));
    assert_eq!(
        cache.unlock_outcome(&path, &s("correct horse"), UnlockLoad::Loaded),
        Ok(())
    );
    assert!(cache.is_unlocked(&path));
    assert_eq!(
        cache.plain_outcome(&path, PlainLoad::Encrypted),
        LoadStep::TryPassphrase(s("correct horse"))
    );
    assert_eq!(cache.cached_outcome(&path, true), Ok(()));
}

#[test]
fn a_wrong_passphrase_is_rejected_and_not_cached() {
    let mut cache = KeyCache::new();
    let path = s("/k/id");
    cache.plain_outcome(&path, PlainLoad::Encrypted);
    assert_eq!(
        cache.unlock_outcome(&path, &s("wrong"), UnlockLoad::Undecodable),
        Err(IdentityError::WrongPassphrase)
    );
    assert!(!cache.is_unlocked(&path));
    assert_eq!(
        cache.plain_outcome(&path, PlainLoad::Encrypted),
        LoadStep::Done(Err(IdentityError::Encrypted(s("/k/id"))))
    );
}

#[test]
fn only_a_key_found_encrypted_can_be_unlocked() {
    let cache = KeyCache::new();
    assert_eq!(
        cache.unlock_request(&s("/etc/shadow")),
        Err(IdentityError::NotRequested(s("/etc/shadow")))
    );
}

#[test]
fn a_key_changed_on_disk_after_unlocking_is_read_as_it_is_now() {
    let mut cache = KeyCache::new();
    let path = s("/k/id");
    cache.plain_outcome(&path, PlainLoad::Encrypted);
    cache.unlock_outcome(&path, &s("correct horse"), UnlockLoad::Loaded).unwrap();
    // Re-encrypted with a new passphrase: the stale one is dropped.
    assert_eq!(
        cache.cached_outcome(&path, false),
        Err(IdentityError::Encrypted(s("/k/id")))
    );
    assert!(!cache.is_unlocked(&path));
    // Decrypted for good: it loads as it is, and no passphrase is fed to it.
    assert_eq!(cache.plain_outcome(&path, PlainLoad::Loaded), LoadStep::Done(Ok(())));
}

#[test]
fn an_unreadable_key_says_why() {
    let mut cache = KeyCache::new();
    assert_eq!(
        cache.plain_outcome(&s("/k/id"), PlainLoad::Failed(s("permission denied"))),
        LoadStep::Done(Err(IdentityError::Load {
            path: s("/k/id"),
            source: s("permission denied")
        }))
    );
    let err = IdentityError::Load {
        path: s("/k/id"),
        source: s("permission denied"),
    };
    assert_eq!(err.message(), "could not load SSH key /k/id: permission denied");
    assert_eq!(
        IdentityError::Encrypted(s("/k/id")).message(),
        "SSH key /k/id requires a passphrase"
    );
    assert_eq!(IdentityError::WrongPassphrase.message(), "wrong passphrase");
    assert_eq!(
        IdentityError::NotRequested(s("/k")).message(),
        "no passphrase was asked for SSH key /k"
    );
}

#[test]
fn a_leading_tilde_is_the_home_directory() {
    assert_eq!(expand_tilde("~/.ssh/id", Some("/home/me")), "/home/me/.ssh/id");
    assert_eq!(expand_tilde("~", Some("/home/me")), "/home/me");
    assert_eq!(expand_tilde("~other/id", Some("/home/me")), "~other/id");
    assert_eq!(expand_tilde("/abs/id", Some("/home/me")), "/abs/id");
    assert_eq!(expand_tilde("~/.ssh/id", None), "~/.ssh/id");
}
