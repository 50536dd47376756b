use omnyssh::password::{accepted, answer, forget, remember, PasswordBook, PasswordError};

fn s(text: &str) -> String {
    text.to_string()
}

#[test]
fn a_refused_password_is_forgotten_but_a_newer_one_stays() {
    let mut book: PasswordBook<()> = PasswordBook::new();
    let key = s("forget@10.8.8.8:22");
    remember(&mut book, &key, &s("old"));
    forget(&mut book, &key, &s("old"));
    assert_eq!(accepted(&book, &key), None);

    remember(&mut book, &key, &s("new"));
    forget(&mut book, &key, &s("old"));
    assert_eq!(accepted(&book, &key).as_deref(), Some("new"));
}

#[test]
fn a_password_is_kept_per_login() {
    let mut book: PasswordBook<()> = PasswordBook::new();
    remember(&mut book, &s("root@10.0.0.1:22"), &s("a"));
    remember(&mut book, &s("root@10.0.0.1:22 via ops@bastion:22"), &s("b"));
    assert_eq!(accepted(&book, &s("root@10.0.0.1:22")).as_deref(), Some("a"));
    assert_eq!(
        accepted(&book, &s("root@10.0.0.1:22 via ops@bastion:22")).as_deref(),
        Some("b")
    );
    assert_eq!(accepted(&book, &s("root@10.0.0.2:22")), None);
    remember(&mut book, &s("root@10.0.0.1:22"), &s("c"));
    assert_eq!(accepted(&book, &s("root@10.0.0.1:22")).as_deref(), Some("c"));
}

#[test]
fn an_answer_reaches_the_prompt_that_asked() {
    let mut book: PasswordBook<&str> = PasswordBook::new();
    let first = book.open_prompt("web-1");
    let second = book.open_prompt("web-2");
    assert_ne!(first, second);
    assert_eq!(answer(&mut book, second), Ok("web-2"));
    assert_eq!(answer(&mut book, second), Err(PasswordError::NotRequested));
    assert_eq!(answer(&mut book, first), Ok("web-1"));
}

#[test]
fn a_prompt_taken_down_cannot_be_answered() {
    let mut book: PasswordBook<u8> = PasswordBook::new();
    let id = book.open_prompt(7);
    assert!(book.close_prompt(id));
    assert!(!book.close_prompt(id), "closed once only");
    assert_eq!(answer(&mut book, id), Err(PasswordError::NotRequested));
    assert_eq!(answer(&mut book, 99), Err(PasswordError::NotRequested));
    assert_eq!(
        PasswordError::NotRequested.message(),
        "no login is waiting for this password"
    );
}
