use warehouse::menu::{opens_warehouse, StartChoice};
use warehouse::user::{removal_step, RemovalStep};
use warehouse::user::{
    confirm_removal, user_command, CommandError, Confirmation, CredentialError,
    LoginOutcome, RegisterError, Registration, User, CLEAR_CMD, DEFAULT_ERROR,
};

fn user(name: &str, password: &str) -> User {
    User { username: name.to_string(), password: password.to_string() }
}

/// A stored user whose hash is made at the lowest cost, to keep tests fast.
fn stored(name: &str, password: &str) -> User {
    user(name, &bcrypt::hash(password, 4).unwrap())
}

#[test]
fn constants_hold_their_text() {
    assert_eq!(DEFAULT_ERROR, "Something went wrong!");
    assert_eq!(CLEAR_CMD, "\x1B[2J\x1B[1;1H");
}

#[test]
fn optional_answer_is_trimmed() {
    assert_eq!(user_command("  bob \n", false), Ok("bob".to_string()));
    assert_eq!(user_command("   ", false), Ok(String::new()));
}

#[test]
fn required_answer_refuses_blank() {
    assert_eq!(user_command(" bob ", true), Ok("bob".to_string()));
    assert_eq!(user_command(" \t\n", true), Err(CommandError::Empty));
    assert_eq!(CommandError::Empty.message(), "Something went wrong!");
}

#[test]
fn credentials_are_trimmed() {
    let u = User::verify_credentials(" bob \n", " secret\n").unwrap();
    assert_eq!(u, user("bob", "secret"));
}

#[test]
fn blank_credentials_are_refused() {
    assert_eq!(User::verify_credentials("", "pw"), Err(CredentialError::Refused));
    assert_eq!(User::verify_credentials("bob", "  "), Err(CredentialError::Refused));
    assert_eq!(CredentialError::Refused.message(), "Something went wrong!");
}

#[test]
fn credentials_reading_as_the_error_message_are_refused() {
    assert_eq!(
        User::verify_credentials("Something went wrong!", "pw"),
        Err(CredentialError::Refused)
    );
    assert_eq!(
        User::verify_credentials("bob", " Something went wrong! "),
        Err(CredentialError::Refused)
    );
}

#[test]
fn register_fails_when_the_lookup_fails() {
    assert!(matches!(user("bob", "pw").register(None), Err(RegisterError::LookupFailed)));
}

#[test]
fn register_stores_nothing_for_a_taken_name() {
    assert!(matches!(user("bob", "pw").register(Some(true)), Ok(Registration::AlreadyExists)));
}

#[test]
fn register_stores_a_bcrypt_hash() {
    match user("bob", "pw").register(Some(false)) {
        Ok(Registration::Added(u)) => {
            assert_eq!(u.username, "bob");
            assert_eq!(u.password.len(), 60);
            assert!(u.password.starts_with("$2b$12$"));
            assert_ne!(u.password, "pw");
            assert!(bcrypt::verify("pw", &u.password).unwrap());
        }
        other => panic!("unexpected registration {:?}", other),
    }
}

#[test]
fn login_without_stored_users_is_unknown() {
    let outcome = user("bob", "pw").login(&vec![]);
    assert_eq!(outcome, LoginOutcome::UnknownUser);
    assert!(!outcome.granted());
}

#[test]
fn login_with_the_right_password_is_granted() {
    let rows = vec![stored("bob", "pw")];
    let outcome = user("bob", "pw").try_login(&rows).unwrap();
    assert_eq!(outcome, LoginOutcome::Checked(vec![true]));
    assert!(outcome.granted());
}

#[test]
fn login_with_a_wrong_password_is_refused() {
    let rows = vec![stored("bob", "pw")];
    let outcome = user("bob", "nope").try_login(&rows).unwrap();
    assert_eq!(outcome, LoginOutcome::Checked(vec![false]));
    assert!(!outcome.granted());
}

#[test]
fn login_checks_only_users_of_exactly_that_name() {
    let rows = vec![stored("BOB", "pw"), stored("bob", "other"), stored("bob", "pw")];
    let outcome = user("bob", "pw").try_login(&rows).unwrap();
    assert_eq!(outcome, LoginOutcome::Checked(vec![false, true]));
    assert!(outcome.granted());
    let outcome = user("bob", "pw").try_login(&vec![stored("BOB", "pw")]).unwrap();
    assert_eq!(outcome, LoginOutcome::Checked(vec![]));
    assert!(!outcome.granted());
}

#[test]
fn login_against_an_unreadable_hash_is_not_attempted() {
    let rows = vec![user("bob", "not a hash")];
    assert_eq!(user("bob", "pw").try_login(&rows), None);
    let rows = vec![user("alice", "not a hash"), stored("bob", "pw")];
    assert_eq!(
        user("bob", "pw").try_login(&rows),
        Some(LoginOutcome::Checked(vec![true]))
    );
}

#[test]
fn registered_user_logs_in() {
    let added = match user("carol", "s3cret").register(Some(false)) {
        Ok(Registration::Added(u)) => u,
        other => panic!("unexpected registration {:?}", other),
    };
    let outcome = user("carol", "s3cret").try_login(&vec![added]).unwrap();
    assert!(outcome.granted());
}

#[test]
fn removal_is_confirmed_by_y() {
    assert_eq!(confirm_removal("Y"), Confirmation::Remove);
    assert_eq!(confirm_removal(" y\n"), Confirmation::Remove);
    assert_eq!(confirm_removal("n"), Confirmation::Keep);
    assert_eq!(confirm_removal("N "), Confirmation::Keep);
    assert_eq!(confirm_removal("yes"), Confirmation::Invalid);
    assert_eq!(confirm_removal(""), Confirmation::Invalid);
}

#[test]
fn removal_asks_only_about_the_exact_name() {
    assert_eq!(removal_step(&user("bob", "h"), "bob"), RemovalStep::AskToConfirm);
    assert_eq!(removal_step(&user("Bob", "h"), "bob"), RemovalStep::OtherUser);
    assert_eq!(removal_step(&user("bobby", "h"), "bob"), RemovalStep::OtherUser);
}

#[test]
fn warehouse_opens_only_after_a_granted_login() {
    let granted = LoginOutcome::Checked(vec![false, true]);
    let refused = LoginOutcome::Checked(vec![false]);
    assert!(opens_warehouse(StartChoice::Login, &granted));
    assert!(!opens_warehouse(StartChoice::Login, &refused));
    assert!(!opens_warehouse(StartChoice::Login, &LoginOutcome::UnknownUser));
    assert!(!opens_warehouse(StartChoice::Register, &granted));
    assert!(!opens_warehouse(StartChoice::Unknown, &granted));
}
