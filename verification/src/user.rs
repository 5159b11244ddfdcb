//! Users: reading credentials, registering a user with a bcrypt password
//! hash, logging in against stored users, and confirming a removal.
use vstd::prelude::*;
use vstd::utf8::is_ascii_chars;

use crate::text::{same_text, trim, trimmed, lemma_trimmed_idempotent};

verus! {

/// The message shown when input is missing or a step fails.
pub const DEFAULT_ERROR: &'static str = "Something went wrong!";

/// The terminal sequence that clears the screen.
pub const CLEAR_CMD: &'static str = "\x1B[2J\x1B[1;1H";

#[verifier::external_type_specification]
#[verifier::external_body]
pub struct ExBcryptError(bcrypt::BcryptError);

/// What `bcrypt::verify` returns for a password and a stored hash: `None`
/// for its error, `Some` of its answer otherwise.
pub uninterp spec fn bcrypt_verify(password: Seq<char>, hash: Seq<char>) -> Option<bool>;

/// Calls `bcrypt::hash` with `bcrypt::DEFAULT_COST` (12) and a random salt.
/// The contract claims what the crate's source shows of every successful
/// outcome: the hash is 60 characters long, starts with `$2b$12$`, and
/// `bcrypt::verify` accepts the password against it. Which hash comes out,
/// and whether the random salt could be drawn, is not stated.
#[verifier::external_body]
pub(crate) fn hash_password(password: &str) -> (r: Result<String, bcrypt::BcryptError>)
    ensures
        r matches Ok(h) ==> {
            &&& h@.len() == 60
            &&& h@.take(7) == "$2b$12$"@
            &&& bcrypt_verify(password@, h@) == Some(true)
        },
{
    bcrypt::hash(password, bcrypt::DEFAULT_COST)
}

/// Calls `bcrypt::verify`. The contract names the outcome and claims, as the
/// crate's source shows, that a hash is only read when it is 60 ASCII
/// characters long.
#[verifier::external_body]
fn verify_password(password: &str, hash: &str) -> (r: Result<bool, bcrypt::BcryptError>)
    ensures
        r is Ok <==> bcrypt_verify(password@, hash@) is Some,
        r matches Ok(b) ==> bcrypt_verify(password@, hash@) == Some(b),
        r is Ok ==> hash@.len() == 60 && is_ascii_chars(hash@),
{
    bcrypt::verify(password, hash)
}

/// A user of the warehouse system: a name and a password (in clear when
/// typed, as a bcrypt hash when stored).
#[derive(Debug, PartialEq, Eq)]
pub struct User {
    pub username: String,
    pub password: String,
}

/// A required answer was left blank.
#[derive(Debug, Clone, Copy, PartialEq, Eq)]
pub enum CommandError {
    Empty,
}

impl CommandError {
    /// The message shown for this error.
    pub fn message(&self) -> (r: String)
        ensures
            r@ == DEFAULT_ERROR@,
    {
        DEFAULT_ERROR.to_string()
    }
}

/// Typed credentials were refused.
#[derive(Debug, Clone, Copy, PartialEq, Eq)]
pub enum CredentialError {
    Refused,
}

impl CredentialError {
    /// The message shown for this error.
    pub fn message(&self) -> (r: String)
        ensures
            r@ == DEFAULT_ERROR@,
    {
        DEFAULT_ERROR.to_string()
    }
}

/// What registering a user comes to.
#[derive(Debug, PartialEq, Eq)]
pub enum Registration {
    /// A user of that name exists already; nothing is stored.
    AlreadyExists,
    /// The user to store: the name, and the hash of the password.
    Added(User),
}

/// Why registering a user failed.
#[derive(Debug)]
pub enum RegisterError {
    /// Whether the name is taken could not be found out.
    LookupFailed,
    /// The password could not be hashed; bcrypt's error.
    HashFailed(bcrypt::BcryptError),
}

/// What a login attempt comes to.
#[derive(Debug, PartialEq, Eq)]
pub enum LoginOutcome {
    /// No stored user answered the lookup.
    UnknownUser,
    /// For each stored user of exactly this name, in order, whether the
    /// password matched its hash.
    Checked(Vec<bool>),
}

/// What removing a user does with one stored user that the lookup found.
#[derive(Debug, Clone, Copy, PartialEq, Eq)]
pub enum RemovalStep {
    /// The stored user has exactly the typed name: ask whether to remove it.
    AskToConfirm,
    /// The stored user has another name: it is reported as not existing.
    OtherUser,
}

/// The answer to "remove this user?".
#[derive(Debug, Clone, Copy, PartialEq, Eq)]
pub enum Confirmation {
    Remove,
    Keep,
    Invalid,
}

/// A typed credential as it is used: the trimmed text, or the default error
/// message when nothing was typed.
pub open spec fn entered(line: Seq<char>) -> Seq<char> {
    if trimmed(line).len() == 0 {
        DEFAULT_ERROR@
    } else {
        trimmed(line)
    }
}

/// The outcome of registering `user`, given whether the lookup of its name
/// found it: a failed lookup is an error; a taken name stores nothing; a
/// free name stores the user with a bcrypt hash of its password (60
/// characters, `$2b$12$` first, accepted by `bcrypt::verify`), unless the
/// hashing failed.
pub open spec fn registration(
    user: User,
    username_exists: Option<bool>,
    r: Result<Registration, RegisterError>,
) -> bool {
    match username_exists {
        None => r matches Err(RegisterError::LookupFailed),
        Some(true) => r matches Ok(Registration::AlreadyExists),
        Some(false) => match r {
            Ok(Registration::Added(u)) => {
                &&& u.username@ == user.username@
                &&& u.password@.len() == 60
                &&& u.password@.take(7) == "$2b$12$"@
                &&& bcrypt_verify(user.password@, u.password@) == Some(true)
            },
            Ok(Registration::AlreadyExists) => false,
            Err(e) => e is HashFailed,
        },
    }
}

/// The names of the stored users after a registration.
pub open spec fn names_after(names: Seq<Seq<char>>, r: Result<Registration, RegisterError>) -> Seq<
    Seq<char>,
> {
    match r {
        Ok(Registration::Added(u)) => names.push(u.username@),
        _ => names,
    }
}

/// Registering never stores a second user of a taken name: when the lookup
/// answers whether the name is among the stored names, and no name was
/// stored twice before, none is stored twice after.
pub proof fn registration_keeps_names_unique(
    names: Seq<Seq<char>>,
    user: User,
    r: Result<Registration, RegisterError>,
)
    requires
        names.no_duplicates(),
        registration(user, Some(names.contains(user.username@)), r),
    ensures
        names_after(names, r).no_duplicates(),
        r matches Ok(Registration::Added(u)) ==> !names.contains(u.username@),
{
    if let Ok(Registration::Added(u)) = r {
        let after = names.push(u.username@);
        assert forall|i: int, j: int|
            0 <= i < after.len() && 0 <= j < after.len() && i != j implies after[i] != after[j] by {
            if i == names.len() {
                assert(names[j] == after[j]);
            } else if j == names.len() {
                assert(names[i] == after[i]);
            }
        }
    }
}

/// Whether every stored user named `name` has a hash that bcrypt can read.
pub open spec fn hashes_readable(name: Seq<char>, password: Seq<char>, rows: Seq<User>) -> bool {
    forall|i: int|
        0 <= i < rows.len() && (#[trigger] rows[i]).username@ == name ==> bcrypt_verify(
            password,
            rows[i].password@,
        ) is Some
}

/// For each stored user named `name`, in order, whether `password` matches
/// its hash.
pub open spec fn verdicts(name: Seq<char>, password: Seq<char>, rows: Seq<User>) -> Seq<bool>
    decreases rows.len(),
{
    if rows.len() == 0 {
        seq![]
    } else {
        let prev = verdicts(name, password, rows.drop_last());
        if rows.last().username@ == name {
            prev.push(bcrypt_verify(password, rows.last().password@) == Some(true))
        } else {
            prev
        }
    }
}

/// The outcome of logging in as `user` against the stored `rows`.
pub open spec fn login_outcome(user: User, rows: Seq<User>, outcome: LoginOutcome) -> bool {
    if rows.len() == 0 {
        outcome == LoginOutcome::UnknownUser
    } else {
        (outcome matches LoginOutcome::Checked(v) && v@ == verdicts(
            user.username@,
            user.password@,
            rows,
        ))
    }
}

/// Whether a login outcome grants entry.
pub open spec fn is_granted(outcome: LoginOutcome) -> bool {
    outcome matches LoginOutcome::Checked(v) && v@.contains(true)
}

impl LoginOutcome {
    /// Whether the outcome grants entry: some stored user of that name had a
    /// matching password.
    pub fn granted(&self) -> (r: bool)
        ensures
            r == is_granted(*self),
    {
        match self {
            LoginOutcome::UnknownUser => false,
            LoginOutcome::Checked(v) => any_true(v),
        }
    }
}

/// Whether some entry of `v` is `true`.
fn any_true(v: &Vec<bool>) -> (r: bool)
    ensures
        r == v@.contains(true),
{
    let mut i: usize = 0;
    while i < v.len()
        invariant
            i <= v@.len(),
            forall|k: int| 0 <= k < i ==> !v@[k],
        decreases v@.len() - i,
    {
        if v[i] {
            assert(v@[i as int]);
            return true;
        }
        i = i + 1;
    }
    assert(!v@.contains(true));
    false
}

/// A line of input as an answer: trimmed, and refused when blank if an
/// answer is required.
pub fn user_command(line: &str, require_result: bool) -> (r: Result<String, CommandError>)
    ensures
        r is Err <==> require_result && trimmed(line@).len() == 0,
        r matches Ok(s) ==> s@ == trimmed(line@),
        r matches Err(e) ==> e == CommandError::Empty,
{
    let command = trim(line);
    if !require_result {
        return Ok(command);
    }
    if command.as_str().is_empty() {
        Err(CommandError::Empty)
    } else {
        Ok(command)
    }
}

/// An answer that is required, with the error message standing in for a
/// blank one.
fn required_answer(line: &str) -> (r: String)
    ensures
        r@ == entered(line@),
{
    match user_command(line, true) {
        Ok(s) => s,
        Err(e) => e.message(),
    }
}

/// Whether `a` reads as the default error message.
fn is_default_error(a: &String) -> (r: bool)
    ensures
        r == (a@ == DEFAULT_ERROR@),
{
    same_text(a.as_str(), DEFAULT_ERROR)
}

impl User {
    /// Credentials from the typed name and password lines. Both are required;
    /// a blank one, or one that reads as the default error message, refuses
    /// the credentials.
    pub fn verify_credentials(username_line: &str, password_line: &str) -> (r: Result<
        User,
        CredentialError,
    >)
        ensures
            r is Ok <==> entered(username_line@) != DEFAULT_ERROR@ && entered(password_line@)
                != DEFAULT_ERROR@,
            r matches Ok(u) ==> u.username@ == trimmed(username_line@) && u.password@ == trimmed(
                password_line@,
            ),
            r matches Err(e) ==> e == CredentialError::Refused,
    {
        let username = required_answer(username_line);
        let password = required_answer(password_line);
        if is_default_error(&username) || is_default_error(&password) {
            return Err(CredentialError::Refused);
        }
        Ok(User { username, password })
    }

    /// Registers this user, given whether the lookup of its name found it
    /// (`None` when the lookup failed). A new user is stored with the bcrypt
    /// hash of its password.
    pub fn register(self, username_exists: Option<bool>) -> (r: Result<Registration, RegisterError>)
        ensures
            registration(self, username_exists, r),
    {
        let exists = match username_exists {
            Some(b) => b,
            None => {
                return Err(RegisterError::LookupFailed);
            },
        };
        if exists {
            return Ok(Registration::AlreadyExists);
        }
        let hashed = hash_password(self.password.as_str());
        self.stored_with_hash(hashed)
    }

    /// What registering this user under a free name comes to, given the
    /// outcome of hashing its password: the user with the hash in place of
    /// the password, or bcrypt's error itself when the hashing failed.
    pub fn stored_with_hash(self, hashed: Result<String, bcrypt::BcryptError>) -> (r: Result<
        Registration,
        RegisterError,
    >)
        ensures
            hashed matches Ok(h) ==> r matches Ok(Registration::Added(u)) && u.username
                == self.username && u.password == h,
            hashed matches Err(e) ==> r matches Err(RegisterError::HashFailed(f)) && f == e,
    {
        match hashed {
            Ok(h) => Ok(Registration::Added(User { username: self.username, password: h })),
            Err(e) => Err(RegisterError::HashFailed(e)),
        }
    }

    /// Logs in as this user against the stored users that the lookup of its
    /// name returned: each one of exactly this name has its hash checked
    /// against the password.
    pub fn login(self, rows: &Vec<User>) -> (r: LoginOutcome)
        requires
            hashes_readable(self.username@, self.password@, rows@),
        ensures
            login_outcome(self, rows@, r),
    {
        if rows.len() == 0 {
            return LoginOutcome::UnknownUser;
        }
        let mut checks: Vec<bool> = Vec::new();
        let mut i: usize = 0;
        while i < rows.len()
            invariant
                i <= rows@.len(),
                hashes_readable(self.username@, self.password@, rows@),
                checks@ == verdicts(self.username@, self.password@, rows@.take(i as int)),
            decreases rows@.len() - i,
        {
            let row = &rows[i];
            assert(rows@.take(i + 1).drop_last() =~= rows@.take(i as int));
            assert(rows@.take(i + 1).last() == rows@[i as int]);
            if same_text(row.username.as_str(), self.username.as_str()) {
                match verify_password(self.password.as_str(), row.password.as_str()) {
                    Ok(b) => {
                        checks.push(b);
                    },
                    Err(_) => {
                        assert(false);
                    },
                }
            }
            i = i + 1;
        }
        assert(rows@.take(rows@.len() as int) =~= rows@);
        LoginOutcome::Checked(checks)
    }

    /// Logs in as this user like `login`, after checking that every stored
    /// user of this name has a hash that bcrypt can read; `None` when one
    /// does not.
    pub fn try_login(self, rows: &Vec<User>) -> (r: Option<LoginOutcome>)
        ensures
            r is None <==> !hashes_readable(self.username@, self.password@, rows@),
            r matches Some(o) ==> login_outcome(self, rows@, o),
    {
        let mut i: usize = 0;
        while i < rows.len()
            invariant
                i <= rows@.len(),
                forall|k: int|
                    0 <= k < i && (#[trigger] rows@[k]).username@ == self.username@
                        ==> bcrypt_verify(self.password@, rows@[k].password@) is Some,
            decreases rows@.len() - i,
        {
            let row = &rows[i];
            if same_text(row.username.as_str(), self.username.as_str()) {
                match verify_password(self.password.as_str(), row.password.as_str()) {
                    Ok(_) => {},
                    Err(_) => {
                        assert(!hashes_readable(self.username@, self.password@, rows@)) by {
                            assert(rows@[i as int] == *row);
                        }
                        return None;
                    },
                }
            }
            i = i + 1;
        }
        Some(self.login(rows))
    }
}

/// What removing the user typed as `username` does with a stored user that
/// the lookup found: only one of exactly that name is asked about.
pub fn removal_step(row: &User, username: &str) -> (r: RemovalStep)
    ensures
        r == (if row.username@ == username@ {
            RemovalStep::AskToConfirm
        } else {
            RemovalStep::OtherUser
        }),
{
    if same_text(row.username.as_str(), username) {
        RemovalStep::AskToConfirm
    } else {
        RemovalStep::OtherUser
    }
}

/// Reads the answer to "remove this user?": `Y` or `y` removes, `N` or `n`
/// keeps, anything else (a blank answer too) is invalid.
pub fn confirm_removal(answer_line: &str) -> (r: Confirmation)
    ensures
        r == (if trimmed(answer_line@) == seq!['Y'] || trimmed(answer_line@) == seq!['y'] {
            Confirmation::Remove
        } else if trimmed(answer_line@) == seq!['N'] || trimmed(answer_line@) == seq!['n'] {
            Confirmation::Keep
        } else {
            Confirmation::Invalid
        }),
{
    let answer = required_answer(answer_line);
    let a = trim(answer.as_str());
    proof {
        lemma_trimmed_idempotent(answer_line@);
        reveal_strlit("Something went wrong!");
        reveal_strlit("Y");
        reveal_strlit("y");
        reveal_strlit("N");
        reveal_strlit("n");
        assert("Y"@ =~= seq!['Y']);
        assert("y"@ =~= seq!['y']);
        assert("N"@ =~= seq!['N']);
        assert("n"@ =~= seq!['n']);
        if trimmed(answer_line@).len() == 0 {
            let d = DEFAULT_ERROR@;
            assert(d.len() == 21);
            assert(trimmed(d) == d) by {
                assert(!crate::text::is_white_space(d[0]));
                assert(!crate::text::is_white_space(d[20]));
            }
            assert(a@ == d);
        } else {
            assert(a@ == trimmed(answer_line@));
        }
    }
    if same_text(a.as_str(), "Y") || same_text(a.as_str(), "y") {
        Confirmation::Remove
    } else if same_text(a.as_str(), "N") || same_text(a.as_str(), "n") {
        Confirmation::Keep
    } else {
        Confirmation::Invalid
    }
}

/// A user added by `register` is granted entry by `login` with the same
/// password, whichever other users of that name the lookup returns, as long
/// as their hashes can be read.
pub proof fn registered_user_logs_in(user: User, stored: User, rows: Seq<User>)
    requires
        registration(user, Some(false), Ok(Registration::Added(stored))),
        rows.contains(stored),
        hashes_readable(user.username@, user.password@, rows),
    ensures
        forall|o: LoginOutcome| #[trigger] login_outcome(user, rows, o) ==> is_granted(o),
{
    let k = choose|k: int| 0 <= k < rows.len() && rows[k] == stored;
    lemma_verdicts_hit(user.username@, user.password@, rows, k);
}

/// A stored user of that name whose hash matches puts a `true` among the
/// verdicts.
proof fn lemma_verdicts_hit(name: Seq<char>, password: Seq<char>, rows: Seq<User>, k: int)
    requires
        0 <= k < rows.len(),
        rows[k].username@ == name,
        bcrypt_verify(password, rows[k].password@) == Some(true),
    ensures
        verdicts(name, password, rows).contains(true),
    decreases rows.len(),
{
    let prev = verdicts(name, password, rows.drop_last());
    if k == rows.len() - 1 {
        let v = prev.push(true);
        assert(v[v.len() - 1] == true);
    } else {
        lemma_verdicts_hit(name, password, rows.drop_last(), k);
        let j = choose|j: int| 0 <= j < prev.len() && prev[j] == true;
        if rows.last().username@ == name {
            let v = prev.push(bcrypt_verify(password, rows.last().password@) == Some(true));
            assert(v[j] == true);
        }
    }
}

} // verus!
