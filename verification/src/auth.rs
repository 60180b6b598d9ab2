//! Accounts: the user table, password hashing, registration and login.

use crate::paths::{spec_user_url, url_under_user};
use crate::username::{is_valid_username, valid_username};
use sha2::Digest;
use vstd::prelude::*;

verus! {

/// A registered account. `has_logged_in` flips once, on the first successful
/// login, which triggers the one-time scaffolding of the user's page.
pub struct User {
    pub username: String,
    pub password_hash: String,
    pub has_logged_in: bool,
}

/// The body of a registration request.
pub struct RegisterRequest {
    pub username: String,
    pub password: String,
    pub confirm_password: String,
}

/// The body of a login request.
pub struct LoginRequest {
    pub username: String,
    pub password: String,
}

/// The SHA-256 digest of a byte string, as the sha2 crate computes it.
pub uninterp spec fn sha256_of(b: Seq<u8>) -> Seq<u8>;

/// The standard-alphabet base64 rendering of a byte string, as the base64
/// crate computes it.
pub uninterp spec fn base64_of(b: Seq<u8>) -> Seq<char>;

/// Relies on sha2's `Sha256::digest`: a 32-byte digest that depends on the
/// input bytes alone.
#[verifier::external_body]
fn sha256_bytes(b: &[u8]) -> (r: Vec<u8>)
    ensures
        r@ == sha256_of(b@),
        r@.len() == 32,
{
    sha2::Sha256::digest(b).to_vec()
}

/// Relies on base64's `encode`: the standard-alphabet, padded encoding of
/// the input bytes, determined by them alone.
#[verifier::external_body]
fn base64_string(b: &[u8]) -> (r: String)
    ensures
        r@ == base64_of(b@),
{
    base64::encode(b)
}

/// How a stored password hash is derived from the password text.
pub open spec fn spec_password_hash(pwd: Seq<char>) -> Seq<char> {
    base64_of(sha256_of(vstd::utf8::encode_utf8(pwd)))
}

/// Hashes a password the way the stored hashes were made.
pub fn hash_password(password: &str) -> (r: String)
    ensures
        r@ == spec_password_hash(password@),
{
    let digest = sha256_bytes(password.as_bytes());
    base64_string(digest.as_slice())
}

/// The table of accounts, keyed by username.
pub struct UserTable {
    pub users: Vec<User>,
}

impl UserTable {
    /// Usernames are unique.
    pub open spec fn wf(self) -> bool {
        forall|i: int, j: int|
            0 <= i < j < self.users@.len() ==> (#[trigger] self.users@[i]).username@ != (
            #[trigger] self.users@[j]).username@
    }

    /// An account with this username exists.
    pub open spec fn has_user(self, name: Seq<char>) -> bool {
        exists|i: int| 0 <= i < self.users@.len() && (#[trigger] self.users@[i]).username@ == name
    }

    /// The row index of the account with this username.
    pub open spec fn user_idx(self, name: Seq<char>) -> int {
        choose|i: int| 0 <= i < self.users@.len() && (#[trigger] self.users@[i]).username@ == name
    }

    /// The account with this username.
    pub open spec fn spec_user(self, name: Seq<char>) -> User {
        self.users@[self.user_idx(name)]
    }

    pub fn new() -> (r: UserTable)
        ensures
            r.users@.len() == 0,
            r.wf(),
    {
        UserTable { users: Vec::new() }
    }

    /// Looks a username up; the returned index holds that account.
    fn find(&self, name: &str) -> (r: Option<usize>)
        ensures
            match r {
                Some(i) => i < self.users@.len() && self.users@[i as int].username@ == name@,
                None => !self.has_user(name@),
            },
    {
        let n = self.users.len();
        let mut i: usize = 0;
        while i < n
            invariant
                n == self.users@.len(),
                i <= n,
                forall|j: int| 0 <= j < i ==> (#[trigger] self.users@[j]).username@ != name@,
            decreases n - i,
        {
            if crate::text::str_eq(self.users[i].username.as_str(), name) {
                return Some(i);
            }
            i += 1;
        }
        None
    }
}

/// In a well-formed table any row holding `name` is the row `user_idx` picks.
proof fn lemma_user_idx_unique(t: UserTable, name: Seq<char>, i: int)
    requires
        t.wf(),
        0 <= i < t.users@.len(),
        t.users@[i].username@ == name,
    ensures
        t.has_user(name),
        t.user_idx(name) == i,
{
    assert(t.has_user(name));
    let k = t.user_idx(name);
    if k != i {
        assert(t.users@[k].username@ == name);
        assert(false);
    }
}

/// Why a registration request is turned down.
#[derive(Debug, PartialEq, Eq)]
pub enum RegisterError {
    InvalidUsername,
    PasswordTooShort,
    PasswordMismatch,
    UsernameTaken,
}

/// A registration request is acceptable: valid username, a password of at
/// least eight bytes, matching confirmation, and a free username.
pub open spec fn spec_register_ok(req: RegisterRequest, t: UserTable) -> bool {
    &&& valid_username(req.username@)
    &&& vstd::utf8::encode_utf8(req.password@).len() >= 8
    &&& req.password@ == req.confirm_password@
    &&& !t.has_user(req.username@)
}

/// The new table is the old one plus one fresh, never-logged-in account.
pub open spec fn spec_registered(
    old_t: UserTable,
    new_t: UserTable,
    name: Seq<char>,
    pwd: Seq<char>,
) -> bool {
    &&& new_t.users@.len() == old_t.users@.len() + 1
    &&& (forall|i: int|
        0 <= i < old_t.users@.len() ==> #[trigger] new_t.users@[i] == old_t.users@[i])
    &&& new_t.users@.last().username@ == name
    &&& new_t.users@.last().password_hash@ == spec_password_hash(pwd)
    &&& !new_t.users@.last().has_logged_in
}

/// Registers an account: validates the request, then stores the username
/// with the hash of the password.
pub fn register_user(table: &mut UserTable, req: &RegisterRequest) -> (r: Result<
    (),
    RegisterError,
>)
    requires
        old(table).wf(),
    ensures
        final(table).wf(),
        match r {
            Ok(()) => spec_register_ok(*req, *old(table)) && spec_registered(
                *old(table),
                *final(table),
                req.username@,
                req.password@,
            ),
            Err(e) => *final(table) == *old(table) && match e {
                RegisterError::InvalidUsername => !valid_username(req.username@),
                RegisterError::PasswordTooShort => valid_username(req.username@)
                    && vstd::utf8::encode_utf8(req.password@).len() < 8,
                RegisterError::PasswordMismatch => valid_username(req.username@)
                    && vstd::utf8::encode_utf8(req.password@).len() >= 8 && req.password@
                    != req.confirm_password@,
                RegisterError::UsernameTaken => valid_username(req.username@)
                    && vstd::utf8::encode_utf8(req.password@).len() >= 8 && req.password@
                    == req.confirm_password@ && old(table).has_user(req.username@),
            },
        },
{
    if !is_valid_username(req.username.as_str()) {
        return Err(RegisterError::InvalidUsername);
    }
    if req.password.as_str().as_bytes().len() < 8 {
        return Err(RegisterError::PasswordTooShort);
    }
    if !(req.password == req.confirm_password) {
        return Err(RegisterError::PasswordMismatch);
    }
    match table.find(req.username.as_str()) {
        Some(_) => Err(RegisterError::UsernameTaken),
        None => {
            let user = User {
                username: req.username.clone(),
                password_hash: hash_password(req.password.as_str()),
                has_logged_in: false,
            };
            let ghost old_users = table.users@;
            table.users.push(user);
            proof {
                assert forall|i: int, j: int|
                    0 <= i < j < table.users@.len() implies (
                #[trigger] table.users@[i]).username@ != (#[trigger] table.users@[j]).username@ by {
                    if j == table.users@.len() - 1 {
                        assert(table.users@[i] == old_users[i]);
                    }
                }
            }
            Ok(())
        },
    }
}

/// What a login attempt comes to.
pub enum LoginOutcome {
    /// The username is not even well-formed.
    InvalidUsername,
    /// No account carries this username.
    UserNotFound,
    /// The password hash does not match the stored one.
    WrongPassword,
    /// The session may be opened; `page_url` is where the user's page lives,
    /// and `first_login` tells the caller to scaffold that page first.
    LoggedIn { first_login: bool, page_url: String },
}

/// The table after a first login: the same accounts, with that one account
/// now marked as having logged in.
pub open spec fn spec_mark_logged_in(old_t: UserTable, new_t: UserTable, name: Seq<char>) -> bool {
    let k = old_t.user_idx(name);
    &&& new_t.users@.len() == old_t.users@.len()
    &&& (forall|i: int|
        0 <= i < old_t.users@.len() && i != k ==> #[trigger] new_t.users@[i] == old_t.users@[i])
    &&& new_t.users@[k].username@ == old_t.users@[k].username@
    &&& new_t.users@[k].password_hash == old_t.users@[k].password_hash
    &&& new_t.users@[k].has_logged_in
}

/// Checks a login request against the table and, on a first login, records
/// that the account has now logged in.
pub fn login_user(table: &mut UserTable, req: &LoginRequest) -> (r: LoginOutcome)
    requires
        old(table).wf(),
    ensures
        final(table).wf(),
        match r {
            LoginOutcome::InvalidUsername => !valid_username(req.username@) && *final(table)
                == *old(table),
            LoginOutcome::UserNotFound => valid_username(req.username@) && !old(table).has_user(
                req.username@,
            ) && *final(table) == *old(table),
            LoginOutcome::WrongPassword => valid_username(req.username@) && old(table).has_user(
                req.username@,
            ) && old(table).spec_user(req.username@).password_hash@ != spec_password_hash(
                req.password@,
            ) && *final(table) == *old(table),
            LoginOutcome::LoggedIn { first_login, page_url } => {
                &&& valid_username(req.username@)
                &&& old(table).has_user(req.username@)
                &&& old(table).spec_user(req.username@).password_hash@ == spec_password_hash(
                    req.password@,
                )
                &&& first_login == !old(table).spec_user(req.username@).has_logged_in
                &&& (first_login ==> spec_mark_logged_in(*old(table), *final(table), req.username@))
                &&& (!first_login ==> *final(table) == *old(table))
                &&& page_url@ == spec_user_url(req.username@, "my_page.html"@)
            },
        },
{
    if !is_valid_username(req.username.as_str()) {
        return LoginOutcome::InvalidUsername;
    }
    let found = table.find(req.username.as_str());
    match found {
        None => LoginOutcome::UserNotFound,
        Some(i) => {
            proof {
                lemma_user_idx_unique(*table, req.username@, i as int);
            }
            let computed = hash_password(req.password.as_str());
            if !(computed == table.users[i].password_hash) {
                return LoginOutcome::WrongPassword;
            }
            let first_login = !table.users[i].has_logged_in;
            if first_login {
                let updated = User {
                    username: table.users[i].username.clone(),
                    password_hash: table.users[i].password_hash.clone(),
                    has_logged_in: true,
                };
                let ghost old_t = *table;
                table.users.set(i, updated);
                proof {
                    assert forall|a: int, b: int|
                        0 <= a < b < table.users@.len() implies (
                    #[trigger] table.users@[a]).username@ != (
                    #[trigger] table.users@[b]).username@ by {
                        assert(table.users@[a].username@ == old_t.users@[a].username@);
                        assert(table.users@[b].username@ == old_t.users@[b].username@);
                    }
                }
            }
            let page_url = url_under_user(req.username.as_str(), "my_page.html");
            LoginOutcome::LoggedIn { first_login, page_url }
        },
    }
}

} // verus!
