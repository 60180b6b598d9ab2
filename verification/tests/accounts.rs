use homepages::auth::{
    hash_password, login_user, register_user, LoginOutcome, LoginRequest, RegisterError,
    RegisterRequest, UserTable,
};
use homepages::username::is_valid_username;
use sha2::Digest;

fn request(name: &str, pwd: &str, confirm: &str) -> RegisterRequest {
    RegisterRequest {
        username: name.to_string(),
        password: pwd.to_string(),
        confirm_password: confirm.to_string(),
    }
}

#[test]
fn username_rules() {
    assert!(is_valid_username("alice"));
    assert!(is_valid_username("Alice_42-x"));
    assert!(!is_valid_username(""));
    assert!(!is_valid_username("alice bob"));
    assert!(!is_valid_username("alice/../etc"));
    assert!(!is_valid_username("héllo"));
}

#[test]
fn register_validations() {
    let mut t = UserTable::new();
    assert_eq!(
        register_user(&mut t, &request("bad name", "password1", "password1")),
        Err(RegisterError::InvalidUsername)
    );
    assert_eq!(
        register_user(&mut t, &request("alice", "short", "short")),
        Err(RegisterError::PasswordTooShort)
    );
    assert_eq!(
        register_user(&mut t, &request("alice", "password1", "password2")),
        Err(RegisterError::PasswordMismatch)
    );
    assert_eq!(register_user(&mut t, &request("alice", "password1", "password1")), Ok(()));
    assert_eq!(
        register_user(&mut t, &request("alice", "otherpass", "otherpass")),
        Err(RegisterError::UsernameTaken)
    );
    assert_eq!(t.users.len(), 1);
    assert!(!t.users[0].has_logged_in);
}

#[test]
fn password_hash_is_sha256_base64() {
    let h = hash_password("password1");
    let mut hasher = sha2::Sha256::new();
    hasher.update("password1");
    let expected = base64::encode(hasher.finalize());
    assert_eq!(h, expected);
    assert_ne!(h, "password1");
}

#[test]
fn login_flow() {
    let mut t = UserTable::new();
    register_user(&mut t, &request("alice", "password1", "password1")).unwrap();

    let bad_name = login_user(
        &mut t,
        &LoginRequest { username: "no such!".to_string(), password: "x".to_string() },
    );
    assert!(matches!(bad_name, LoginOutcome::InvalidUsername));

    let unknown = login_user(
        &mut t,
        &LoginRequest { username: "bob".to_string(), password: "password1".to_string() },
    );
    assert!(matches!(unknown, LoginOutcome::UserNotFound));

    let wrong = login_user(
        &mut t,
        &LoginRequest { username: "alice".to_string(), password: "password2".to_string() },
    );
    assert!(matches!(wrong, LoginOutcome::WrongPassword));
    assert!(!t.users[0].has_logged_in);

    match login_user(
        &mut t,
        &LoginRequest { username: "alice".to_string(), password: "password1".to_string() },
    ) {
        LoginOutcome::LoggedIn { first_login, page_url } => {
            assert!(first_login);
            assert_eq!(page_url, "/user_pages/alice/my_page.html");
        }
        _ => panic!("expected a successful login"),
    }
    assert!(t.users[0].has_logged_in);

    match login_user(
        &mut t,
        &LoginRequest { username: "alice".to_string(), password: "password1".to_string() },
    ) {
        LoginOutcome::LoggedIn { first_login, .. } => assert!(!first_login),
        _ => panic!("expected a successful login"),
    }
}
