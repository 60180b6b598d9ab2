use homepages::access::{
    allowed_extension, extension_of, get_friend_photos, user_page, FriendPhotosOutcome, PageAccess,
};
use homepages::friends::{FriendRow, FriendTable};

fn linked(a: &str, b: &str) -> FriendTable {
    FriendTable {
        rows: vec![
            FriendRow { user1: a.to_string(), user2: b.to_string() },
            FriendRow { user1: b.to_string(), user2: a.to_string() },
        ],
    }
}

#[test]
fn extensions() {
    assert_eq!(extension_of("photo.final.jpg"), "jpg");
    assert_eq!(extension_of("noext"), "noext");
    assert_eq!(extension_of("trailing."), "");
    assert!(allowed_extension("html"));
    assert!(allowed_extension("flac"));
    assert!(!allowed_extension("exe"));
    assert!(!allowed_extension(""));
}

#[test]
fn traversal_and_bad_extensions_are_refused() {
    let friends = FriendTable::new();
    assert!(matches!(
        user_page("alice", "../secret.html", Some("alice"), &friends),
        PageAccess::Forbidden
    ));
    assert!(matches!(
        user_page("alice", "/etc/passwd.html", Some("alice"), &friends),
        PageAccess::Forbidden
    ));
    assert!(matches!(
        user_page("alice", "\\evil.html", Some("alice"), &friends),
        PageAccess::Forbidden
    ));
    assert!(matches!(
        user_page("not a user", "page.html", Some("alice"), &friends),
        PageAccess::NotFound
    ));
    assert!(matches!(
        user_page("alice", "run.exe", Some("alice"), &friends),
        PageAccess::Forbidden
    ));
}

#[test]
fn own_page_and_static_files_are_served() {
    let friends = FriendTable::new();
    match user_page("alice", "my_page.html", Some("alice"), &friends) {
        PageAccess::Serve { path } => assert_eq!(path, "./user_pages/alice/my_page.html"),
        _ => panic!("the owner may see their page"),
    }
    // CSS and JS are served even to strangers.
    match user_page("alice", "my_styles.css", Some("mallory"), &friends) {
        PageAccess::Serve { path } => assert_eq!(path, "./user_pages/alice/my_styles.css"),
        _ => panic!("css is not sensitive"),
    }
    assert!(matches!(
        user_page("alice", "my_scripts.js", None, &friends),
        PageAccess::Serve { .. }
    ));
}

#[test]
fn private_files_need_a_friend_or_the_owner() {
    let friends = linked("alice", "bob");
    assert!(matches!(
        user_page("alice", "my_page.html", Some("bob"), &friends),
        PageAccess::Serve { .. }
    ));
    assert!(matches!(
        user_page("alice", "my_page.html", Some("mallory"), &friends),
        PageAccess::Forbidden
    ));
    assert!(matches!(user_page("alice", "my_page.html", None, &friends), PageAccess::Unauthorized));
}

#[test]
fn friend_photos_refuses_unauthenticated_and_self() {
    let friends = linked("alice", "bob");
    assert!(matches!(
        get_friend_photos(None, "alice", vec![], &friends),
        FriendPhotosOutcome::Unauthorized
    ));
    assert!(matches!(
        get_friend_photos(Some("alice"), "alice", vec![], &friends),
        FriendPhotosOutcome::OwnPhotos
    ));
    assert!(matches!(
        get_friend_photos(Some("mallory"), "alice", vec![], &friends),
        FriendPhotosOutcome::NotFriends
    ));
}

#[test]
fn friend_photos_builds_urls() {
    let friends = linked("alice", "bob");
    let photos = vec!["a.jpg".to_string(), "b.png".to_string()];
    match get_friend_photos(Some("bob"), "alice", photos, &friends) {
        FriendPhotosOutcome::Photos(v) => {
            assert_eq!(v.len(), 2);
            assert_eq!(v[0].filename, "a.jpg");
            assert_eq!(v[0].url, "/user_pages/alice/photos/a.jpg");
            assert_eq!(v[1].url, "/user_pages/alice/photos/b.png");
        }
        _ => panic!("friends may list photos"),
    }
}
