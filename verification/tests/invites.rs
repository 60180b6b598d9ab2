use homepages::friends::{
    add_friend, get_friends, AddFriendData, AddFriendOutcome, FriendTable, GetFriendsOutcome,
};
use homepages::invite::{
    add_invite_token, generate_invite, handle_invite, GenerateInviteOutcome, InviteOutcome,
    InviteTable,
};

#[test]
fn generate_creates_a_live_token() {
    let mut invites = InviteTable::new();
    assert!(matches!(generate_invite(None, &mut invites), GenerateInviteOutcome::Unauthorized));
    assert_eq!(invites.tokens.len(), 0);

    match generate_invite(Some("alice"), &mut invites) {
        GenerateInviteOutcome::Created { invite_code } => {
            assert_eq!(invite_code.chars().count(), 36);
            assert_eq!(invites.tokens.len(), 1);
            assert_eq!(invites.tokens[0].token, invite_code);
            assert_eq!(invites.tokens[0].username, "alice");
        }
        _ => panic!("expected a fresh invite"),
    }
}

#[test]
fn invite_token_is_single_use() {
    let mut invites = InviteTable::new();
    add_invite_token(&mut invites, "tok-1", "alice").unwrap();
    assert!(add_invite_token(&mut invites, "tok-1", "bob").is_err());

    match handle_invite(&mut invites, "tok-1") {
        InviteOutcome::Found { username, page_path } => {
            assert_eq!(username, "alice");
            assert_eq!(page_path, "./user_pages/alice/my_page.html");
        }
        InviteOutcome::NotFound => panic!("the token was live"),
    }
    assert!(matches!(handle_invite(&mut invites, "tok-1"), InviteOutcome::NotFound));
    assert_eq!(invites.tokens.len(), 0);
}

#[test]
fn unknown_invite_serves_not_found() {
    let mut invites = InviteTable::new();
    add_invite_token(&mut invites, "tok-1", "alice").unwrap();
    assert!(matches!(handle_invite(&mut invites, "tok-2"), InviteOutcome::NotFound));
    assert_eq!(invites.tokens.len(), 1);
}

#[test]
fn add_friend_consumes_token_and_links_both_ways() {
    let mut invites = InviteTable::new();
    let mut friends = FriendTable::new();
    add_invite_token(&mut invites, "tok-1", "alice").unwrap();

    let data = AddFriendData { invite_code: "tok-1".to_string() };
    assert!(matches!(
        add_friend(None, &mut invites, &mut friends, &data),
        AddFriendOutcome::Unauthorized
    ));
    let r = add_friend(Some("bob"), &mut invites, &mut friends, &data);
    assert!(matches!(r, AddFriendOutcome::Added));

    // The friendship was inserted symmetrically.
    assert!(friends.has_row("bob", "alice"));
    assert!(friends.has_row("alice", "bob"));
    assert_eq!(friends.rows.len(), 2);

    // The token is gone: redeeming it again fails.
    assert!(matches!(
        add_friend(Some("carol"), &mut invites, &mut friends, &data),
        AddFriendOutcome::InvalidCode
    ));
    assert!(!friends.has_row("carol", "alice"));
}

#[test]
fn add_friend_rejects_self_and_bad_codes() {
    let mut invites = InviteTable::new();
    let mut friends = FriendTable::new();
    add_invite_token(&mut invites, "tok-1", "alice").unwrap();

    let bad = AddFriendData { invite_code: "nope".to_string() };
    assert!(matches!(
        add_friend(Some("bob"), &mut invites, &mut friends, &bad),
        AddFriendOutcome::InvalidCode
    ));

    let own = AddFriendData { invite_code: "tok-1".to_string() };
    assert!(matches!(
        add_friend(Some("alice"), &mut invites, &mut friends, &own),
        AddFriendOutcome::SelfFriend
    ));
    // A failed self-add leaves the token live.
    assert_eq!(invites.tokens.len(), 1);
    assert_eq!(friends.rows.len(), 0);
}

#[test]
fn adding_twice_leaves_no_duplicate_rows() {
    let mut invites = InviteTable::new();
    let mut friends = FriendTable::new();
    add_invite_token(&mut invites, "tok-1", "alice").unwrap();
    add_invite_token(&mut invites, "tok-2", "alice").unwrap();
    let d1 = AddFriendData { invite_code: "tok-1".to_string() };
    let d2 = AddFriendData { invite_code: "tok-2".to_string() };
    assert!(matches!(add_friend(Some("bob"), &mut invites, &mut friends, &d1), AddFriendOutcome::Added));
    assert!(matches!(add_friend(Some("bob"), &mut invites, &mut friends, &d2), AddFriendOutcome::Added));
    assert_eq!(friends.rows.len(), 2);
}

#[test]
fn get_friends_lists_each_friend_once() {
    let mut invites = InviteTable::new();
    let mut friends = FriendTable::new();
    add_invite_token(&mut invites, "tok-1", "alice").unwrap();
    add_invite_token(&mut invites, "tok-2", "carol").unwrap();
    add_friend(
        Some("bob"),
        &mut invites,
        &mut friends,
        &AddFriendData { invite_code: "tok-1".to_string() },
    );
    add_friend(
        Some("bob"),
        &mut invites,
        &mut friends,
        &AddFriendData { invite_code: "tok-2".to_string() },
    );

    assert!(matches!(get_friends(None, &friends), GetFriendsOutcome::Unauthorized));
    match get_friends(Some("bob"), &friends) {
        GetFriendsOutcome::Friends(v) => {
            assert_eq!(v.len(), 2);
            assert!(v.contains(&"alice".to_string()));
            assert!(v.contains(&"carol".to_string()));
        }
        _ => panic!("expected a friend list"),
    }
    match get_friends(Some("alice"), &friends) {
        GetFriendsOutcome::Friends(v) => assert_eq!(v, vec!["bob".to_string()]),
        _ => panic!("expected a friend list"),
    }
    match get_friends(Some("dora"), &friends) {
        GetFriendsOutcome::Friends(v) => assert!(v.is_empty()),
        _ => panic!("expected a friend list"),
    }
}
