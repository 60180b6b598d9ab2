//! Friendships: a symmetric relation stored as matched row pairs, entered
//! by redeeming an invite token.

use crate::invite::{spec_token_consumed, InviteTable};
use vstd::prelude::*;
use vstd::string::StringExecFns;

verus! {

/// The body of an add-friend request.
pub struct AddFriendData {
    pub invite_code: String,
}

/// One direction of a friendship: `user1` may see `user2`'s page.
pub struct FriendRow {
    pub user1: String,
    pub user2: String,
}

/// The friendship table. Rows are inserted as matched pairs, so adjacency
/// can be answered by a single-directional lookup.
pub struct FriendTable {
    pub rows: Vec<FriendRow>,
}

impl FriendTable {
    /// Row `i` links `a` to `b`.
    pub open spec fn row_is(self, i: int, a: Seq<char>, b: Seq<char>) -> bool {
        self.rows@[i].user1@ == a && self.rows@[i].user2@ == b
    }

    /// A row links `a` to `b`.
    pub open spec fn friends_with(self, a: Seq<char>, b: Seq<char>) -> bool {
        exists|i: int| 0 <= i < self.rows@.len() && self.row_is(i, a, b)
    }

    /// No duplicate rows, and every row has its mirror image.
    pub open spec fn wf(self) -> bool {
        &&& (forall|i: int, j: int|
            0 <= i < j < self.rows@.len() ==> !((#[trigger] self.rows@[i]).user1@ == (
            #[trigger] self.rows@[j]).user1@ && self.rows@[i].user2@ == self.rows@[j].user2@))
        &&& (forall|i: int|
            0 <= i < self.rows@.len() ==> self.friends_with(
                (#[trigger] self.rows@[i]).user2@,
                self.rows@[i].user1@,
            ))
    }

    pub fn new() -> (r: FriendTable)
        ensures
            r.rows@.len() == 0,
            r.wf(),
    {
        FriendTable { rows: Vec::new() }
    }

    /// Tells whether a row links `a` to `b`.
    pub fn has_row(&self, a: &str, b: &str) -> (r: bool)
        ensures
            r == self.friends_with(a@, b@),
    {
        let n = self.rows.len();
        let mut i: usize = 0;
        while i < n
            invariant
                n == self.rows@.len(),
                i <= n,
                forall|j: int| 0 <= j < i ==> !self.row_is(j, a@, b@),
            decreases n - i,
        {
            if crate::text::str_eq(self.rows[i].user1.as_str(), a) && crate::text::str_eq(
                self.rows[i].user2.as_str(),
                b,
            ) {
                assert(self.row_is(i as int, a@, b@));
                return true;
            }
            i += 1;
        }
        false
    }
}

/// Friendship is symmetric: in a well-formed table a link from `a` to `b`
/// exists exactly when the link from `b` to `a` does.
pub proof fn lemma_friendship_symmetric(t: FriendTable, a: Seq<char>, b: Seq<char>)
    requires
        t.wf(),
    ensures
        t.friends_with(a, b) == t.friends_with(b, a),
{
    if t.friends_with(a, b) {
        let i = choose|i: int| 0 <= i < t.rows@.len() && t.row_is(i, a, b);
        assert(t.friends_with(t.rows@[i].user2@, t.rows@[i].user1@));
    }
    if t.friends_with(b, a) {
        let i = choose|i: int| 0 <= i < t.rows@.len() && t.row_is(i, b, a);
        assert(t.friends_with(t.rows@[i].user2@, t.rows@[i].user1@));
    }
}

/// Appending one row adds exactly that link.
proof fn lemma_push_pair(old_f: FriendTable, new_f: FriendTable, a: Seq<char>, b: Seq<char>)
    requires
        new_f.rows@.len() == old_f.rows@.len() + 1,
        forall|i: int| 0 <= i < old_f.rows@.len() ==> new_f.rows@[i] == old_f.rows@[i],
        new_f.rows@.last().user1@ == a,
        new_f.rows@.last().user2@ == b,
    ensures
        forall|x: Seq<char>, y: Seq<char>|
            #[trigger] new_f.friends_with(x, y) <==> (old_f.friends_with(x, y) || (x == a && y
                == b)),
{
    assert forall|x: Seq<char>, y: Seq<char>| #[trigger] new_f.friends_with(x, y) implies (
    old_f.friends_with(x, y) || (x == a && y == b)) by {
        let i = choose|i: int| 0 <= i < new_f.rows@.len() && new_f.row_is(i, x, y);
        if i < old_f.rows@.len() {
            assert(old_f.row_is(i, x, y));
        }
    }
    assert forall|x: Seq<char>, y: Seq<char>| (old_f.friends_with(x, y) || (x == a && y
        == b)) implies #[trigger] new_f.friends_with(x, y) by {
        if old_f.friends_with(x, y) {
            let i = choose|i: int| 0 <= i < old_f.rows@.len() && old_f.row_is(i, x, y);
            assert(new_f.row_is(i, x, y));
        } else {
            assert(new_f.row_is(new_f.rows@.len() - 1, a, b));
        }
    }
}

/// The new table links exactly the old pairs plus `a` and `b`, both ways.
pub open spec fn spec_befriended(
    old_f: FriendTable,
    new_f: FriendTable,
    a: Seq<char>,
    b: Seq<char>,
) -> bool {
    forall|x: Seq<char>, y: Seq<char>|
        #[trigger] new_f.friends_with(x, y) <==> (old_f.friends_with(x, y) || (x == a && y == b)
            || (x == b && y == a))
}

/// What an add-friend request comes to.
pub enum AddFriendOutcome {
    /// No session cookie came with the request.
    Unauthorized,
    /// The invite code names no live token.
    InvalidCode,
    /// The invite code was issued by the requester themselves.
    SelfFriend,
    /// The friendship now exists both ways and the token is consumed.
    Added,
}

/// Redeems an invite code for the session user: in one step the friendship
/// is entered in both directions and the token is consumed, so no partial
/// outcome is ever visible to later requests.
pub fn add_friend(
    session: Option<&str>,
    invites: &mut InviteTable,
    friends: &mut FriendTable,
    data: &AddFriendData,
) -> (r: AddFriendOutcome)
    requires
        old(invites).wf(),
        old(friends).wf(),
    ensures
        final(invites).wf(),
        final(friends).wf(),
        match r {
            AddFriendOutcome::Unauthorized => session is None && *final(invites) == *old(invites)
                && *final(friends) == *old(friends),
            AddFriendOutcome::InvalidCode => session is Some && !old(invites).has_token(
                data.invite_code@,
            ) && *final(invites) == *old(invites) && *final(friends) == *old(friends),
            AddFriendOutcome::SelfFriend => {
                &&& session matches Some(u) && old(invites).owner_of(data.invite_code@) == u@
                &&& old(invites).has_token(data.invite_code@)
                &&& *final(invites) == *old(invites)
                &&& *final(friends) == *old(friends)
            },
            AddFriendOutcome::Added => session matches Some(u) && ({
                &&& spec_befriended(
                    *old(friends),
                    *final(friends),
                    u@,
                    old(invites).owner_of(data.invite_code@),
                )
                &&& old(invites).has_token(data.invite_code@)
                &&& old(invites).owner_of(data.invite_code@) != u@
                &&& spec_token_consumed(*old(invites), *final(invites), data.invite_code@)
            }),
        },
{
    let user = match session {
        None => {
            return AddFriendOutcome::Unauthorized;
        },
        Some(u) => u,
    };
    let owner = match invites.lookup_owner(data.invite_code.as_str()) {
        None => {
            return AddFriendOutcome::InvalidCode;
        },
        Some(o) => o,
    };
    if crate::text::str_eq(user, owner.as_str()) {
        return AddFriendOutcome::SelfFriend;
    }
    let ghost old_f = *friends;
    let had_forward = friends.has_row(user, owner.as_str());
    let had_backward = friends.has_row(owner.as_str(), user);
    if !had_forward {
        friends.rows.push(FriendRow { user1: String::from_str(user), user2: owner.clone() });
    }
    let ghost mid_f = *friends;
    proof {
        if !had_forward {
            lemma_push_pair(old_f, mid_f, user@, owner@);
        }
    }
    if !had_backward {
        friends.rows.push(FriendRow { user1: owner.clone(), user2: String::from_str(user) });
    }
    proof {
        if !had_backward {
            lemma_push_pair(mid_f, *friends, owner@, user@);
        }
        lemma_friendship_symmetric(old_f, user@, owner@);
        let a = user@;
        let b = owner@;
        let n = old_f.rows@.len() as int;
        if had_forward {
            // Both directions were already present, so nothing was pushed.
            assert(*friends == old_f);
            assert forall|x: Seq<char>, y: Seq<char>| #[trigger]
                friends.friends_with(x, y) <==> (old_f.friends_with(x, y) || (x == a && y == b) || (
            x == b && y == a)) by {}
        } else {
            // Two fresh rows: the link and its mirror image.
            assert(friends.rows@.len() == n + 2);
            assert forall|i: int, j: int| 0 <= i < j < friends.rows@.len() implies !((
            #[trigger] friends.rows@[i]).user1@ == (#[trigger] friends.rows@[j]).user1@
                && friends.rows@[i].user2@ == friends.rows@[j].user2@) by {
                if j < n {
                } else if j == n {
                    if friends.rows@[i].user1@ == a && friends.rows@[i].user2@ == b {
                        assert(old_f.row_is(i, a, b));
                        assert(old_f.friends_with(a, b));
                    }
                } else {
                    if i < n {
                        if friends.rows@[i].user1@ == b && friends.rows@[i].user2@ == a {
                            assert(old_f.row_is(i, b, a));
                            assert(old_f.friends_with(b, a));
                        }
                    }
                }
            }
            assert forall|i: int| 0 <= i < friends.rows@.len() implies friends.friends_with(
                (#[trigger] friends.rows@[i]).user2@,
                friends.rows@[i].user1@,
            ) by {
                if i < n {
                    assert(old_f.friends_with(old_f.rows@[i].user2@, old_f.rows@[i].user1@));
                    assert(friends.rows@[i] == old_f.rows@[i]);
                    assert(friends.friends_with(friends.rows@[i].user2@, friends.rows@[i].user1@));
                } else if i == n {
                    assert(friends.friends_with(b, a));
                } else {
                    assert(friends.friends_with(a, b));
                }
            }
        }
    }
    let consumed = invites.consume(data.invite_code.as_str());
    assert(consumed);
    AddFriendOutcome::Added
}

/// `name` appears among the listed friends.
pub open spec fn listed(v: Seq<String>, name: Seq<char>) -> bool {
    exists|k: int| 0 <= k < v.len() && v[k]@ == name
}

/// Some row among the first `i` links `u` to `name`.
spec fn row_in_prefix(t: FriendTable, u: Seq<char>, name: Seq<char>, i: int) -> bool {
    exists|j: int| 0 <= j < i && t.row_is(j, u, name)
}

/// What listing one's friends comes to.
pub enum GetFriendsOutcome {
    /// No session cookie came with the request.
    Unauthorized,
    /// Every friend of the session user, each exactly once.
    Friends(Vec<String>),
}

/// Lists the friends of the session user, each exactly once, themselves
/// excluded.
pub fn get_friends(session: Option<&str>, friends: &FriendTable) -> (r: GetFriendsOutcome)
    requires
        friends.wf(),
    ensures
        match r {
            GetFriendsOutcome::Unauthorized => session is None,
            GetFriendsOutcome::Friends(v) => session matches Some(u) && ({
                &&& (forall|i: int|
                    0 <= i < v@.len() ==> friends.friends_with(u@, (#[trigger] v@[i])@) && v@[i]@
                        != u@)
                &&& (forall|name: Seq<char>|
                    #[trigger] friends.friends_with(u@, name) && name != u@ ==> listed(v@, name))
                &&& (forall|i: int, j: int| 0 <= i < j < v@.len() ==> v@[i]@ != v@[j]@)
            }),
        },
{
    let user = match session {
        None => {
            return GetFriendsOutcome::Unauthorized;
        },
        Some(u) => u,
    };
    let n = friends.rows.len();
    let mut v: Vec<String> = Vec::new();
    let mut i: usize = 0;
    while i < n
        invariant
            friends.wf(),
            n == friends.rows@.len(),
            i <= n,
            forall|k: int|
                0 <= k < v@.len() ==> friends.friends_with(user@, (#[trigger] v@[k])@) && v@[k]@
                    != user@,
            forall|k: int|
                0 <= k < v@.len() ==> row_in_prefix(*friends, user@, (#[trigger] v@[k])@, i as int),
            forall|j: int|
                0 <= j < i && (#[trigger] friends.rows@[j]).user1@ == user@
                    && friends.rows@[j].user2@ != user@ ==> listed(
                    v@,
                    friends.rows@[j].user2@,
                ),
            forall|k: int, l: int| 0 <= k < l < v@.len() ==> v@[k]@ != v@[l]@,
        decreases n - i,
    {
        let ghost prev = v@;
        if crate::text::str_eq(friends.rows[i].user1.as_str(), user) && !crate::text::str_eq(
            friends.rows[i].user2.as_str(),
            user,
        ) {
            proof {
                // A second row with the same pair would be a duplicate.
                assert forall|k: int| 0 <= k < prev.len() implies (#[trigger] prev[k])@
                    != friends.rows@[i as int].user2@ by {
                    if prev[k]@ == friends.rows@[i as int].user2@ {
                        assert(row_in_prefix(*friends, user@, prev[k]@, i as int));
                        let j = choose|j: int|
                            0 <= j < i && friends.row_is(j, user@, (#[trigger] prev[k])@);
                        assert(friends.rows@[j].user1@ == friends.rows@[i as int].user1@
                            && friends.rows@[j].user2@ == friends.rows@[i as int].user2@);
                    }
                }
                assert(friends.row_is(i as int, user@, friends.rows@[i as int].user2@));
            }
            v.push(friends.rows[i].user2.clone());
        }
        proof {
            assert forall|k: int| 0 <= k < v@.len() implies row_in_prefix(
                *friends,
                user@,
                (#[trigger] v@[k])@,
                i + 1,
            ) by {
                if k < prev.len() {
                    assert(v@[k] == prev[k]);
                    assert(row_in_prefix(*friends, user@, prev[k]@, i as int));
                    let j = choose|j: int| 0 <= j < i && friends.row_is(j, user@, (prev[k])@);
                    assert(0 <= j < i + 1 && friends.row_is(j, user@, (v@[k])@));
                } else {
                    assert(v@[k]@ == friends.rows@[i as int].user2@);
                    assert(friends.row_is(i as int, user@, (v@[k])@));
                }
            }
            assert forall|j: int|
                0 <= j < i + 1 && (#[trigger] friends.rows@[j]).user1@ == user@
                    && friends.rows@[j].user2@ != user@ implies listed(
                v@,
                friends.rows@[j].user2@,
            ) by {
                if j < i {
                    assert(listed(prev, friends.rows@[j].user2@));
                    let k = choose|k: int|
                        0 <= k < prev.len() && prev[k]@ == friends.rows@[j].user2@;
                    assert(v@[k]@ == friends.rows@[j].user2@);
                } else {
                    assert(v@[v@.len() - 1]@ == friends.rows@[j].user2@);
                }
            }
        }
        i += 1;
    }
    proof {
        assert forall|name: Seq<char>| #[trigger] friends.friends_with(user@, name) && name
            != user@ implies listed(v@, name) by {
            let j = choose|j: int| 0 <= j < friends.rows@.len() && friends.row_is(j, user@, name);
            assert(friends.rows@[j].user2@ == name);
        }
    }
    GetFriendsOutcome::Friends(v)
}

} // verus!
