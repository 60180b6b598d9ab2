//! Invite tokens: one-shot capability strings that grant friendship with
//! their issuer when redeemed.

use crate::paths::{path_under_user, spec_user_path};
use vstd::prelude::*;
use vstd::string::StringExecFns;

verus! {

/// A live invite token and the user who issued it.
pub struct InviteToken {
    pub token: String,
    pub username: String,
}

/// The table of live invite tokens, keyed by token string.
pub struct InviteTable {
    pub tokens: Vec<InviteToken>,
}

/// The body of the response handed out when an invite is generated.
pub struct InviteLinkResponse {
    pub invite_link: String,
}

impl InviteTable {
    /// Token strings are unique.
    pub open spec fn wf(self) -> bool {
        forall|i: int, j: int|
            0 <= i < j < self.tokens@.len() ==> (#[trigger] self.tokens@[i]).token@ != (
            #[trigger] self.tokens@[j]).token@
    }

    /// A live token with this text exists.
    pub open spec fn has_token(self, tok: Seq<char>) -> bool {
        exists|i: int| 0 <= i < self.tokens@.len() && (#[trigger] self.tokens@[i]).token@ == tok
    }

    /// The row index of the token with this text.
    pub open spec fn token_idx(self, tok: Seq<char>) -> int {
        choose|i: int| 0 <= i < self.tokens@.len() && (#[trigger] self.tokens@[i]).token@ == tok
    }

    /// The user who issued the token with this text.
    pub open spec fn owner_of(self, tok: Seq<char>) -> Seq<char> {
        self.tokens@[self.token_idx(tok)].username@
    }

    pub fn new() -> (r: InviteTable)
        ensures
            r.tokens@.len() == 0,
            r.wf(),
    {
        InviteTable { tokens: Vec::new() }
    }

    /// Names the user who issued a live token.
    pub fn lookup_owner(&self, token: &str) -> (r: Option<String>)
        requires
            self.wf(),
        ensures
            match r {
                Some(o) => self.has_token(token@) && o@ == self.owner_of(token@),
                None => !self.has_token(token@),
            },
    {
        match self.find(token) {
            None => None,
            Some(i) => {
                proof {
                    lemma_token_idx_unique(*self, token@, i as int);
                }
                Some(self.tokens[i].username.clone())
            },
        }
    }

    /// Deletes a token if it is live; reports whether it was.
    pub fn consume(&mut self, token: &str) -> (r: bool)
        requires
            old(self).wf(),
        ensures
            final(self).wf(),
            r == old(self).has_token(token@),
            r ==> spec_token_consumed(*old(self), *final(self), token@),
            !r ==> *final(self) == *old(self),
    {
        match self.find(token) {
            None => false,
            Some(i) => {
                proof {
                    lemma_token_idx_unique(*self, token@, i as int);
                }
                let ghost old_t = *self;
                let _ = self.tokens.remove(i);
                proof {
                    assert forall|a: int, b: int|
                        0 <= a < b < self.tokens@.len() implies (
                    #[trigger] self.tokens@[a]).token@ != (#[trigger] self.tokens@[b]).token@ by {
                        lemma_remove_maps(old_t, *self, i as int, a);
                        lemma_remove_maps(old_t, *self, i as int, b);
                    }
                    assert(!self.has_token(token@)) by {
                        if self.has_token(token@) {
                            let k = choose|k: int|
                                0 <= k < self.tokens@.len() && (#[trigger] self.tokens@[k]).token@
                                    == token@;
                            lemma_remove_maps(old_t, *self, i as int, k);
                        }
                    }
                    assert forall|t: Seq<char>| t != token@ implies (#[trigger] self.has_token(t)
                        <==> old_t.has_token(t)) by {
                        lemma_consumed_other_tokens(old_t, *self, i as int, t);
                    }
                    assert forall|t: Seq<char>| t != token@ && old_t.has_token(t) implies (
                    #[trigger] self.owner_of(t)) == old_t.owner_of(t) by {
                        lemma_consumed_other_tokens(old_t, *self, i as int, t);
                    }
                }
                true
            },
        }
    }

    /// Looks a token up; the returned index holds that token.
    fn find(&self, token: &str) -> (r: Option<usize>)
        ensures
            match r {
                Some(i) => i < self.tokens@.len() && self.tokens@[i as int].token@ == token@,
                None => !self.has_token(token@),
            },
    {
        let n = self.tokens.len();
        let mut i: usize = 0;
        while i < n
            invariant
                n == self.tokens@.len(),
                i <= n,
                forall|j: int| 0 <= j < i ==> (#[trigger] self.tokens@[j]).token@ != token@,
            decreases n - i,
        {
            if crate::text::str_eq(self.tokens[i].token.as_str(), token) {
                return Some(i);
            }
            i += 1;
        }
        None
    }
}

/// In a well-formed table any row holding `tok` is the row `token_idx` picks.
proof fn lemma_token_idx_unique(t: InviteTable, tok: Seq<char>, i: int)
    requires
        t.wf(),
        0 <= i < t.tokens@.len(),
        t.tokens@[i].token@ == tok,
    ensures
        t.has_token(tok),
        t.token_idx(tok) == i,
{
    assert(t.has_token(tok));
    let k = t.token_idx(tok);
    if k != i {
        assert(t.tokens@[k].token@ == tok);
        assert(false);
    }
}

/// The new table is the old one plus one token owned by `owner`.
pub open spec fn spec_token_added(
    old_t: InviteTable,
    new_t: InviteTable,
    tok: Seq<char>,
    owner: Seq<char>,
) -> bool {
    &&& new_t.tokens@.len() == old_t.tokens@.len() + 1
    &&& (forall|i: int|
        0 <= i < old_t.tokens@.len() ==> #[trigger] new_t.tokens@[i] == old_t.tokens@[i])
    &&& new_t.tokens@.last().token@ == tok
    &&& new_t.tokens@.last().username@ == owner
}

/// The new table is the old one with the token `tok` taken out: `tok` is
/// gone, and every other token is still there with the same owner.
pub open spec fn spec_token_consumed(old_t: InviteTable, new_t: InviteTable, tok: Seq<char>) -> bool {
    &&& !new_t.has_token(tok)
    &&& new_t.tokens@.len() == old_t.tokens@.len() - 1
    &&& (forall|t: Seq<char>|
        t != tok ==> (#[trigger] new_t.has_token(t) <==> old_t.has_token(t)))
    &&& (forall|t: Seq<char>|
        t != tok && old_t.has_token(t) ==> #[trigger] new_t.owner_of(t) == old_t.owner_of(t))
}

/// An invite token is usable at most once: a redemption leaves a table in
/// which the token no longer exists, so a second redemption of the same
/// token can only take the not-found branch, whoever attempts it.
pub proof fn lemma_invite_token_single_use(old_t: InviteTable, mid_t: InviteTable, tok: Seq<char>)
    requires
        spec_token_consumed(old_t, mid_t, tok),
    ensures
        !mid_t.has_token(tok),
{
}

/// Why a token could not be stored.
#[derive(Debug, PartialEq, Eq)]
pub enum InviteError {
    TokenExists,
}

/// Stores a fresh invite token for `owner`.
///
/// Fails exactly when a token with the same text is already live.
pub fn add_invite_token(table: &mut InviteTable, token: &str, owner: &str) -> (r: Result<
    (),
    InviteError,
>)
    requires
        old(table).wf(),
    ensures
        final(table).wf(),
        match r {
            Ok(()) => !old(table).has_token(token@) && spec_token_added(
                *old(table),
                *final(table),
                token@,
                owner@,
            ),
            Err(InviteError::TokenExists) => old(table).has_token(token@) && *final(table)
                == *old(table),
        },
{
    match table.find(token) {
        Some(i) => {
            proof {
                lemma_token_idx_unique(*table, token@, i as int);
            }
            Err(InviteError::TokenExists)
        },
        None => {
            let ghost old_t = *table;
            let row = InviteToken {
                token: String::from_str(token),
                username: String::from_str(owner),
            };
            table.tokens.push(row);
            proof {
                assert forall|a: int, b: int|
                    0 <= a < b < table.tokens@.len() implies (
                #[trigger] table.tokens@[a]).token@ != (#[trigger] table.tokens@[b]).token@ by {
                    if b == table.tokens@.len() - 1 {
                        assert(table.tokens@[a] == old_t.tokens@[a]);
                    }
                }
            }
            Ok(())
        },
    }
}

/// Relies on uuid's `Uuid::new_v4` and its `Display` form: a fresh random
/// identifier rendered as 36 hyphenated lower-case hex characters.
#[verifier::external_body]
fn new_invite_token() -> (r: String)
    ensures
        r@.len() == 36,
{
    uuid::Uuid::new_v4().to_string()
}

/// What generating an invite comes to.
pub enum GenerateInviteOutcome {
    /// No session cookie came with the request.
    Unauthorized,
    /// The freshly drawn token is now live, owned by the session user.
    Created { invite_code: String },
    /// The freshly drawn token collided with a live one; nothing changed.
    TokenCollision,
}

/// Draws a fresh random token and stores it for the session user.
pub fn generate_invite(session: Option<&str>, table: &mut InviteTable) -> (r:
    GenerateInviteOutcome)
    requires
        old(table).wf(),
    ensures
        final(table).wf(),
        match r {
            GenerateInviteOutcome::Unauthorized => session is None && *final(table) == *old(table),
            GenerateInviteOutcome::Created { invite_code } => {
                &&& session matches Some(u) && spec_token_added(
                    *old(table),
                    *final(table),
                    invite_code@,
                    u@,
                )
                &&& invite_code@.len() == 36
                &&& !old(table).has_token(invite_code@)
            },
            GenerateInviteOutcome::TokenCollision => session is Some && *final(table) == *old(
                table,
            ),
        },
{
    let user = match session {
        None => {
            return GenerateInviteOutcome::Unauthorized;
        },
        Some(u) => u,
    };
    let token = new_invite_token();
    match add_invite_token(table, token.as_str(), user) {
        Ok(()) => GenerateInviteOutcome::Created { invite_code: token },
        Err(InviteError::TokenExists) => GenerateInviteOutcome::TokenCollision,
    }
}

/// What redeeming an invite link comes to.
pub enum InviteOutcome {
    /// The token was live: it is now consumed, and the issuer's page at
    /// `page_path` is to be served.
    Found { username: String, page_path: String },
    /// The token is unknown or already used.
    NotFound,
}

/// Redeems an invite link: consumes the token and names the issuer's page.
pub fn handle_invite(table: &mut InviteTable, token: &str) -> (r: InviteOutcome)
    requires
        old(table).wf(),
    ensures
        final(table).wf(),
        match r {
            InviteOutcome::NotFound => !old(table).has_token(token@) && *final(table) == *old(
                table,
            ),
            InviteOutcome::Found { username, page_path } => {
                &&& old(table).has_token(token@)
                &&& username@ == old(table).owner_of(token@)
                &&& page_path@ == spec_user_path(old(table).owner_of(token@), "my_page.html"@)
                &&& spec_token_consumed(*old(table), *final(table), token@)
            },
        },
{
    match table.lookup_owner(token) {
        None => InviteOutcome::NotFound,
        Some(username) => {
            let consumed = table.consume(token);
            assert(consumed);
            let page_path = path_under_user(username.as_str(), "my_page.html");
            InviteOutcome::Found { username, page_path }
        },
    }
}

/// Each row of a table with one row removed comes from the old table.
proof fn lemma_remove_maps(old_t: InviteTable, new_t: InviteTable, i: int, a: int)
    requires
        0 <= i < old_t.tokens@.len(),
        new_t.tokens@ == old_t.tokens@.remove(i),
        0 <= a < new_t.tokens@.len(),
    ensures
        new_t.tokens@[a] == if a < i {
            old_t.tokens@[a]
        } else {
            old_t.tokens@[a + 1]
        },
{
}

/// Removing row `i` keeps every other token, with its owner.
proof fn lemma_consumed_other_tokens(old_t: InviteTable, new_t: InviteTable, i: int, t: Seq<char>)
    requires
        old_t.wf(),
        new_t.wf(),
        0 <= i < old_t.tokens@.len(),
        new_t.tokens@ == old_t.tokens@.remove(i),
        t != old_t.tokens@[i].token@,
    ensures
        new_t.has_token(t) <==> old_t.has_token(t),
        old_t.has_token(t) ==> new_t.owner_of(t) == old_t.owner_of(t),
{
    if old_t.has_token(t) {
        let k = old_t.token_idx(t);
        assert(0 <= k < old_t.tokens@.len() && old_t.tokens@[k].token@ == t);
        assert(k != i);
        let k2 = if k < i {
            k
        } else {
            k - 1
        };
        lemma_remove_maps(old_t, new_t, i, k2);
        assert(new_t.tokens@[k2].token@ == t);
        assert(new_t.has_token(t));
        lemma_token_idx_unique(new_t, t, k2);
        assert(new_t.owner_of(t) == new_t.tokens@[k2].username@);
        lemma_token_idx_unique(old_t, t, k);
    }
    if new_t.has_token(t) {
        let k = new_t.token_idx(t);
        assert(new_t.tokens@[k].token@ == t);
        lemma_remove_maps(old_t, new_t, i, k);
        assert(old_t.has_token(t));
    }
}

} // verus!
