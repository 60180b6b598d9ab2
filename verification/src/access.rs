//! Access control for files under a user's page: the requester may see a
//! target's file only if they are the target, the file is CSS or JS, or a
//! friendship links the two.

use crate::friends::{lemma_friendship_symmetric, FriendTable};
use crate::paths::{path_under_user, spec_user_path, spec_user_url, str_concat, url_under_user};
use crate::text::{contains_seq, contains_str, ends_with, ends_with_seq, str_eq};
use crate::username::{is_valid_username, valid_username};
use vstd::prelude::*;
use vstd::string::StrSliceExecFns;

verus! {

/// The characters after the last `.` of `s`; all of `s` when it has no `.`.
pub open spec fn spec_extension(s: Seq<char>) -> Seq<char>
    decreases s.len(),
{
    if s.len() == 0 {
        Seq::empty()
    } else if s.last() == '.' {
        Seq::empty()
    } else {
        spec_extension(s.drop_last()).push(s.last())
    }
}

proof fn lemma_extension_from(s: Seq<char>, d: int)
    requires
        0 <= d <= s.len(),
        forall|j: int| d <= j < s.len() ==> s[j] != '.',
        d > 0 ==> s[d - 1] == '.',
    ensures
        spec_extension(s) == s.subrange(d, s.len() as int),
    decreases s.len(),
{
    if s.len() == 0 {
        assert(s.subrange(0, 0) =~= Seq::<char>::empty());
    } else if d == s.len() {
        assert(s.subrange(d, s.len() as int) =~= Seq::<char>::empty());
    } else {
        assert(s.last() != '.');
        lemma_extension_from(s.drop_last(), d);
        assert(s.subrange(d, s.len() as int) =~= s.drop_last().subrange(
            d,
            s.len() - 1,
        ).push(s.last()));
    }
}

/// Finds the extension of a filename: what follows the last `.`, or the
/// whole name when there is none.
pub fn extension_of(s: &str) -> (r: &str)
    ensures
        r@ == spec_extension(s@),
{
    let len = s.unicode_len();
    let mut i: usize = len;
    while i > 0
        invariant
            len == s@.len(),
            i <= len,
            forall|j: int| i <= j < len ==> s@[j] != '.',
        decreases i,
    {
        if s.get_char(i - 1) == '.' {
            let r = s.substring_char(i, len);
            proof {
                lemma_extension_from(s@, i as int);
            }
            return r;
        }
        i -= 1;
    }
    let r = s.substring_char(0, len);
    proof {
        lemma_extension_from(s@, 0);
    }
    r
}

/// The file extensions the platform is willing to serve.
pub open spec fn spec_allowed_extension(ext: Seq<char>) -> bool {
    ||| ext == "html"@
    ||| ext == "css"@
    ||| ext == "js"@
    ||| ext == "jpg"@
    ||| ext == "jpeg"@
    ||| ext == "png"@
    ||| ext == "gif"@
    ||| ext == "svg"@
    ||| ext == "webp"@
    ||| ext == "bmp"@
    ||| ext == "mp4"@
    ||| ext == "webm"@
    ||| ext == "ogg"@
    ||| ext == "mp3"@
    ||| ext == "wav"@
    ||| ext == "flac"@
}

/// Decides whether an extension is served.
pub fn allowed_extension(ext: &str) -> (r: bool)
    ensures
        r == spec_allowed_extension(ext@),
{
    str_eq(ext, "html") || str_eq(ext, "css") || str_eq(ext, "js") || str_eq(ext, "jpg") || str_eq(
        ext,
        "jpeg",
    ) || str_eq(ext, "png") || str_eq(ext, "gif") || str_eq(ext, "svg") || str_eq(ext, "webp")
        || str_eq(ext, "bmp") || str_eq(ext, "mp4") || str_eq(ext, "webm") || str_eq(ext, "ogg")
        || str_eq(ext, "mp3") || str_eq(ext, "wav") || str_eq(ext, "flac")
}

/// A filename that tries to walk out of the user's directory.
pub open spec fn spec_bad_path(f: Seq<char>) -> bool {
    contains_seq(f, ".."@) || (f.len() > 0 && (f[0] == '/' || f[0] == '\\'))
}

/// What serving a user-page file comes to, apart from whether the file
/// exists on disk.
pub enum PageDecision {
    Forbidden,
    NotFound,
    Unauthorized,
    Serve,
}

/// The access rule for `GET /user_pages/{username}/{filename}`: traversal
/// attempts are refused, the target must be a valid username, only known
/// media extensions are served, and then the requester may proceed if the
/// page is their own, the file is CSS or JS, or a friendship links them to
/// the target.
pub open spec fn spec_user_page(
    u: Seq<char>,
    f: Seq<char>,
    session: Option<Seq<char>>,
    fr: FriendTable,
) -> PageDecision {
    if spec_bad_path(f) {
        PageDecision::Forbidden
    } else if !valid_username(u) {
        PageDecision::NotFound
    } else if !spec_allowed_extension(spec_extension(f)) {
        PageDecision::Forbidden
    } else {
        let own = match session {
            Some(s) => s == u,
            None => false,
        };
        if own || ends_with_seq(f, ".css"@) || ends_with_seq(f, ".js"@) {
            PageDecision::Serve
        } else {
            match session {
                Some(s) => if fr.friends_with(s, u) {
                    PageDecision::Serve
                } else {
                    PageDecision::Forbidden
                },
                None => PageDecision::Unauthorized,
            }
        }
    }
}

/// The view of the session cookie.
pub open spec fn view_opt(s: Option<&str>) -> Option<Seq<char>> {
    match s {
        Some(x) => Some(x@),
        None => None,
    }
}

/// How a user-page request is answered.
pub enum PageAccess {
    /// The path, the extension or the relationship forbids serving.
    Forbidden,
    /// The target is no valid username.
    NotFound,
    /// A protected file was asked for without a session.
    Unauthorized,
    /// Serve the file at `path` if it exists; otherwise the caller answers
    /// that it was not found.
    Serve { path: String },
}

/// Applies the access rule and names the file to serve.
pub fn user_page(username: &str, filename: &str, session: Option<&str>, friends: &FriendTable) -> (r:
    PageAccess)
    requires
        friends.wf(),
    ensures
        match r {
            PageAccess::Forbidden => spec_user_page(
                username@,
                filename@,
                view_opt(session),
                *friends,
            ) is Forbidden,
            PageAccess::NotFound => spec_user_page(
                username@,
                filename@,
                view_opt(session),
                *friends,
            ) is NotFound,
            PageAccess::Unauthorized => spec_user_page(
                username@,
                filename@,
                view_opt(session),
                *friends,
            ) is Unauthorized,
            PageAccess::Serve { path } => spec_user_page(
                username@,
                filename@,
                view_opt(session),
                *friends,
            ) is Serve && path@ == spec_user_path(username@, filename@),
        },
{
    let f_len = filename.unicode_len();
    let mut bad = contains_str(filename, "..");
    if f_len > 0 {
        let c0 = filename.get_char(0);
        if c0 == '/' || c0 == '\\' {
            bad = true;
        }
    }
    if bad {
        return PageAccess::Forbidden;
    }
    if !is_valid_username(username) {
        return PageAccess::NotFound;
    }
    let ext = extension_of(filename);
    if !allowed_extension(ext) {
        return PageAccess::Forbidden;
    }
    let own = match session {
        Some(u) => str_eq(u, username),
        None => false,
    };
    if own || ends_with(filename, ".css") || ends_with(filename, ".js") {
        return PageAccess::Serve { path: path_under_user(username, filename) };
    }
    match session {
        Some(u) => {
            let is_friend = friends.has_row(u, username) || friends.has_row(username, u);
            proof {
                lemma_friendship_symmetric(*friends, u@, username@);
            }
            if is_friend {
                PageAccess::Serve { path: path_under_user(username, filename) }
            } else {
                PageAccess::Forbidden
            }
        },
        None => PageAccess::Unauthorized,
    }
}

/// One photo of a friend, with the URL it can be fetched from.
pub struct Photo {
    pub filename: String,
    pub url: String,
}

/// What listing a friend's photos comes to.
pub enum FriendPhotosOutcome {
    /// No session cookie came with the request.
    Unauthorized,
    /// The requester asked for their own photos through the friend
    /// endpoint, which is never served there.
    OwnPhotos,
    /// No friendship links the requester to the target.
    NotFriends,
    /// The target's photos, each under its public URL.
    Photos(Vec<Photo>),
}

/// Lists a friend's photos: only someone else's, and only a friend's.
pub fn get_friend_photos(
    session: Option<&str>,
    friend_username: &str,
    photos: Vec<String>,
    friends: &FriendTable,
) -> (r: FriendPhotosOutcome)
    requires
        friends.wf(),
    ensures
        match r {
            FriendPhotosOutcome::Unauthorized => session is None,
            FriendPhotosOutcome::OwnPhotos => session matches Some(u) && u@ == friend_username@,
            FriendPhotosOutcome::NotFriends => session matches Some(u) && u@ != friend_username@
                && !friends.friends_with(u@, friend_username@),
            FriendPhotosOutcome::Photos(v) => session matches Some(u) && ({
                &&& u@ != friend_username@
                &&& friends.friends_with(u@, friend_username@)
                &&& v@.len() == photos@.len()
                &&& (forall|i: int|
                    0 <= i < v@.len() ==> (#[trigger] v@[i]).filename@ == photos@[i]@
                        && v@[i].url@ == spec_user_url(friend_username@, "photos/"@ + photos@[i]@))
            }),
        },
{
    let requester = match session {
        None => {
            return FriendPhotosOutcome::Unauthorized;
        },
        Some(u) => u,
    };
    if str_eq(requester, friend_username) {
        return FriendPhotosOutcome::OwnPhotos;
    }
    if !friends.has_row(requester, friend_username) {
        return FriendPhotosOutcome::NotFriends;
    }
    let n = photos.len();
    let mut v: Vec<Photo> = Vec::new();
    let mut i: usize = 0;
    while i < n
        invariant
            n == photos@.len(),
            i <= n,
            v@.len() == i,
            forall|k: int|
                0 <= k < i ==> (#[trigger] v@[k]).filename@ == photos@[k]@ && v@[k].url@
                    == spec_user_url(friend_username@, "photos/"@ + photos@[k]@),
        decreases n - i,
    {
        let rest = str_concat("photos/", photos[i].as_str());
        let url = url_under_user(friend_username, rest.as_str());
        v.push(Photo { filename: photos[i].clone(), url });
        i += 1;
    }
    FriendPhotosOutcome::Photos(v)
}

} // verus!
