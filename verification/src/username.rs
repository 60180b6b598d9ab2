//! Usernames: the character class a username may be built from.

use vstd::prelude::*;
use vstd::string::StrSliceExecFns;

verus! {

/// A username character is an ASCII letter, a digit, `-` or `_`.
pub open spec fn valid_username_char(c: char) -> bool {
    ('a' <= c && c <= 'z') || ('A' <= c && c <= 'Z') || ('0' <= c && c <= '9') || c == '-' || c
        == '_'
}

/// A valid username is non-empty and made of username characters only.
pub open spec fn valid_username(s: Seq<char>) -> bool {
    s.len() > 0 && (forall|i: int| 0 <= i < s.len() ==> valid_username_char(#[trigger] s[i]))
}

/// Decides whether a string is acceptable as a username.
pub fn is_valid_username(username: &str) -> (r: bool)
    ensures
        r == valid_username(username@),
{
    let len = username.unicode_len();
    if len == 0 {
        return false;
    }
    let mut i: usize = 0;
    while i < len
        invariant
            len == username@.len(),
            i <= len,
            forall|j: int| 0 <= j < i ==> valid_username_char(#[trigger] username@[j]),
        decreases len - i,
    {
        let c = username.get_char(i);
        if !(('a' <= c && c <= 'z') || ('A' <= c && c <= 'Z') || ('0' <= c && c <= '9') || c == '-'
            || c == '_') {
            return false;
        }
        i += 1;
    }
    true
}

} // verus!
