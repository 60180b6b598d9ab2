//! Locations of a user's files: every path and URL the platform hands out
//! lives under that user's own directory.

use vstd::prelude::*;
use vstd::string::StringExecFns;

verus! {

/// The on-disk path of `rest` inside a user's directory.
pub open spec fn spec_user_path(u: Seq<char>, rest: Seq<char>) -> Seq<char> {
    "./user_pages/"@ + u + "/"@ + rest
}

/// The public URL of `rest` inside a user's directory.
pub open spec fn spec_user_url(u: Seq<char>, rest: Seq<char>) -> Seq<char> {
    "/user_pages/"@ + u + "/"@ + rest
}

/// Builds the on-disk path of `rest` inside the directory of user `u`.
pub fn path_under_user(u: &str, rest: &str) -> (r: String)
    ensures
        r@ == spec_user_path(u@, rest@),
{
    let mut r = String::new();
    r.append("./user_pages/");
    r.append(u);
    r.append("/");
    r.append(rest);
    assert(r@ =~= spec_user_path(u@, rest@));
    r
}

/// Builds the public URL of `rest` inside the directory of user `u`.
pub fn url_under_user(u: &str, rest: &str) -> (r: String)
    ensures
        r@ == spec_user_url(u@, rest@),
{
    let mut r = String::new();
    r.append("/user_pages/");
    r.append(u);
    r.append("/");
    r.append(rest);
    assert(r@ =~= spec_user_url(u@, rest@));
    r
}

/// Concatenates two strings.
pub fn str_concat(a: &str, b: &str) -> (r: String)
    ensures
        r@ == a@ + b@,
{
    let mut r = String::new();
    r.append(a);
    r.append(b);
    assert(r@ =~= a@ + b@);
    r
}

} // verus!
