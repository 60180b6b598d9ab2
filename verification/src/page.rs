//! Edits applied to the text of a user's page: filling in the username
//! placeholders, linking the user's own stylesheet and script, and the
//! checks run before a title change is saved.

use crate::paths::{path_under_user, spec_user_path};
use crate::text::{
    contains_char, contains_seq, find_first, has_char, match_at, starts_with_seq, string_push,
};
use vstd::prelude::*;
use vstd::string::{StrSliceExecFns, StringExecFns};

verus! {

/// `s` with every occurrence of `pat` replaced by `repl`, scanning left to
/// right without overlap; `s` itself when `pat` is empty.
pub open spec fn spec_replace_all(s: Seq<char>, pat: Seq<char>, repl: Seq<char>) -> Seq<char>
    decreases s.len(),
{
    if pat.len() == 0 || s.len() < pat.len() {
        s
    } else if s.take(pat.len() as int) == pat {
        repl + spec_replace_all(s.skip(pat.len() as int), pat, repl)
    } else {
        seq![s[0]] + spec_replace_all(s.drop_first(), pat, repl)
    }
}

/// Replaces every occurrence of `pat` in `s` by `repl`.
pub fn replace_all(s: &str, pat: &str, repl: &str) -> (r: String)
    ensures
        r@ == spec_replace_all(s@, pat@, repl@),
{
    let s_len = s.unicode_len();
    let pat_len = pat.unicode_len();
    if pat_len == 0 {
        return String::from_str(s);
    }
    let mut out = String::new();
    let mut i: usize = 0;
    proof {
        assert(s@.skip(0) =~= s@);
        assert(out@ + spec_replace_all(s@, pat@, repl@) =~= spec_replace_all(s@, pat@, repl@));
    }
    while i < s_len
        invariant
            s_len == s@.len(),
            pat_len == pat@.len(),
            0 < pat_len,
            i <= s_len,
            out@ + spec_replace_all(s@.skip(i as int), pat@, repl@) == spec_replace_all(
                s@,
                pat@,
                repl@,
            ),
        decreases s_len - i,
    {
        let ghost rem = s@.skip(i as int);
        let ghost prev_out = out@;
        if pat_len <= s_len && i <= s_len - pat_len && crate::text::match_here(s, pat, i) {
            out.append(repl);
            i += pat_len;
            proof {
                assert(rem.take(pat@.len() as int) =~= s@.subrange(i - pat_len, i as int));
                assert(rem.skip(pat@.len() as int) =~= s@.skip(i as int));
                assert(spec_replace_all(rem, pat@, repl@) == repl@ + spec_replace_all(
                    s@.skip(i as int),
                    pat@,
                    repl@,
                ));
                assert(out@ + spec_replace_all(s@.skip(i as int), pat@, repl@) =~= prev_out + (
                repl@ + spec_replace_all(s@.skip(i as int), pat@, repl@)));
            }
        } else {
            let c = s.get_char(i);
            string_push(&mut out, c);
            i += 1;
            proof {
                assert(rem.len() > 0);
                assert(rem[0] == s@[i - 1]);
                assert(rem.drop_first() =~= s@.skip(i as int));
                if i - 1 + pat_len <= s_len {
                    assert(rem.take(pat@.len() as int) =~= s@.subrange(i - 1, i - 1 + pat@.len()));
                    assert(rem.take(pat@.len() as int) != pat@);
                } else {
                    assert(rem.len() < pat@.len());
                }
                assert(spec_replace_all(rem, pat@, repl@) == seq![s@[i - 1]] + spec_replace_all(
                    s@.skip(i as int),
                    pat@,
                    repl@,
                ));
                assert(out@ + spec_replace_all(s@.skip(i as int), pat@, repl@) =~= prev_out + (seq![
                    s@[i - 1],
                ] + spec_replace_all(s@.skip(i as int), pat@, repl@)));
            }
        }
    }
    proof {
        assert(s@.skip(s_len as int) =~= Seq::<char>::empty());
        assert(out@ + Seq::<char>::empty() =~= out@);
    }
    out
}

/// The position of the first occurrence of `pat` in `s`; meaningful only
/// when `s` contains `pat`.
pub open spec fn spec_find(s: Seq<char>, pat: Seq<char>) -> int
    decreases s.len(),
{
    if starts_with_seq(s, pat) {
        0
    } else if s.len() == 0 {
        0
    } else {
        1 + spec_find(s.drop_first(), pat)
    }
}

/// A first match (one with none before it) sits where `spec_find` says.
proof fn lemma_first_match_is_spec_find(s: Seq<char>, pat: Seq<char>, i: int)
    requires
        match_at(s, pat, i),
        forall|j: int| 0 <= j < i ==> !match_at(s, pat, j),
    ensures
        spec_find(s, pat) == i,
    decreases i,
{
    if i == 0 {
        assert(starts_with_seq(s, pat));
    } else {
        assert(!match_at(s, pat, 0));
        assert(!starts_with_seq(s, pat));
        let s1 = s.drop_first();
        assert(s1.subrange(i - 1, i - 1 + pat.len()) =~= s.subrange(i, i + pat.len()));
        assert(match_at(s1, pat, i - 1));
        assert forall|j: int| 0 <= j < i - 1 implies !match_at(s1, pat, j) by {
            if match_at(s1, pat, j) {
                assert(s.subrange(j + 1, j + 1 + pat.len()) =~= s1.subrange(j, j + pat.len()));
                assert(match_at(s, pat, j + 1));
            }
        }
        lemma_first_match_is_spec_find(s1, pat, i - 1);
    }
}

/// The stylesheet link written into a user's page.
pub open spec fn spec_css_link(u: Seq<char>) -> Seq<char> {
    "<link rel=\"stylesheet\" href=\"/user_pages/"@ + u + "/my_styles.css\">"@
}

/// The script tag written into a user's page.
pub open spec fn spec_script_tag(u: Seq<char>) -> Seq<char> {
    "<script defer src=\"/user_pages/"@ + u + "/my_scripts.js\"></script>"@
}

/// The block inserted into the head of a user's page.
pub open spec fn spec_head_block(u: Seq<char>) -> Seq<char> {
    spec_css_link(u) + "\n"@ + spec_script_tag(u) + "\n"@
}

/// A freshly scaffolded page, personalised: every `{{username}}` becomes
/// the username, and the user's stylesheet and script are linked, before
/// the closing head tag when there is one and at the top otherwise.
pub open spec fn spec_modify_html(h: Seq<char>, u: Seq<char>) -> Seq<char> {
    let h2 = spec_replace_all(h, "{{username}}"@, u);
    if contains_seq(h2, "</head>"@) {
        let i = spec_find(h2, "</head>"@);
        h2.take(i) + spec_head_block(u) + h2.skip(i)
    } else {
        spec_head_block(u) + h2
    }
}

fn build_head_block(username: &str) -> (r: String)
    ensures
        r@ == spec_head_block(username@),
{
    let mut r = String::new();
    r.append("<link rel=\"stylesheet\" href=\"/user_pages/");
    r.append(username);
    r.append("/my_styles.css\">");
    r.append("\n");
    r.append("<script defer src=\"/user_pages/");
    r.append(username);
    r.append("/my_scripts.js\"></script>");
    r.append("\n");
    assert(r@ =~= spec_head_block(username@));
    r
}

/// Personalises a freshly scaffolded page for its owner.
pub fn modify_html_for_user(html: &str, username: &str) -> (r: String)
    ensures
        r@ == spec_modify_html(html@, username@),
{
    let replaced = replace_all(html, "{{username}}", username);
    let block = build_head_block(username);
    match find_first(replaced.as_str(), "</head>") {
        Some(i) => {
            proof {
                lemma_first_match_is_spec_find(replaced@, "</head>"@, i as int);
            }
            let len = replaced.as_str().unicode_len();
            let prefix = replaced.as_str().substring_char(0, i);
            let mut out = String::from_str(prefix);
            out.append(block.as_str());
            let suffix = replaced.as_str().substring_char(i, len);
            out.append(suffix);
            proof {
                assert(replaced@.take(i as int) =~= replaced@.subrange(0, i as int));
                assert(replaced@.skip(i as int) =~= replaced@.subrange(
                    i as int,
                    replaced@.len() as int,
                ));
                assert(out@ =~= spec_modify_html(html@, username@));
            }
            out
        },
        None => {
            let mut out = block;
            out.append(replaced.as_str());
            proof {
                assert(out@ =~= spec_modify_html(html@, username@));
            }
            out
        },
    }
}

/// The body of a save-changes request.
pub struct SaveChangesData {
    pub exhibit_title: String,
    pub main_title: String,
}

/// Text that may not be written into a page: anything holding an angle
/// bracket could smuggle markup in.
pub open spec fn spec_text_unsafe(s: Seq<char>) -> bool {
    contains_char(s, '<') || contains_char(s, '>')
}

/// Decides whether a piece of text may be written into a page.
pub fn text_is_safe(s: &str) -> (r: bool)
    ensures
        r == !spec_text_unsafe(s@),
{
    !(has_char(s, '<') || has_char(s, '>'))
}

/// What a save-changes request comes to.
pub enum SaveChangesOutcome {
    /// No session cookie came with the request.
    Unauthorized,
    /// A title holds an angle bracket.
    InvalidInput,
    /// The titles are clean; the caller rewrites the page at `page_path`
    /// if it exists, and answers that it was not found otherwise.
    Proceed { page_path: String },
}

/// Checks a save-changes request and names the page it may rewrite.
pub fn save_changes(session: Option<&str>, data: &SaveChangesData) -> (r: SaveChangesOutcome)
    ensures
        match r {
            SaveChangesOutcome::Unauthorized => session is None,
            SaveChangesOutcome::InvalidInput => session is Some && (spec_text_unsafe(
                data.exhibit_title@,
            ) || spec_text_unsafe(data.main_title@)),
            SaveChangesOutcome::Proceed { page_path } => session matches Some(u) && ({
                &&& !spec_text_unsafe(data.exhibit_title@)
                &&& !spec_text_unsafe(data.main_title@)
                &&& page_path@ == spec_user_path(u@, "my_page.html"@)
            }),
        },
{
    let user = match session {
        None => {
            return SaveChangesOutcome::Unauthorized;
        },
        Some(u) => u,
    };
    if !text_is_safe(data.exhibit_title.as_str()) || !text_is_safe(data.main_title.as_str()) {
        return SaveChangesOutcome::InvalidInput;
    }
    SaveChangesOutcome::Proceed { page_path: path_under_user(user, "my_page.html") }
}

} // verus!
