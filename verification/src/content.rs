//! Content items: text posts, galleries, films and audios, each stamped
//! with the moment it was uploaded, and the listings that hand them back
//! newest first.

use crate::page::spec_text_unsafe;
use crate::paths::{path_under_user, spec_user_path, str_concat};
use crate::text::{spec_digits, u64_to_string};
use vstd::multiset::Multiset;
use vstd::prelude::*;

verus! {

broadcast use vstd::seq_lib::group_to_multiset_ensures, vstd::multiset::group_multiset_axioms;

/// The body of a text-post upload.
pub struct TextPostInput {
    pub title: String,
    pub content: String,
}

/// A stored text post.
pub struct TextPost {
    pub title: String,
    pub content: String,
    pub timestamp: u64,
}

/// A stored gallery: a title and the URLs of its images.
pub struct Gallery {
    pub title: String,
    pub images: Vec<String>,
    pub timestamp: u64,
}

/// A stored film.
pub struct Film {
    pub title: String,
    pub video_path: String,
    pub timestamp: u64,
}

/// A stored audio piece.
pub struct Audio {
    pub title: String,
    pub audio_path: String,
    pub timestamp: u64,
}

/// Any one piece of a user's content.
pub enum ContentItem {
    Gallery(Gallery),
    TextPost(TextPost),
    Film(Film),
    Audio(Audio),
}

/// When an item was uploaded.
pub open spec fn item_timestamp(it: ContentItem) -> u64 {
    match it {
        ContentItem::Gallery(g) => g.timestamp,
        ContentItem::TextPost(t) => t.timestamp,
        ContentItem::Film(f) => f.timestamp,
        ContentItem::Audio(a) => a.timestamp,
    }
}

/// Reads an item's timestamp.
pub fn timestamp_of(it: &ContentItem) -> (r: u64)
    ensures
        r == item_timestamp(*it),
{
    match it {
        ContentItem::Gallery(g) => g.timestamp,
        ContentItem::TextPost(t) => t.timestamp,
        ContentItem::Film(f) => f.timestamp,
        ContentItem::Audio(a) => a.timestamp,
    }
}

/// Newest first.
pub open spec fn sorted_desc_posts(v: Seq<TextPost>) -> bool {
    forall|i: int, j: int|
        0 <= i <= j < v.len() ==> (#[trigger] v[i]).timestamp >= (#[trigger] v[j]).timestamp
}

/// Newest first.
pub open spec fn sorted_desc_items(v: Seq<ContentItem>) -> bool {
    forall|i: int, j: int|
        0 <= i <= j < v.len() ==> item_timestamp(#[trigger] v[i]) >= item_timestamp(
            #[trigger] v[j],
        )
}

/// Sorts text posts newest first; the result holds the same posts.
pub fn sort_posts_desc(v: Vec<TextPost>) -> (r: Vec<TextPost>)
    ensures
        sorted_desc_posts(r@),
        r@.to_multiset() == v@.to_multiset(),
        r@.len() == v@.len(),
{
    let mut src = v;
    let mut out: Vec<TextPost> = Vec::new();
    proof {
        assert(out@.to_multiset().add(src@.to_multiset()) =~= src@.to_multiset());
    }
    while src.len() > 0
        invariant
            out@.to_multiset().add(src@.to_multiset()) == v@.to_multiset(),
            out@.len() + src@.len() == v@.len(),
            sorted_desc_posts(out@),
            forall|a: int, b: int|
                0 <= a < out@.len() && 0 <= b < src@.len() ==> (#[trigger] out@[a]).timestamp >= (
                #[trigger] src@[b]).timestamp,
        decreases src@.len(),
    {
        let mut best: usize = 0;
        let mut k: usize = 1;
        while k < src.len()
            invariant
                best < k <= src@.len(),
                forall|j: int|
                    0 <= j < k ==> src@[best as int].timestamp >= (#[trigger] src@[j]).timestamp,
            decreases src@.len() - k,
        {
            if src[k].timestamp > src[best].timestamp {
                best = k;
            }
            k += 1;
        }
        let ghost old_src = src@;
        let ghost old_out = out@;
        let item = src.remove(best);
        out.push(item);
        proof {
            assert(src@.to_multiset() =~= old_src.to_multiset().remove(old_src[best as int]));
            assert(out@.to_multiset() =~= old_out.to_multiset().insert(old_src[best as int]));
            assert(out@.to_multiset().add(src@.to_multiset()) =~= old_out.to_multiset().add(
                old_src.to_multiset(),
            ));
            assert forall|b: int| 0 <= b < src@.len() implies out@.last().timestamp >= (
            #[trigger] src@[b]).timestamp by {
                if b < best {
                    assert(src@[b] == old_src[b]);
                } else {
                    assert(src@[b] == old_src[b + 1]);
                }
            }
        }
    }
    proof {
        assert(src@.to_multiset() =~= Multiset::<TextPost>::empty());
        assert(out@.to_multiset() =~= out@.to_multiset().add(src@.to_multiset()));
    }
    out
}

/// Sorts content items newest first; the result holds the same items.
pub fn sort_items_desc(v: Vec<ContentItem>) -> (r: Vec<ContentItem>)
    ensures
        sorted_desc_items(r@),
        r@.to_multiset() == v@.to_multiset(),
        r@.len() == v@.len(),
{
    let mut src = v;
    let mut out: Vec<ContentItem> = Vec::new();
    proof {
        assert(out@.to_multiset().add(src@.to_multiset()) =~= src@.to_multiset());
    }
    while src.len() > 0
        invariant
            out@.to_multiset().add(src@.to_multiset()) == v@.to_multiset(),
            out@.len() + src@.len() == v@.len(),
            sorted_desc_items(out@),
            forall|a: int, b: int|
                0 <= a < out@.len() && 0 <= b < src@.len() ==> item_timestamp(#[trigger] out@[a])
                    >= item_timestamp(#[trigger] src@[b]),
        decreases src@.len(),
    {
        let mut best: usize = 0;
        let mut k: usize = 1;
        while k < src.len()
            invariant
                best < k <= src@.len(),
                forall|j: int|
                    0 <= j < k ==> item_timestamp(src@[best as int]) >= item_timestamp(
                        #[trigger] src@[j],
                    ),
            decreases src@.len() - k,
        {
            if timestamp_of(&src[k]) > timestamp_of(&src[best]) {
                best = k;
            }
            k += 1;
        }
        let ghost old_src = src@;
        let ghost old_out = out@;
        let item = src.remove(best);
        out.push(item);
        proof {
            assert(src@.to_multiset() =~= old_src.to_multiset().remove(old_src[best as int]));
            assert(out@.to_multiset() =~= old_out.to_multiset().insert(old_src[best as int]));
            assert(out@.to_multiset().add(src@.to_multiset()) =~= old_out.to_multiset().add(
                old_src.to_multiset(),
            ));
            assert forall|b: int| 0 <= b < src@.len() implies item_timestamp(out@.last())
                >= item_timestamp(#[trigger] src@[b]) by {
                if b < best {
                    assert(src@[b] == old_src[b]);
                } else {
                    assert(src@[b] == old_src[b + 1]);
                }
            }
        }
    }
    proof {
        assert(src@.to_multiset() =~= Multiset::<ContentItem>::empty());
        assert(out@.to_multiset() =~= out@.to_multiset().add(src@.to_multiset()));
    }
    out
}

/// Relies on chrono's `Utc::now`, rendered as the digits of year, month,
/// day, hour, minute and second: at least fourteen characters come back
/// whatever the clock says.
#[verifier::external_body]
fn now_stamp_string() -> (r: String)
    ensures
        r@.len() >= 14,
{
    chrono::Utc::now().format("%Y%m%d%H%M%S").to_string()
}

/// Reads the clock as an upload timestamp. `None` when the clock's
/// rendering is not a plain digit string whose value fits.
pub fn current_timestamp() -> (r: Option<u64>) {
    let s = now_stamp_string();
    crate::text::parse_u64(s.as_str())
}

/// What a text-post upload comes to.
pub enum UploadTextPostOutcome {
    /// No session cookie came with the request.
    Unauthorized,
    /// The title or the body holds an angle bracket.
    InvalidInput,
    /// The post to store, and the file it is stored under.
    Saved { post: TextPost, file_path: String },
}

/// Checks a text post and stamps it for storage.
pub fn upload_text_post(session: Option<&str>, data: &TextPostInput, timestamp: u64) -> (r:
    UploadTextPostOutcome)
    ensures
        match r {
            UploadTextPostOutcome::Unauthorized => session is None,
            UploadTextPostOutcome::InvalidInput => session is Some && (spec_text_unsafe(
                data.title@,
            ) || spec_text_unsafe(data.content@)),
            UploadTextPostOutcome::Saved { post, file_path } => session matches Some(u) && ({
                &&& !spec_text_unsafe(data.title@)
                &&& !spec_text_unsafe(data.content@)
                &&& post.title@ == data.title@
                &&& post.content@ == data.content@
                &&& post.timestamp == timestamp
                &&& file_path@ == spec_user_path(
                    u@,
                    "text_posts/"@ + spec_digits(timestamp as int) + ".json"@,
                )
            }),
        },
{
    let user = match session {
        None => {
            return UploadTextPostOutcome::Unauthorized;
        },
        Some(u) => u,
    };
    if !crate::page::text_is_safe(data.title.as_str()) || !crate::page::text_is_safe(
        data.content.as_str(),
    ) {
        return UploadTextPostOutcome::InvalidInput;
    }
    let stamp = u64_to_string(timestamp);
    let name = str_concat(stamp.as_str(), ".json");
    let rest = str_concat("text_posts/", name.as_str());
    assert(rest@ =~= "text_posts/"@ + spec_digits(timestamp as int) + ".json"@);
    let file_path = path_under_user(user, rest.as_str());
    let post = TextPost {
        title: data.title.clone(),
        content: data.content.clone(),
        timestamp,
    };
    UploadTextPostOutcome::Saved { post, file_path }
}

/// What listing one's text posts comes to.
pub enum TextPostsOutcome {
    /// No session cookie came with the request.
    Unauthorized,
    /// The same posts, newest first.
    Posts(Vec<TextPost>),
}

/// Orders a user's text posts newest first. An empty collection is simply
/// handed back empty, never an error.
pub fn get_text_posts(session: Option<&str>, posts: Vec<TextPost>) -> (r: TextPostsOutcome)
    ensures
        match r {
            TextPostsOutcome::Unauthorized => session is None,
            TextPostsOutcome::Posts(v) => session is Some && sorted_desc_posts(v@)
                && v@.to_multiset() == posts@.to_multiset() && v@.len() == posts@.len(),
        },
{
    if session.is_none() {
        return TextPostsOutcome::Unauthorized;
    }
    TextPostsOutcome::Posts(sort_posts_desc(posts))
}

/// What listing one kind of media comes to.
pub enum AudiosOutcome {
    /// No session cookie came with the request.
    Unauthorized,
    /// The audios, in the order they were read.
    Audios(Vec<Audio>),
}

/// Hands a user's audios back, in the order they were read. An empty
/// collection is simply handed back empty, never an error.
pub fn get_audios(session: Option<&str>, audios: Vec<Audio>) -> (r: AudiosOutcome)
    ensures
        match r {
            AudiosOutcome::Unauthorized => session is None,
            AudiosOutcome::Audios(v) => session is Some && v@ == audios@,
        },
{
    if session.is_none() {
        return AudiosOutcome::Unauthorized;
    }
    AudiosOutcome::Audios(audios)
}

/// What listing one's films comes to.
pub enum FilmsOutcome {
    /// No session cookie came with the request.
    Unauthorized,
    /// The films, in the order they were read.
    Films(Vec<Film>),
}

/// Hands a user's films back, in the order they were read. An empty
/// collection is simply handed back empty, never an error.
pub fn get_films(session: Option<&str>, films: Vec<Film>) -> (r: FilmsOutcome)
    ensures
        match r {
            FilmsOutcome::Unauthorized => session is None,
            FilmsOutcome::Films(v) => session is Some && v@ == films@,
        },
{
    if session.is_none() {
        return FilmsOutcome::Unauthorized;
    }
    FilmsOutcome::Films(films)
}

/// What listing one's galleries comes to.
pub enum GalleriesOutcome {
    /// No session cookie came with the request.
    Unauthorized,
    /// The galleries, in the order they were read.
    Galleries(Vec<Gallery>),
}

/// Hands a user's galleries back, in the order they were read. An empty
/// collection is simply handed back empty, never an error.
pub fn get_galleries(session: Option<&str>, galleries: Vec<Gallery>) -> (r: GalleriesOutcome)
    ensures
        match r {
            GalleriesOutcome::Unauthorized => session is None,
            GalleriesOutcome::Galleries(v) => session is Some && v@ == galleries@,
        },
{
    if session.is_none() {
        return GalleriesOutcome::Unauthorized;
    }
    GalleriesOutcome::Galleries(galleries)
}

/// Every piece of a user's content, one sequence, text posts first, then
/// galleries, films and audios, each in reading order.
pub open spec fn all_content_seq(
    texts: Seq<TextPost>,
    galleries: Seq<Gallery>,
    films: Seq<Film>,
    audios: Seq<Audio>,
) -> Seq<ContentItem> {
    texts.map_values(|t: TextPost| ContentItem::TextPost(t)) + galleries.map_values(
        |g: Gallery| ContentItem::Gallery(g),
    ) + films.map_values(|f: Film| ContentItem::Film(f)) + audios.map_values(
        |a: Audio| ContentItem::Audio(a),
    )
}

/// What listing all content comes to.
pub enum AllContentOutcome {
    /// No session cookie came with the request.
    Unauthorized,
    /// Every item the user has, newest first.
    Content(Vec<ContentItem>),
}

/// Merges a user's text posts, galleries, films and audios into one list,
/// newest first. With nothing uploaded yet the list is simply empty.
pub fn get_all_content(
    session: Option<&str>,
    texts: Vec<TextPost>,
    galleries: Vec<Gallery>,
    films: Vec<Film>,
    audios: Vec<Audio>,
) -> (r: AllContentOutcome)
    ensures
        match r {
            AllContentOutcome::Unauthorized => session is None,
            AllContentOutcome::Content(v) => {
                &&& session is Some
                &&& sorted_desc_items(v@)
                &&& v@.to_multiset() == all_content_seq(
                    texts@,
                    galleries@,
                    films@,
                    audios@,
                ).to_multiset()
                &&& v@.len() == texts@.len() + galleries@.len() + films@.len() + audios@.len()
            },
        },
{
    if session.is_none() {
        return AllContentOutcome::Unauthorized;
    }
    let mut combined: Vec<ContentItem> = Vec::new();
    let mut texts = texts;
    let mut galleries = galleries;
    let mut films = films;
    let mut audios = audios;
    let ghost t0 = texts@;
    let ghost g0 = galleries@;
    let ghost f0 = films@;
    let ghost a0 = audios@;
    let nt = texts.len();
    let mut i: usize = 0;
    while i < nt
        invariant
            nt == t0.len(),
            texts@ == t0.skip(i as int),
            i <= nt,
            combined@ == t0.take(i as int).map_values(|t: TextPost| ContentItem::TextPost(t)),
        decreases nt - i,
    {
        let t = texts.remove(0);
        proof {
            assert(texts@ =~= t0.skip(i + 1));
            assert(t == t0[i as int]);
        }
        combined.push(ContentItem::TextPost(t));
        proof {
            assert(combined@ =~= t0.take(i + 1).map_values(
                |t: TextPost| ContentItem::TextPost(t),
            ));
        }
        i += 1;
    }
    proof {
        assert(t0.take(nt as int) =~= t0);
    }
    let ng = galleries.len();
    let mut i: usize = 0;
    while i < ng
        invariant
            ng == g0.len(),
            galleries@ == g0.skip(i as int),
            i <= ng,
            combined@ == t0.map_values(|t: TextPost| ContentItem::TextPost(t)) + g0.take(
                i as int,
            ).map_values(|g: Gallery| ContentItem::Gallery(g)),
        decreases ng - i,
    {
        let g = galleries.remove(0);
        proof {
            assert(galleries@ =~= g0.skip(i + 1));
            assert(g == g0[i as int]);
        }
        combined.push(ContentItem::Gallery(g));
        proof {
            assert(combined@ =~= t0.map_values(|t: TextPost| ContentItem::TextPost(t)) + g0.take(
                i + 1,
            ).map_values(|g: Gallery| ContentItem::Gallery(g)));
        }
        i += 1;
    }
    proof {
        assert(g0.take(ng as int) =~= g0);
    }
    let nf = films.len();
    let mut i: usize = 0;
    while i < nf
        invariant
            nf == f0.len(),
            films@ == f0.skip(i as int),
            i <= nf,
            combined@ == t0.map_values(|t: TextPost| ContentItem::TextPost(t)) + g0.map_values(
                |g: Gallery| ContentItem::Gallery(g),
            ) + f0.take(i as int).map_values(|f: Film| ContentItem::Film(f)),
        decreases nf - i,
    {
        let f = films.remove(0);
        proof {
            assert(films@ =~= f0.skip(i + 1));
            assert(f == f0[i as int]);
        }
        combined.push(ContentItem::Film(f));
        proof {
            assert(combined@ =~= t0.map_values(|t: TextPost| ContentItem::TextPost(t))
                + g0.map_values(|g: Gallery| ContentItem::Gallery(g)) + f0.take(i + 1).map_values(
                |f: Film| ContentItem::Film(f),
            ));
        }
        i += 1;
    }
    proof {
        assert(f0.take(nf as int) =~= f0);
    }
    let na = audios.len();
    let mut i: usize = 0;
    while i < na
        invariant
            na == a0.len(),
            audios@ == a0.skip(i as int),
            i <= na,
            combined@ == t0.map_values(|t: TextPost| ContentItem::TextPost(t)) + g0.map_values(
                |g: Gallery| ContentItem::Gallery(g),
            ) + f0.map_values(|f: Film| ContentItem::Film(f)) + a0.take(i as int).map_values(
                |a: Audio| ContentItem::Audio(a),
            ),
        decreases na - i,
    {
        let a = audios.remove(0);
        proof {
            assert(audios@ =~= a0.skip(i + 1));
            assert(a == a0[i as int]);
        }
        combined.push(ContentItem::Audio(a));
        proof {
            assert(combined@ =~= t0.map_values(|t: TextPost| ContentItem::TextPost(t))
                + g0.map_values(|g: Gallery| ContentItem::Gallery(g)) + f0.map_values(
                |f: Film| ContentItem::Film(f),
            ) + a0.take(i + 1).map_values(|a: Audio| ContentItem::Audio(a)));
        }
        i += 1;
    }
    proof {
        assert(a0.take(na as int) =~= a0);
        assert(combined@ == all_content_seq(t0, g0, f0, a0));
    }
    AllContentOutcome::Content(sort_items_desc(combined))
}

} // verus!
