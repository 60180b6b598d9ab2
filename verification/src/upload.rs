//! Media uploads: the checks run over the fields of an upload form, the
//! size caps, and the names and paths the accepted files are stored under.

use crate::content::{Audio, Film, Gallery};
use crate::paths::{path_under_user, spec_user_path, spec_user_url, str_concat, url_under_user};
use crate::text::{spec_digits, str_eq, u64_to_string};
use vstd::prelude::*;
use vstd::utf8::{decode_utf8, valid_utf8};

verus! {

/// One field of a multipart upload form, as the edge hands it over: its
/// form name, the client's filename if one came, and its bytes.
pub struct UploadField {
    pub name: String,
    pub filename: Option<String>,
    pub data: Vec<u8>,
}

/// An accepted file, with the name it is stored under.
pub struct MediaFile {
    pub name: String,
    pub data: Vec<u8>,
}

/// An audio file may take up to 50 MB.
pub const MAX_AUDIO_BYTES: usize = 50 * 1024 * 1024;

/// A film may take up to 200 MB.
pub const MAX_FILM_BYTES: usize = 200 * 1024 * 1024;

/// A gallery image may take up to 10 MB.
pub const MAX_IMAGE_BYTES: usize = 10 * 1024 * 1024;

/// A gallery holds at most 20 images.
pub const MAX_GALLERY_IMAGES: usize = 20;

/// The fields named `name`, in form order.
pub open spec fn fields_named(s: Seq<UploadField>, name: Seq<char>) -> Seq<UploadField>
    decreases s.len(),
{
    if s.len() == 0 {
        Seq::empty()
    } else if s.last().name@ == name {
        fields_named(s.drop_last(), name).push(s.last())
    } else {
        fields_named(s.drop_last(), name)
    }
}

/// The bytes of the last field named `name`, if any came.
pub open spec fn last_title_data(s: Seq<UploadField>, name: Seq<char>) -> Option<Seq<u8>>
    decreases s.len(),
{
    if s.len() == 0 {
        None
    } else if s.last().name@ == name {
        Some(s.last().data@)
    } else {
        last_title_data(s.drop_last(), name)
    }
}

/// The text read from a field's bytes: decoded when they are valid UTF-8,
/// empty otherwise.
pub open spec fn spec_field_text(b: Seq<u8>) -> Seq<char> {
    if valid_utf8(b) {
        decode_utf8(b)
    } else {
        Seq::empty()
    }
}

/// The title a form carries: the text of its last title field, or empty.
pub open spec fn spec_title_text(s: Seq<UploadField>, title_field: Seq<char>) -> Seq<char> {
    match last_title_data(s, title_field) {
        Some(b) => spec_field_text(b),
        None => Seq::empty(),
    }
}

/// Relies on `String::from_utf8`: it succeeds exactly on valid UTF-8,
/// giving the string those bytes encode; the empty string stands in for
/// invalid bytes.
#[verifier::external_body]
fn utf8_or_empty(b: &Vec<u8>) -> (r: String)
    ensures
        r@ == spec_field_text(b@),
{
    String::from_utf8(b.clone()).unwrap_or_default()
}

/// What the sanitize_filename crate makes of a client's filename, with the
/// portable options the platform stores files under: path separators and
/// other illegal characters stripped, long names truncated.
pub uninterp spec fn sanitized_of(s: Seq<char>) -> Seq<char>;

/// Relies on sanitize_filename's `sanitize_with_options` with fixed
/// options, so the result depends on the input name alone.
#[verifier::external_body]
fn sanitize_name(f: &str) -> (r: String)
    ensures
        r@ == sanitized_of(f@),
{
    sanitize_filename::sanitize_with_options(
        f,
        sanitize_filename::Options { windows: false, truncate: true, replacement: "" },
    )
}

/// The name an accepted media file is stored under: the client's filename
/// sanitized, or a default built from the upload timestamp.
pub open spec fn spec_media_file_name(
    f: UploadField,
    default_prefix: Seq<char>,
    ts: u64,
    default_ext: Seq<char>,
) -> Seq<char> {
    match f.filename {
        Some(n) => sanitized_of(n@),
        None => default_prefix + spec_digits(ts as int) + default_ext,
    }
}

/// Growing the prefix of a form keeps every field already selected, in
/// place, and never drops one.
proof fn lemma_fields_named_extend(fs: Seq<UploadField>, name: Seq<char>, i: int, j: int)
    requires
        0 <= i <= j <= fs.len(),
    ensures
        fields_named(fs.take(i), name).len() <= fields_named(fs.take(j), name).len(),
        forall|k: int|
            0 <= k < fields_named(fs.take(i), name).len() ==> fields_named(fs.take(j), name)[k]
                == fields_named(fs.take(i), name)[k],
    decreases j - i,
{
    if i < j {
        lemma_fields_named_extend(fs, name, i, j - 1);
        assert(fs.take(j).drop_last() =~= fs.take(j - 1));
        assert(fs.take(j).last() == fs[j - 1]);
    }
}

/// Likewise, a title read from a prefix stands until a later title field
/// replaces it.
proof fn lemma_last_title_extend(fs: Seq<UploadField>, name: Seq<char>, i: int, j: int)
    requires
        0 <= i <= j <= fs.len(),
        forall|k: int| i <= k < j ==> (#[trigger] fs[k]).name@ != name,
    ensures
        last_title_data(fs.take(j), name) == last_title_data(fs.take(i), name),
    decreases j - i,
{
    if i < j {
        lemma_last_title_extend(fs, name, i, j - 1);
        assert(fs.take(j).drop_last() =~= fs.take(j - 1));
        assert(fs.take(j).last() == fs[j - 1]);
    }
}

/// What a single-file media upload comes to.
enum MediaUploadOutcome {
    Unauthorized,
    SecondFile,
    TooLarge,
    NoFile,
    Saved { title: String, file_name: String, url: String, file_data: Vec<u8> },
}

/// Processes the fields of a single-file media form in order: title fields
/// set the title (the last one wins), the first file field is accepted if
/// it fits, a second one is refused.
#[verifier::loop_isolation(false)]
fn single_media_upload(
    session: Option<&str>,
    fields: Vec<UploadField>,
    timestamp: u64,
    title_field: &str,
    file_field: &str,
    cap: usize,
    folder: &str,
    default_prefix: &str,
    default_ext: &str,
) -> (r: MediaUploadOutcome)
    requires
        title_field@ != file_field@,
    ensures
        ({
            let files = fields_named(fields@, file_field@);
            match r {
                MediaUploadOutcome::Unauthorized => session is None,
                MediaUploadOutcome::NoFile => session is Some && files.len() == 0,
                MediaUploadOutcome::TooLarge => session is Some && files.len() >= 1
                    && files[0].data@.len() > cap,
                MediaUploadOutcome::SecondFile => session is Some && files.len() >= 2
                    && files[0].data@.len() <= cap,
                MediaUploadOutcome::Saved { title, file_name, url, file_data } => session matches
                    Some(u) && ({
                    &&& files.len() == 1
                    &&& files[0].data@.len() <= cap
                    &&& title@ == spec_title_text(fields@, title_field@)
                    &&& file_name@ == spec_media_file_name(
                        files[0],
                        default_prefix@,
                        timestamp,
                        default_ext@,
                    )
                    &&& url@ == spec_user_url(u@, folder@ + "/"@ + file_name@)
                    &&& file_data@ == files[0].data@
                }),
            }
        }),
{
    let user = match session {
        None => {
            return MediaUploadOutcome::Unauthorized;
        },
        Some(u) => u,
    };
    let ghost fs = fields@;
    let mut fields = fields;
    let n = fields.len();
    let mut i: usize = 0;
    let mut title = String::new();
    let mut file: Option<MediaFile> = None;
    while i < n
        invariant
            n == fs.len(),
            i <= n,
            fields@ == fs.skip(i as int),
            title@ == spec_title_text(fs.take(i as int), title_field@),
            match file {
                Some(f) => {
                    &&& fields_named(fs.take(i as int), file_field@).len() == 1
                    &&& fields_named(fs.take(i as int), file_field@)[0].data@.len() <= cap
                    &&& f.data@ == fields_named(fs.take(i as int), file_field@)[0].data@
                    &&& f.name@ == spec_media_file_name(
                        fields_named(fs.take(i as int), file_field@)[0],
                        default_prefix@,
                        timestamp,
                        default_ext@,
                    )
                },
                None => fields_named(fs.take(i as int), file_field@).len() == 0,
            },
        decreases n - i,
    {
        let field = fields.remove(0);
        proof {
            assert(fields@ =~= fs.skip(i + 1));
            assert(field == fs[i as int]);
            assert(fs.take(i + 1).drop_last() =~= fs.take(i as int));
            assert(fs.take(i + 1).last() == fs[i as int]);
        }
        if str_eq(field.name.as_str(), title_field) {
            title = utf8_or_empty(&field.data);
            proof {
                assert(fs[i as int].name@ == title_field@);
                assert(fs[i as int].name@ != file_field@);
                assert(fields_named(fs.take(i + 1), file_field@) == fields_named(
                    fs.take(i as int),
                    file_field@,
                ));
                assert(last_title_data(fs.take(i + 1), title_field@) == Some(
                    fs[i as int].data@,
                ));
            }
        } else if str_eq(field.name.as_str(), file_field) {
            proof {
                assert(fields_named(fs.take(i + 1), file_field@) == fields_named(
                    fs.take(i as int),
                    file_field@,
                ).push(fs[i as int]));
                assert(last_title_data(fs.take(i + 1), title_field@) == last_title_data(
                    fs.take(i as int),
                    title_field@,
                ));
            }
            if file.is_some() {
                proof {
                    assert(fields_named(fs.take(i + 1), file_field@).len() == 2);
                    assert(fields_named(fs.take(i + 1), file_field@)[0] == fields_named(
                        fs.take(i as int),
                        file_field@,
                    )[0]);
                    lemma_fields_named_extend(fs, file_field@, i + 1, n as int);
                    assert(fs.take(n as int) =~= fs);
                    assert(fields_named(fs, file_field@).len() >= 2);
                    assert(fields_named(fs, file_field@)[0] == fields_named(
                        fs.take(i + 1),
                        file_field@,
                    )[0]);
                }
                return MediaUploadOutcome::SecondFile;
            }
            if field.data.len() > cap {
                proof {
                    assert(fields_named(fs.take(i + 1), file_field@).len() == 1);
                    assert(fields_named(fs.take(i + 1), file_field@)[0] == fs[i as int]);
                    lemma_fields_named_extend(fs, file_field@, i + 1, n as int);
                    assert(fs.take(n as int) =~= fs);
                    assert(fields_named(fs, file_field@).len() >= 1);
                    assert(fields_named(fs, file_field@)[0] == fs[i as int]);
                }
                return MediaUploadOutcome::TooLarge;
            }
            let file_name = match field.filename {
                Some(f) => sanitize_name(f.as_str()),
                None => {
                    let stamped = str_concat(default_prefix, u64_to_string(timestamp).as_str());
                    let with_ext = str_concat(stamped.as_str(), default_ext);
                    proof {
                        assert(with_ext@ =~= default_prefix@ + spec_digits(timestamp as int)
                            + default_ext@);
                    }
                    with_ext
                },
            };
            proof {
                assert(fields_named(fs.take(i + 1), file_field@)[0] == fs[i as int]);
            }
            file = Some(MediaFile { name: file_name, data: field.data });
        } else {
            proof {
                assert(fields_named(fs.take(i + 1), file_field@) == fields_named(
                    fs.take(i as int),
                    file_field@,
                ));
                assert(last_title_data(fs.take(i + 1), title_field@) == last_title_data(
                    fs.take(i as int),
                    title_field@,
                ));
            }
        }
        i += 1;
    }
    proof {
        assert(fs.take(n as int) =~= fs);
    }
    match file {
        None => MediaUploadOutcome::NoFile,
        Some(f) => {
            let rest = str_concat(str_concat(folder, "/").as_str(), f.name.as_str());
            proof {
                assert(rest@ =~= folder@ + "/"@ + f.name@);
            }
            let url = url_under_user(user, rest.as_str());
            MediaUploadOutcome::Saved { title, file_name: f.name, url, file_data: f.data }
        },
    }
}

/// What an audio upload comes to.
pub enum UploadAudioOutcome {
    /// No session cookie came with the request.
    Unauthorized,
    /// A second audio file came in the same form.
    SecondFile,
    /// The audio file is over its size cap.
    TooLarge,
    /// No audio file came at all.
    NoFile,
    /// The audio to store: its metadata, the name and bytes of the file to
    /// write into the user's audio folder, and the metadata file's path.
    Saved { audio: Audio, file_name: String, file_data: Vec<u8>, metadata_path: String },
}

/// Checks an audio upload form and names everything to store.
pub fn upload_audio(session: Option<&str>, fields: Vec<UploadField>, timestamp: u64) -> (r:
    UploadAudioOutcome)
    ensures
        ({
            let files = fields_named(fields@, "audio"@);
            match r {
                UploadAudioOutcome::Unauthorized => session is None,
                UploadAudioOutcome::NoFile => session is Some && files.len() == 0,
                UploadAudioOutcome::TooLarge => session is Some && files.len() >= 1
                    && files[0].data@.len() > MAX_AUDIO_BYTES,
                UploadAudioOutcome::SecondFile => session is Some && files.len() >= 2
                    && files[0].data@.len() <= MAX_AUDIO_BYTES,
                UploadAudioOutcome::Saved { audio, file_name, file_data, metadata_path } => session
                    matches Some(u) && ({
                    &&& files.len() == 1
                    &&& files[0].data@.len() <= MAX_AUDIO_BYTES
                    &&& audio.title@ == spec_title_text(fields@, "audioTitle"@)
                    &&& file_name@ == spec_media_file_name(
                        files[0],
                        "audio_"@,
                        timestamp,
                        ".mp3"@,
                    )
                    &&& audio.audio_path@ == spec_user_url(u@, "audios/"@ + file_name@)
                    &&& audio.timestamp == timestamp
                    &&& file_data@ == files[0].data@
                    &&& metadata_path@ == spec_user_path(
                        u@,
                        "audios/"@ + spec_digits(timestamp as int) + ".json"@,
                    )
                }),
            }
        }),
{
    let user = match session {
        None => {
            return UploadAudioOutcome::Unauthorized;
        },
        Some(u) => u,
    };
    proof {
        reveal_strlit("audioTitle");
        reveal_strlit("audio");
        assert("audioTitle"@.len() == 10);
        assert("audio"@.len() == 5);
    }
    match single_media_upload(
        Some(user),
        fields,
        timestamp,
        "audioTitle",
        "audio",
        MAX_AUDIO_BYTES,
        "audios",
        "audio_",
        ".mp3",
    ) {
        MediaUploadOutcome::Unauthorized => UploadAudioOutcome::Unauthorized,
        MediaUploadOutcome::SecondFile => UploadAudioOutcome::SecondFile,
        MediaUploadOutcome::TooLarge => UploadAudioOutcome::TooLarge,
        MediaUploadOutcome::NoFile => UploadAudioOutcome::NoFile,
        MediaUploadOutcome::Saved { title, file_name, url, file_data } => {
            let stamp = u64_to_string(timestamp);
            let meta_name = str_concat(stamp.as_str(), ".json");
            let meta_rest = str_concat("audios/", meta_name.as_str());
            proof {
                reveal_strlit("audios");
                reveal_strlit("/");
                reveal_strlit("audios/");
                assert(meta_rest@ =~= "audios/"@ + spec_digits(timestamp as int) + ".json"@);
                assert("audios"@ + "/"@ =~= "audios/"@);
                assert("audios"@ + "/"@ + file_name@ =~= "audios/"@ + file_name@);
            }
            let metadata_path = path_under_user(user, meta_rest.as_str());
            let audio = Audio { title, audio_path: url, timestamp };
            UploadAudioOutcome::Saved { audio, file_name, file_data, metadata_path }
        },
    }
}

/// What a film upload comes to.
pub enum UploadFilmOutcome {
    /// No session cookie came with the request.
    Unauthorized,
    /// A second video came in the same form.
    SecondFile,
    /// The video is over its size cap.
    TooLarge,
    /// No video came at all.
    NoFile,
    /// The film to store: its metadata, the name and bytes of the file to
    /// write into the user's film folder, and the metadata file's path.
    Saved { film: Film, file_name: String, file_data: Vec<u8>, metadata_path: String },
}

/// Checks a film upload form and names everything to store.
pub fn upload_film(session: Option<&str>, fields: Vec<UploadField>, timestamp: u64) -> (r:
    UploadFilmOutcome)
    ensures
        ({
            let files = fields_named(fields@, "video"@);
            match r {
                UploadFilmOutcome::Unauthorized => session is None,
                UploadFilmOutcome::NoFile => session is Some && files.len() == 0,
                UploadFilmOutcome::TooLarge => session is Some && files.len() >= 1
                    && files[0].data@.len() > MAX_FILM_BYTES,
                UploadFilmOutcome::SecondFile => session is Some && files.len() >= 2
                    && files[0].data@.len() <= MAX_FILM_BYTES,
                UploadFilmOutcome::Saved { film, file_name, file_data, metadata_path } => session
                    matches Some(u) && ({
                    &&& files.len() == 1
                    &&& files[0].data@.len() <= MAX_FILM_BYTES
                    &&& film.title@ == spec_title_text(fields@, "filmTitle"@)
                    &&& file_name@ == spec_media_file_name(
                        files[0],
                        "video_"@,
                        timestamp,
                        ".mp4"@,
                    )
                    &&& film.video_path@ == spec_user_url(u@, "films/"@ + file_name@)
                    &&& film.timestamp == timestamp
                    &&& file_data@ == files[0].data@
                    &&& metadata_path@ == spec_user_path(
                        u@,
                        "films/"@ + spec_digits(timestamp as int) + ".json"@,
                    )
                }),
            }
        }),
{
    let user = match session {
        None => {
            return UploadFilmOutcome::Unauthorized;
        },
        Some(u) => u,
    };
    proof {
        reveal_strlit("filmTitle");
        reveal_strlit("video");
        assert("filmTitle"@.len() == 9);
        assert("video"@.len() == 5);
    }
    match single_media_upload(
        Some(user),
        fields,
        timestamp,
        "filmTitle",
        "video",
        MAX_FILM_BYTES,
        "films",
        "video_",
        ".mp4",
    ) {
        MediaUploadOutcome::Unauthorized => UploadFilmOutcome::Unauthorized,
        MediaUploadOutcome::SecondFile => UploadFilmOutcome::SecondFile,
        MediaUploadOutcome::TooLarge => UploadFilmOutcome::TooLarge,
        MediaUploadOutcome::NoFile => UploadFilmOutcome::NoFile,
        MediaUploadOutcome::Saved { title, file_name, url, file_data } => {
            let stamp = u64_to_string(timestamp);
            let meta_name = str_concat(stamp.as_str(), ".json");
            let meta_rest = str_concat("films/", meta_name.as_str());
            proof {
                reveal_strlit("films");
                reveal_strlit("/");
                reveal_strlit("films/");
                assert(meta_rest@ =~= "films/"@ + spec_digits(timestamp as int) + ".json"@);
                assert("films"@ + "/"@ =~= "films/"@);
                assert("films"@ + "/"@ + file_name@ =~= "films/"@ + file_name@);
            }
            let metadata_path = path_under_user(user, meta_rest.as_str());
            let film = Film { title, video_path: url, timestamp };
            UploadFilmOutcome::Saved { film, file_name, file_data, metadata_path }
        },
    }
}

/// The name a gallery image is stored under: the client's filename
/// sanitized, or a default built from the image's position in the form.
pub open spec fn spec_gallery_image_name(f: UploadField, idx: int) -> Seq<char> {
    match f.filename {
        Some(n) => sanitized_of(n@),
        None => "image_"@ + spec_digits(idx) + ".png"@,
    }
}

/// What a gallery upload comes to.
pub enum UploadGalleryOutcome {
    /// No session cookie came with the request.
    Unauthorized,
    /// More images came than a gallery may hold.
    TooManyImages,
    /// An image is over its size cap.
    ImageTooLarge,
    /// No image came at all.
    NoImages,
    /// The gallery to store: its metadata, the gallery folder, the image
    /// files to write into it, and the metadata file's path.
    Saved { gallery: Gallery, folder_path: String, files: Vec<MediaFile>, metadata_path: String },
}

/// Checks a gallery upload form and names everything to store.
#[verifier::loop_isolation(false)]
pub fn upload_gallery(session: Option<&str>, fields: Vec<UploadField>, timestamp: u64) -> (r:
    UploadGalleryOutcome)
    ensures
        ({
            let imgs = fields_named(fields@, "images"@);
            match r {
                UploadGalleryOutcome::Unauthorized => session is None,
                UploadGalleryOutcome::NoImages => session is Some && imgs.len() == 0,
                UploadGalleryOutcome::ImageTooLarge => session is Some && (exists|j: int|
                    0 <= j < imgs.len() && j < MAX_GALLERY_IMAGES && (#[trigger] imgs[j]).data@.len()
                        > MAX_IMAGE_BYTES),
                UploadGalleryOutcome::TooManyImages => session is Some && imgs.len()
                    > MAX_GALLERY_IMAGES && (forall|j: int|
                    0 <= j < MAX_GALLERY_IMAGES ==> (#[trigger] imgs[j]).data@.len()
                        <= MAX_IMAGE_BYTES),
                UploadGalleryOutcome::Saved { gallery, folder_path, files, metadata_path } => session
                    matches Some(u) && ({
                    &&& 1 <= imgs.len() <= MAX_GALLERY_IMAGES
                    &&& (forall|j: int|
                        0 <= j < imgs.len() ==> (#[trigger] imgs[j]).data@.len()
                            <= MAX_IMAGE_BYTES)
                    &&& gallery.title@ == spec_title_text(fields@, "galleryTitle"@)
                    &&& gallery.timestamp == timestamp
                    &&& gallery.images@.len() == imgs.len()
                    &&& (forall|j: int|
                        0 <= j < imgs.len() ==> (#[trigger] gallery.images@[j])@ == spec_user_url(
                            u@,
                            "gallery/"@ + spec_digits(timestamp as int) + "/"@
                                + spec_gallery_image_name(imgs[j], j),
                        ))
                    &&& files@.len() == imgs.len()
                    &&& (forall|j: int|
                        0 <= j < imgs.len() ==> (#[trigger] files@[j]).name@
                            == spec_gallery_image_name(imgs[j], j) && files@[j].data@
                            == imgs[j].data@)
                    &&& folder_path@ == spec_user_path(
                        u@,
                        "gallery/"@ + spec_digits(timestamp as int),
                    )
                    &&& metadata_path@ == spec_user_path(
                        u@,
                        "gallery/"@ + spec_digits(timestamp as int) + "/metadata.json"@,
                    )
                }),
            }
        }),
{
    let user = match session {
        None => {
            return UploadGalleryOutcome::Unauthorized;
        },
        Some(u) => u,
    };
    proof {
        reveal_strlit("galleryTitle");
        reveal_strlit("images");
        assert("galleryTitle"@.len() == 12);
        assert("images"@.len() == 6);
    }
    let ghost fs = fields@;
    let mut fields = fields;
    let n = fields.len();
    let mut i: usize = 0;
    let mut title = String::new();
    let mut files: Vec<MediaFile> = Vec::new();
    let mut urls: Vec<String> = Vec::new();
    let stamp = u64_to_string(timestamp);
    let gallery_rest = str_concat("gallery/", stamp.as_str());
    proof {
        assert(gallery_rest@ =~= "gallery/"@ + spec_digits(timestamp as int));
    }
    while i < n
        invariant
            n == fs.len(),
            i <= n,
            fields@ == fs.skip(i as int),
            title@ == spec_title_text(fs.take(i as int), "galleryTitle"@),
            files@.len() == fields_named(fs.take(i as int), "images"@).len(),
            files@.len() <= MAX_GALLERY_IMAGES,
            urls@.len() == files@.len(),
            forall|j: int|
                0 <= j < files@.len() ==> (#[trigger] fields_named(
                    fs.take(i as int),
                    "images"@,
                )[j]).data@.len() <= MAX_IMAGE_BYTES,
            forall|j: int|
                0 <= j < files@.len() ==> (#[trigger] files@[j]).name@ == spec_gallery_image_name(
                    fields_named(fs.take(i as int), "images"@)[j],
                    j,
                ) && files@[j].data@ == fields_named(fs.take(i as int), "images"@)[j].data@,
            forall|j: int|
                0 <= j < urls@.len() ==> (#[trigger] urls@[j])@ == spec_user_url(
                    user@,
                    "gallery/"@ + spec_digits(timestamp as int) + "/"@ + spec_gallery_image_name(
                        fields_named(fs.take(i as int), "images"@)[j],
                        j,
                    ),
                ),
        decreases n - i,
    {
        let field = fields.remove(0);
        proof {
            assert(fields@ =~= fs.skip(i + 1));
            assert(field == fs[i as int]);
            assert(fs.take(i + 1).drop_last() =~= fs.take(i as int));
            assert(fs.take(i + 1).last() == fs[i as int]);
        }
        if str_eq(field.name.as_str(), "galleryTitle") {
            title = utf8_or_empty(&field.data);
            proof {
                assert(fields_named(fs.take(i + 1), "images"@) == fields_named(
                    fs.take(i as int),
                    "images"@,
                ));
                assert(last_title_data(fs.take(i + 1), "galleryTitle"@) == Some(
                    fs[i as int].data@,
                ));
            }
        } else if str_eq(field.name.as_str(), "images") {
            proof {
                assert(fields_named(fs.take(i + 1), "images"@) == fields_named(
                    fs.take(i as int),
                    "images"@,
                ).push(fs[i as int]));
                assert(last_title_data(fs.take(i + 1), "galleryTitle"@) == last_title_data(
                    fs.take(i as int),
                    "galleryTitle"@,
                ));
            }
            if files.len() >= MAX_GALLERY_IMAGES {
                proof {
                    let p1 = fields_named(fs.take(i + 1), "images"@);
                    assert(p1.len() == MAX_GALLERY_IMAGES + 1);
                    lemma_fields_named_extend(fs, "images"@, i + 1, n as int);
                    assert(fs.take(n as int) =~= fs);
                    assert(fields_named(fs, "images"@).len() > MAX_GALLERY_IMAGES);
                    assert forall|j: int| 0 <= j < MAX_GALLERY_IMAGES implies (
                    #[trigger] fields_named(fs, "images"@)[j]).data@.len() <= MAX_IMAGE_BYTES by {
                        assert(fields_named(fs, "images"@)[j] == p1[j]);
                        assert(p1[j] == fields_named(fs.take(i as int), "images"@)[j]);
                    }
                }
                return UploadGalleryOutcome::TooManyImages;
            }
            if field.data.len() > MAX_IMAGE_BYTES {
                proof {
                    let c = files@.len() as int;
                    let p1 = fields_named(fs.take(i + 1), "images"@);
                    assert(p1[c] == fs[i as int]);
                    lemma_fields_named_extend(fs, "images"@, i + 1, n as int);
                    assert(fs.take(n as int) =~= fs);
                    assert(fields_named(fs, "images"@)[c] == fs[i as int]);
                    assert(0 <= c < fields_named(fs, "images"@).len() && c < MAX_GALLERY_IMAGES
                        && fields_named(fs, "images"@)[c].data@.len() > MAX_IMAGE_BYTES);
                }
                return UploadGalleryOutcome::ImageTooLarge;
            }
            let name = match field.filename {
                Some(f) => sanitize_name(f.as_str()),
                None => {
                    let idx = u64_to_string(files.len() as u64);
                    let named = str_concat("image_", idx.as_str());
                    let with_ext = str_concat(named.as_str(), ".png");
                    proof {
                        assert(with_ext@ =~= "image_"@ + spec_digits(files@.len() as int)
                            + ".png"@);
                    }
                    with_ext
                },
            };
            let rest_a = str_concat(gallery_rest.as_str(), "/");
            let rest = str_concat(rest_a.as_str(), name.as_str());
            proof {
                assert(rest@ =~= "gallery/"@ + spec_digits(timestamp as int) + "/"@ + name@);
            }
            let url = url_under_user(user, rest.as_str());
            proof {
                assert(fields_named(fs.take(i + 1), "images"@)[files@.len() as int] == fs[i
                    as int]);
            }
            files.push(MediaFile { name, data: field.data });
            urls.push(url);
        } else {
            proof {
                assert(fields_named(fs.take(i + 1), "images"@) == fields_named(
                    fs.take(i as int),
                    "images"@,
                ));
                assert(last_title_data(fs.take(i + 1), "galleryTitle"@) == last_title_data(
                    fs.take(i as int),
                    "galleryTitle"@,
                ));
            }
        }
        i += 1;
    }
    proof {
        assert(fs.take(n as int) =~= fs);
    }
    if files.len() == 0 {
        return UploadGalleryOutcome::NoImages;
    }
    let folder_path = path_under_user(user, gallery_rest.as_str());
    let meta_rest = str_concat(gallery_rest.as_str(), "/metadata.json");
    proof {
        assert(meta_rest@ =~= "gallery/"@ + spec_digits(timestamp as int) + "/metadata.json"@);
    }
    let metadata_path = path_under_user(user, meta_rest.as_str());
    let gallery = Gallery { title, images: urls, timestamp };
    UploadGalleryOutcome::Saved { gallery, folder_path, files, metadata_path }
}

} // verus!
