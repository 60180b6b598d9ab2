use homepages::upload::{
    upload_audio, upload_film, upload_gallery, UploadAudioOutcome, UploadField, UploadFilmOutcome,
    UploadGalleryOutcome, MAX_GALLERY_IMAGES, MAX_IMAGE_BYTES,
};

fn field(name: &str, filename: Option<&str>, data: &[u8]) -> UploadField {
    UploadField {
        name: name.to_string(),
        filename: filename.map(|f| f.to_string()),
        data: data.to_vec(),
    }
}

#[test]
fn audio_upload_happy_path() {
    let fields = vec![
        field("audioTitle", None, b"My Tune"),
        field("audio", Some("takes/tune.mp3"), b"riff"),
    ];
    assert!(matches!(upload_audio(None, vec![], 1), UploadAudioOutcome::Unauthorized));
    match upload_audio(Some("alice"), fields, 20240102030405) {
        UploadAudioOutcome::Saved { audio, file_name, file_data, metadata_path } => {
            assert_eq!(audio.title, "My Tune");
            // The path separator is sanitized out of the client's filename.
            assert_eq!(file_name, "takestune.mp3");
            assert_eq!(audio.audio_path, "/user_pages/alice/audios/takestune.mp3");
            assert_eq!(audio.timestamp, 20240102030405);
            assert_eq!(file_data, b"riff".to_vec());
            assert_eq!(metadata_path, "./user_pages/alice/audios/20240102030405.json");
        }
        _ => panic!("expected the audio to be accepted"),
    }
}

#[test]
fn audio_upload_default_name_and_last_title_wins() {
    let fields = vec![
        field("audioTitle", None, b"first"),
        field("audio", None, b"bytes"),
        field("audioTitle", None, b"second"),
    ];
    match upload_audio(Some("alice"), fields, 7) {
        UploadAudioOutcome::Saved { audio, file_name, .. } => {
            assert_eq!(audio.title, "second");
            assert_eq!(file_name, "audio_7.mp3");
        }
        _ => panic!("expected the audio to be accepted"),
    }
}

#[test]
fn audio_upload_refusals() {
    assert!(matches!(
        upload_audio(Some("alice"), vec![field("audioTitle", None, b"t")], 1),
        UploadAudioOutcome::NoFile
    ));
    let two = vec![field("audio", None, b"a"), field("audio", None, b"b")];
    assert!(matches!(upload_audio(Some("alice"), two, 1), UploadAudioOutcome::SecondFile));
}

#[test]
fn film_upload_mirrors_audio() {
    let fields = vec![
        field("filmTitle", None, b"Road Movie"),
        field("video", None, b"frames"),
    ];
    match upload_film(Some("bob"), fields, 9) {
        UploadFilmOutcome::Saved { film, file_name, metadata_path, .. } => {
            assert_eq!(film.title, "Road Movie");
            assert_eq!(file_name, "video_9.mp4");
            assert_eq!(film.video_path, "/user_pages/bob/films/video_9.mp4");
            assert_eq!(metadata_path, "./user_pages/bob/films/9.json");
        }
        _ => panic!("expected the film to be accepted"),
    }
    assert!(matches!(upload_film(None, vec![], 1), UploadFilmOutcome::Unauthorized));
    assert!(matches!(upload_film(Some("bob"), vec![], 1), UploadFilmOutcome::NoFile));
}

#[test]
fn gallery_upload_happy_path() {
    let fields = vec![
        field("galleryTitle", None, b"Trip"),
        field("images", Some("sea.png"), b"111"),
        field("images", None, b"222"),
    ];
    match upload_gallery(Some("alice"), fields, 5) {
        UploadGalleryOutcome::Saved { gallery, folder_path, files, metadata_path } => {
            assert_eq!(gallery.title, "Trip");
            assert_eq!(gallery.timestamp, 5);
            assert_eq!(gallery.images.len(), 2);
            assert_eq!(gallery.images[0], "/user_pages/alice/gallery/5/sea.png");
            assert_eq!(gallery.images[1], "/user_pages/alice/gallery/5/image_1.png");
            assert_eq!(files.len(), 2);
            assert_eq!(files[0].name, "sea.png");
            assert_eq!(files[1].name, "image_1.png");
            assert_eq!(files[0].data, b"111".to_vec());
            assert_eq!(folder_path, "./user_pages/alice/gallery/5");
            assert_eq!(metadata_path, "./user_pages/alice/gallery/5/metadata.json");
        }
        _ => panic!("expected the gallery to be accepted"),
    }
}

#[test]
fn gallery_upload_refusals() {
    assert!(matches!(upload_gallery(None, vec![], 1), UploadGalleryOutcome::Unauthorized));
    assert!(matches!(
        upload_gallery(Some("alice"), vec![field("galleryTitle", None, b"t")], 1),
        UploadGalleryOutcome::NoImages
    ));

    let mut too_many = Vec::new();
    for _ in 0..(MAX_GALLERY_IMAGES + 1) {
        too_many.push(field("images", None, b"x"));
    }
    assert!(matches!(
        upload_gallery(Some("alice"), too_many, 1),
        UploadGalleryOutcome::TooManyImages
    ));

    let big = vec![0u8; MAX_IMAGE_BYTES + 1];
    let fields = vec![field("images", Some("big.png"), &big)];
    assert!(matches!(
        upload_gallery(Some("alice"), fields, 1),
        UploadGalleryOutcome::ImageTooLarge
    ));
}
