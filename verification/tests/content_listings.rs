use homepages::content::{
    get_all_content, get_audios, get_films, get_galleries, get_text_posts, upload_text_post,
    AllContentOutcome, Audio, AudiosOutcome, ContentItem, Film, FilmsOutcome, GalleriesOutcome,
    Gallery, TextPost, TextPostInput, TextPostsOutcome, UploadTextPostOutcome,
};
use homepages::page::{modify_html_for_user, replace_all, save_changes, SaveChangesData,
    SaveChangesOutcome};
use homepages::text::{parse_u64, u64_to_string};

fn post(title: &str, ts: u64) -> TextPost {
    TextPost { title: title.to_string(), content: "body".to_string(), timestamp: ts }
}

#[test]
fn decimal_round_trip() {
    assert_eq!(u64_to_string(0), "0");
    assert_eq!(u64_to_string(20240102030405), "20240102030405");
    assert_eq!(parse_u64("20240102030405"), Some(20240102030405));
    assert_eq!(parse_u64(""), None);
    assert_eq!(parse_u64("12a"), None);
    assert_eq!(parse_u64("18446744073709551615"), Some(u64::MAX));
    assert_eq!(parse_u64("18446744073709551616"), None);
}

#[test]
fn clock_reads_as_digit_stamp() {
    let ts = homepages::content::current_timestamp().expect("the clock renders digits");
    // Year, month, day, hour, minute, second: fourteen digits from here on.
    assert!(ts > 20200101000000);
    assert!(ts < 99991231235959);
}

#[test]
fn text_post_validation_and_path() {
    let bad = TextPostInput { title: "a<b".to_string(), content: "ok".to_string() };
    assert!(matches!(
        upload_text_post(Some("alice"), &bad, 1),
        UploadTextPostOutcome::InvalidInput
    ));
    let good = TextPostInput { title: "hello".to_string(), content: "world".to_string() };
    assert!(matches!(upload_text_post(None, &good, 1), UploadTextPostOutcome::Unauthorized));
    match upload_text_post(Some("alice"), &good, 20240102030405) {
        UploadTextPostOutcome::Saved { post, file_path } => {
            assert_eq!(post.title, "hello");
            assert_eq!(post.content, "world");
            assert_eq!(post.timestamp, 20240102030405);
            assert_eq!(file_path, "./user_pages/alice/text_posts/20240102030405.json");
        }
        _ => panic!("expected the post to be accepted"),
    }
}

#[test]
fn text_posts_come_back_newest_first() {
    let posts = vec![post("old", 1), post("new", 3), post("mid", 2)];
    assert!(matches!(get_text_posts(None, vec![]), TextPostsOutcome::Unauthorized));
    match get_text_posts(Some("alice"), posts) {
        TextPostsOutcome::Posts(v) => {
            let titles: Vec<&str> = v.iter().map(|p| p.title.as_str()).collect();
            assert_eq!(titles, vec!["new", "mid", "old"]);
        }
        _ => panic!("expected the posts"),
    }
}

#[test]
fn listings_degrade_gracefully_when_empty() {
    match get_text_posts(Some("alice"), vec![]) {
        TextPostsOutcome::Posts(v) => assert!(v.is_empty()),
        _ => panic!("an empty store is not an error"),
    }
    match get_audios(Some("alice"), vec![]) {
        AudiosOutcome::Audios(v) => assert!(v.is_empty()),
        _ => panic!("an empty store is not an error"),
    }
    match get_films(Some("alice"), vec![]) {
        FilmsOutcome::Films(v) => assert!(v.is_empty()),
        _ => panic!("an empty store is not an error"),
    }
    match get_galleries(Some("alice"), vec![]) {
        GalleriesOutcome::Galleries(v) => assert!(v.is_empty()),
        _ => panic!("an empty store is not an error"),
    }
    match get_all_content(Some("alice"), vec![], vec![], vec![], vec![]) {
        AllContentOutcome::Content(v) => assert!(v.is_empty()),
        _ => panic!("an empty store is not an error"),
    }
}

#[test]
fn listings_require_a_session() {
    assert!(matches!(get_audios(None, vec![]), AudiosOutcome::Unauthorized));
    assert!(matches!(get_films(None, vec![]), FilmsOutcome::Unauthorized));
    assert!(matches!(get_galleries(None, vec![]), GalleriesOutcome::Unauthorized));
    assert!(matches!(
        get_all_content(None, vec![], vec![], vec![], vec![]),
        AllContentOutcome::Unauthorized
    ));
}

#[test]
fn all_content_merges_and_sorts() {
    let texts = vec![post("post", 2)];
    let galleries = vec![Gallery {
        title: "gal".to_string(),
        images: vec!["/user_pages/alice/gallery/4/a.png".to_string()],
        timestamp: 4,
    }];
    let films = vec![Film {
        title: "film".to_string(),
        video_path: "/user_pages/alice/films/f.mp4".to_string(),
        timestamp: 1,
    }];
    let audios = vec![Audio {
        title: "tune".to_string(),
        audio_path: "/user_pages/alice/audios/t.mp3".to_string(),
        timestamp: 3,
    }];
    match get_all_content(Some("alice"), texts, galleries, films, audios) {
        AllContentOutcome::Content(v) => {
            assert_eq!(v.len(), 4);
            let stamps: Vec<u64> = v
                .iter()
                .map(|it| match it {
                    ContentItem::Gallery(g) => g.timestamp,
                    ContentItem::TextPost(t) => t.timestamp,
                    ContentItem::Film(f) => f.timestamp,
                    ContentItem::Audio(a) => a.timestamp,
                })
                .collect();
            assert_eq!(stamps, vec![4, 3, 2, 1]);
            assert!(matches!(v[0], ContentItem::Gallery(_)));
            assert!(matches!(v[1], ContentItem::Audio(_)));
            assert!(matches!(v[2], ContentItem::TextPost(_)));
            assert!(matches!(v[3], ContentItem::Film(_)));
        }
        _ => panic!("expected the merged content"),
    }
}

#[test]
fn save_changes_checks_titles() {
    let clean = SaveChangesData {
        exhibit_title: "My Exhibit".to_string(),
        main_title: "Welcome".to_string(),
    };
    assert!(matches!(save_changes(None, &clean), SaveChangesOutcome::Unauthorized));
    match save_changes(Some("alice"), &clean) {
        SaveChangesOutcome::Proceed { page_path } => {
            assert_eq!(page_path, "./user_pages/alice/my_page.html");
        }
        _ => panic!("clean titles go through"),
    }
    let sneaky = SaveChangesData {
        exhibit_title: "<script>".to_string(),
        main_title: "Welcome".to_string(),
    };
    assert!(matches!(save_changes(Some("alice"), &sneaky), SaveChangesOutcome::InvalidInput));
}

#[test]
fn html_personalisation() {
    assert_eq!(replace_all("aaa", "a", "bb"), "bbbbbb");
    assert_eq!(replace_all("hello", "xyz", "q"), "hello");

    let html = "<html><head><title>t</title></head><body>Hi {{username}}!</body></html>";
    let out = modify_html_for_user(html, "alice");
    let expected = "<html><head><title>t</title><link rel=\"stylesheet\" href=\"/user_pages/alice/my_styles.css\">\n<script defer src=\"/user_pages/alice/my_scripts.js\"></script>\n</head><body>Hi alice!</body></html>";
    assert_eq!(out, expected);

    let headless = modify_html_for_user("{{username}}'s page", "bob");
    let expected2 = "<link rel=\"stylesheet\" href=\"/user_pages/bob/my_styles.css\">\n<script defer src=\"/user_pages/bob/my_scripts.js\"></script>\nbob's page";
    assert_eq!(headless, expected2);
}
