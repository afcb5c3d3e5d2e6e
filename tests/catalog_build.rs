use zeedle::catalog::{
    build_catalog, find_by_path, is_audio_path, sort_catalog, track_of, ScannedFile, SortKey,
    TagInfo, Track,
};

fn file(path: &str, title: Option<&str>, artist: Option<&str>, secs: u32) -> ScannedFile {
    ScannedFile {
        path: path.to_string(),
        tags: Some(TagInfo {
            title: title.map(|t| t.to_string()),
            artist: artist.map(|a| a.to_string()),
            duration_secs: secs,
        }),
    }
}

fn titles(cat: &[Track]) -> Vec<String> {
    cat.iter().map(|t| t.title.clone()).collect()
}

fn ids(cat: &[Track]) -> Vec<usize> {
    cat.iter().map(|t| t.id).collect()
}

#[test]
fn audio_extensions_are_recognised() {
    assert!(is_audio_path("/music/a.mp3"));
    assert!(is_audio_path("/music/sub/b.flac"));
    assert!(is_audio_path("c.wav"));
    assert!(is_audio_path("/music/d.ogg"));
    assert!(!is_audio_path("/music/cover.jpg"));
    assert!(!is_audio_path("/music/notes.txt"));
}

#[test]
fn no_files_give_an_empty_catalog() {
    let cat = build_catalog(&Vec::new(), SortKey::Title, true);
    assert!(cat.is_empty());
}

#[test]
fn nothing_playable_gives_an_empty_catalog() {
    let files = vec![
        file("/music/readme.txt", Some("x"), None, 10),
        ScannedFile { path: "/music/broken.mp3".to_string(), tags: None },
    ];
    let cat = build_catalog(&files, SortKey::Title, true);
    assert!(cat.is_empty());
}

#[test]
fn unplayable_files_are_skipped() {
    let files = vec![
        file("/music/a.mp3", Some("Alpha"), Some("X"), 10),
        ScannedFile { path: "/music/broken.mp3".to_string(), tags: None },
        file("/music/b.txt", Some("Beta"), Some("Y"), 10),
    ];
    let cat = build_catalog(&files, SortKey::Title, true);
    assert_eq!(titles(&cat), vec!["Alpha"]);
}

#[test]
fn catalog_is_sorted_and_numbered() {
    let files = vec![
        file("/m/c.mp3", Some("Charlie"), Some("Zed"), 30),
        file("/m/a.mp3", Some("Alpha"), Some("Young"), 200),
        file("/m/b.mp3", Some("Bravo"), Some("Xavier"), 100),
    ];
    let up = build_catalog(&files, SortKey::Title, true);
    assert_eq!(titles(&up), vec!["Alpha", "Bravo", "Charlie"]);
    assert_eq!(ids(&up), vec![0, 1, 2]);
    let down = build_catalog(&files, SortKey::Title, false);
    assert_eq!(titles(&down), vec!["Charlie", "Bravo", "Alpha"]);
    assert_eq!(ids(&down), vec![0, 1, 2]);
    let by_artist = build_catalog(&files, SortKey::Artist, true);
    assert_eq!(titles(&by_artist), vec!["Bravo", "Alpha", "Charlie"]);
    let by_length = build_catalog(&files, SortKey::Duration, true);
    assert_eq!(titles(&by_length), vec!["Charlie", "Bravo", "Alpha"]);
}

#[test]
fn equal_keys_are_ordered_by_path() {
    let files = vec![
        file("/m/z.mp3", Some("Same"), None, 10),
        file("/m/a.mp3", Some("Same"), None, 10),
    ];
    let up = build_catalog(&files, SortKey::Title, true);
    assert_eq!(up[0].path, "/m/a.mp3");
    let down = build_catalog(&files, SortKey::Title, false);
    assert_eq!(down[0].path, "/m/a.mp3");
}

#[test]
fn sorting_a_sorted_catalog_changes_nothing() {
    let files = vec![
        file("/m/c.mp3", Some("Charlie"), None, 30),
        file("/m/a.mp3", Some("Alpha"), None, 200),
        file("/m/b.mp3", Some("Bravo"), None, 100),
    ];
    for key in [SortKey::Title, SortKey::Artist, SortKey::Duration] {
        for ascending in [true, false] {
            let once = build_catalog(&files, key, ascending);
            let twice = sort_catalog(once.clone(), key, ascending);
            assert_eq!(ids(&twice), vec![0, 1, 2]);
            let paths_once: Vec<String> = once.iter().map(|t| t.path.clone()).collect();
            let paths_twice: Vec<String> = twice.iter().map(|t| t.path.clone()).collect();
            assert_eq!(paths_once, paths_twice);
        }
    }
}

#[test]
fn resorting_renumbers() {
    let files = vec![
        file("/m/a.mp3", Some("Alpha"), None, 300),
        file("/m/b.mp3", Some("Bravo"), None, 100),
    ];
    let cat = build_catalog(&files, SortKey::Title, true);
    let by_length = sort_catalog(cat, SortKey::Duration, true);
    assert_eq!(titles(&by_length), vec!["Bravo", "Alpha"]);
    assert_eq!(ids(&by_length), vec![0, 1]);
}

#[test]
fn track_falls_back_to_stem_and_unknown() {
    let tags = TagInfo { title: None, artist: None, duration_secs: 185 };
    let t = track_of(&"/music/My Song.flac".to_string(), &tags);
    assert_eq!(t.title, "My Song");
    assert_eq!(t.artist, "unknown");
    assert_eq!(t.duration, "03:05");
    assert_eq!(t.duration_secs, 185);
    assert_eq!(t.id, 0);
}

#[test]
fn track_names_are_cut_to_the_budget() {
    let tags = TagInfo {
        title: Some("An extremely long title that overflows".to_string()),
        artist: Some("Someone".to_string()),
        duration_secs: 59,
    };
    let t = track_of(&"/m/x.mp3".to_string(), &tags);
    assert_eq!(t.title, "An extremely long title ...");
    assert_eq!(t.artist, "Someone");
    assert_eq!(t.duration, "00:59");
}

#[test]
fn lookup_by_path() {
    let files = vec![
        file("/m/a.mp3", Some("Alpha"), None, 3),
        file("/m/b.mp3", Some("Bravo"), None, 3),
    ];
    let cat = build_catalog(&files, SortKey::Title, true);
    assert_eq!(find_by_path(&cat, &"/m/b.mp3".to_string()), Some(1));
    assert_eq!(find_by_path(&cat, &"/m/q.mp3".to_string()), None);
}

#[test]
fn empty_tags_fall_back_like_missing_ones() {
    let tags = TagInfo {
        title: Some(String::new()),
        artist: Some(String::new()),
        duration_secs: 1,
    };
    let t = track_of(&"/music/Intro.ogg".to_string(), &tags);
    assert_eq!(t.title, "Intro");
    assert_eq!(t.artist, "unknown");
}

#[test]
fn no_stem_falls_back_to_unknown() {
    let tags = TagInfo { title: None, artist: Some("A".to_string()), duration_secs: 1 };
    let t = track_of(&"/".to_string(), &tags);
    assert_eq!(t.title, "unknown");
    assert_eq!(t.artist, "A");
}
