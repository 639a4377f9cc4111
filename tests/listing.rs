use locker::unit::{classify, display_name, list_units, sort_units, str_lt, Unit, UnitKind};

#[test]
fn listing_classifies_and_orders() {
    let entries = vec![
        ("a.txt".to_string(), false),
        ("movies".to_string(), true),
        ("song.mp3".to_string(), false),
    ];
    let units = list_units("", &entries);
    assert_eq!(units.len(), 3);
    assert_eq!(units[0].path, "a.txt");
    assert_eq!(units[0].kind, UnitKind::File);
    assert_eq!(units[1].path, "movies");
    assert_eq!(units[1].kind, UnitKind::Directory);
    assert_eq!(units[2].path, "song.mp3");
    assert_eq!(units[2].kind, UnitKind::Audio);
    let sorted = sort_units(units);
    let names: Vec<&str> = sorted.iter().map(|u| u.name()).collect();
    assert_eq!(names, vec!["movies", "song.mp3", "a.txt"]);
    let pos = |n: &str| names.iter().position(|x| *x == n).unwrap();
    assert!(pos("movies") < pos("a.txt"));
    assert!(pos("movies") < pos("song.mp3"));
}

#[test]
fn listing_in_subdirectory_joins_paths() {
    let entries = vec![("clip.mp4".to_string(), false)];
    let units = list_units("media/2024", &entries);
    assert_eq!(units[0].path, "media/2024/clip.mp4");
    assert_eq!(units[0].kind, UnitKind::Video);
    assert_eq!(units[0].name(), "clip.mp4");
}

#[test]
fn listing_of_nothing_is_empty() {
    assert!(list_units("x", &Vec::new()).is_empty());
    assert!(sort_units(Vec::new()).is_empty());
}

#[test]
fn classification_by_extension() {
    assert_eq!(classify("a.mkv", false), UnitKind::Video);
    assert_eq!(classify("a.webm", false), UnitKind::Video);
    assert_eq!(classify("a.flac", false), UnitKind::Audio);
    assert_eq!(classify("a.mp3.txt", false), UnitKind::File);
    assert_eq!(classify("mp3", false), UnitKind::File);
    assert_eq!(classify("x.mp3", true), UnitKind::Directory);
}

#[test]
fn display_name_is_last_component() {
    assert_eq!(display_name("a/b/c.txt"), "c.txt");
    assert_eq!(display_name("c.txt"), "c.txt");
    assert_eq!(display_name("a/"), "");
}

#[test]
fn names_compare_lexicographically() {
    assert!(str_lt("a", "b"));
    assert!(str_lt("ab", "abc"));
    assert!(!str_lt("abc", "ab"));
    assert!(!str_lt("x", "x"));
    assert!(str_lt("", "a"));
    assert!(str_lt("B", "a"));
}

#[test]
fn sort_orders_kinds_then_names() {
    let units = vec![
        Unit::new("z.txt".to_string(), false),
        Unit::new("b.mp4".to_string(), false),
        Unit::new("docs".to_string(), true),
        Unit::new("a.txt".to_string(), false),
        Unit::new("a.ogg".to_string(), false),
        Unit::new("archive".to_string(), true),
    ];
    let sorted = sort_units(units);
    let paths: Vec<&str> = sorted.iter().map(|u| u.path.as_str()).collect();
    assert_eq!(paths, vec!["archive", "docs", "b.mp4", "a.ogg", "a.txt", "z.txt"]);
}

#[test]
fn precedes_is_strict() {
    let a = Unit::new("a.txt".to_string(), false);
    let d = Unit::new("d".to_string(), true);
    assert!(d.precedes(&a));
    assert!(!a.precedes(&d));
    assert!(!a.precedes(&a));
}
