use locker::selection::{ClipboardMode, Selected, TransferKind};
use locker::unit::Unit;

fn file(p: &str) -> Unit {
    Unit::new(p.to_string(), false)
}

fn dir(p: &str) -> Unit {
    Unit::new(p.to_string(), true)
}

fn sorted(mut v: Vec<String>) -> Vec<String> {
    v.sort();
    v
}

#[test]
fn toggle_parity_keeps_odd_toggles() {
    let mut s = Selected::new();
    for p in ["a", "b", "a", "c", "b", "b", "a", "c"] {
        s.toggle_unit_selection(file(p));
    }
    assert!(s.is_selected(&file("a")));
    assert!(s.is_selected(&file("b")));
    assert!(!s.is_selected(&file("c")));
    assert_eq!(sorted(s.as_paths()), vec!["a".to_string(), "b".to_string()]);
}

#[test]
fn toggle_twice_is_empty() {
    let mut s = Selected::new();
    s.toggle_unit_selection(file("x.txt"));
    assert!(!s.is_clear());
    s.toggle_unit_selection(file("x.txt"));
    assert!(s.is_clear());
    assert!(s.as_paths().is_empty());
}

#[test]
fn equality_is_by_path() {
    let a = Unit { path: "m".to_string(), kind: locker::unit::UnitKind::File };
    let b = Unit { path: "m".to_string(), kind: locker::unit::UnitKind::Directory };
    assert!(a == b);
    let mut s = Selected::new();
    s.toggle_unit_selection(a);
    s.toggle_unit_selection(b);
    assert!(s.is_clear());
}

#[test]
fn cut_after_copy_replaces_mode() {
    let mut s = Selected::new();
    s.toggle_unit_selection(file("x.txt"));
    s.toggle_unit_selection(file("y.txt"));
    assert!(s.copy());
    assert_eq!(s.mode(), ClipboardMode::Copy);
    assert!(s.cut());
    assert_eq!(s.mode(), ClipboardMode::Cut);
    assert_eq!(sorted(s.as_paths()), vec!["x.txt".to_string(), "y.txt".to_string()]);
    assert!(s.copy());
    assert_eq!(s.mode(), ClipboardMode::Copy);
}

#[test]
fn emptying_by_toggle_resets_mode() {
    let mut s = Selected::new();
    s.toggle_unit_selection(file("x.txt"));
    assert!(s.cut());
    s.toggle_unit_selection(file("x.txt"));
    assert!(s.is_clear());
    assert_eq!(s.mode(), ClipboardMode::Idle);
}

#[test]
fn clear_resets_mode() {
    let mut s = Selected::new();
    s.toggle_unit_selection(file("x.txt"));
    assert!(s.copy());
    s.clear();
    assert!(s.is_clear());
    assert_eq!(s.mode(), ClipboardMode::Idle);
}

#[test]
fn removing_one_of_two_keeps_mode() {
    let mut s = Selected::new();
    s.toggle_unit_selection(file("x.txt"));
    s.toggle_unit_selection(file("y.txt"));
    assert!(s.copy());
    s.toggle_unit_selection(file("x.txt"));
    assert_eq!(s.mode(), ClipboardMode::Copy);
    assert_eq!(s.as_paths(), vec!["y.txt".to_string()]);
}

#[test]
fn clipboard_refuses_empty_and_directories() {
    let mut s = Selected::new();
    assert!(!s.copy());
    assert!(!s.cut());
    assert_eq!(s.mode(), ClipboardMode::Idle);
    s.toggle_unit_selection(dir("movies"));
    s.toggle_unit_selection(file("a.txt"));
    assert!(s.has_dirs());
    assert!(!s.copy());
    assert!(!s.cut());
    assert_eq!(s.mode(), ClipboardMode::Idle);
    assert!(s.delete().is_none());
    assert!(!s.is_clear());
}

#[test]
fn paste_when_idle_is_refused() {
    let mut s = Selected::new();
    s.toggle_unit_selection(file("x.txt"));
    assert!(s.paste("dest".to_string()).is_none());
    assert!(s.is_selected(&file("x.txt")));
    assert_eq!(s.mode(), ClipboardMode::Idle);
}

#[test]
fn paste_copy_dispatches_and_clears() {
    let mut s = Selected::new();
    s.toggle_unit_selection(file("a/x.txt"));
    s.toggle_unit_selection(file("a/y.txt"));
    assert!(s.copy());
    let t = s.paste("dest".to_string()).unwrap();
    assert_eq!(t.kind, TransferKind::Copy);
    assert_eq!(t.destination, "dest");
    assert_eq!(sorted(t.sources), vec!["a/x.txt".to_string(), "a/y.txt".to_string()]);
    assert!(s.is_clear());
    assert_eq!(s.mode(), ClipboardMode::Idle);
    assert!(s.paste("dest".to_string()).is_none());
}

#[test]
fn paste_cut_dispatches_move() {
    let mut s = Selected::new();
    s.toggle_unit_selection(file("x.txt"));
    assert!(s.cut());
    let t = s.paste("dest".to_string()).unwrap();
    assert_eq!(t.kind, TransferKind::Move);
    assert_eq!(t.sources, vec!["x.txt".to_string()]);
    assert!(s.is_clear());
}

#[test]
fn delete_hands_out_paths_and_clears() {
    let mut s = Selected::new();
    s.toggle_unit_selection(file("x.txt"));
    s.toggle_unit_selection(file("y.mp3"));
    let ps = s.delete().unwrap();
    assert_eq!(sorted(ps), vec!["x.txt".to_string(), "y.mp3".to_string()]);
    assert!(s.is_clear());
    assert!(s.delete().is_none());
}

#[test]
fn remove_unit_drops_path_and_resets_when_empty() {
    let mut s = Selected::new();
    s.toggle_unit_selection(file("x.txt"));
    s.toggle_unit_selection(file("y.txt"));
    assert!(s.copy());
    s.remove_unit(&file("nope"));
    assert_eq!(s.mode(), ClipboardMode::Copy);
    s.remove_unit(&file("x.txt"));
    assert!(!s.is_selected(&file("x.txt")));
    assert_eq!(s.mode(), ClipboardMode::Copy);
    s.remove_unit(&file("y.txt"));
    assert!(s.is_clear());
    assert_eq!(s.mode(), ClipboardMode::Idle);
}

#[test]
fn none_keeps_selection() {
    let mut s = Selected::new();
    s.toggle_unit_selection(file("x.txt"));
    assert!(s.cut());
    s.none();
    assert_eq!(s.mode(), ClipboardMode::Idle);
    assert!(s.is_selected(&file("x.txt")));
}

#[test]
fn download_hands_out_files_only() {
    let mut s = Selected::new();
    s.toggle_unit_selection(file("a.mp4"));
    assert_eq!(s.download_selected(), Some(vec!["a.mp4".to_string()]));
    assert!(s.is_clear());
    s.toggle_unit_selection(dir("movies"));
    assert_eq!(s.download_selected(), None);
    assert!(s.is_selected(&dir("movies")));
}
