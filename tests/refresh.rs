use locker::refresh::Refresh;

#[test]
fn invalidations_coalesce_into_one_fetch() {
    let mut r = Refresh::new("".to_string());
    assert!(!r.invalidate());
    assert!(!r.invalidate());
    assert!(!r.invalidate());
    let (show, again) = r.complete(&"".to_string());
    assert!(!show);
    assert!(again);
    let (show, again) = r.complete(&"".to_string());
    assert!(show);
    assert!(!again);
}

#[test]
fn idle_invalidation_fetches_at_once() {
    let mut r = Refresh::new("docs".to_string());
    assert_eq!(r.complete(&"docs".to_string()), (true, false));
    let t = r.tick();
    assert!(r.invalidate());
    assert_ne!(r.tick(), t);
}

#[test]
fn stale_directory_is_not_shown() {
    let mut r = Refresh::new("a".to_string());
    assert_eq!(r.complete(&"a".to_string()), (true, false));
    assert!(r.navigate("b".to_string()));
    assert_eq!(r.current(), "b");
    assert_eq!(r.complete(&"a".to_string()), (false, false));
}

#[test]
fn navigation_during_fetch_refetches_new_directory() {
    let mut r = Refresh::new("a".to_string());
    assert!(!r.navigate("b".to_string()));
    assert_eq!(r.complete(&"a".to_string()), (false, true));
    assert_eq!(r.complete(&"b".to_string()), (true, false));
}
