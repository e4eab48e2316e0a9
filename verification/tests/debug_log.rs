use nca::debug_log::{enabled, log};

#[test]
fn the_log_is_switched_on_by_one_value() {
    assert!(enabled(Some("1")));
    assert!(!enabled(Some("true")));
    assert!(!enabled(Some("11")));
    assert!(!enabled(Some("")));
    assert!(!enabled(None));
}

#[test]
fn a_line_has_a_time_stamp() {
    assert_eq!(
        log(Some("1"), 1700000000, 7, "draw", "took 3ms").as_deref(),
        Some("[1700000000.007] draw: took 3ms\n")
    );
    assert_eq!(log(Some("1"), 0, 42, "t", "").as_deref(), Some("[0.042] t: \n"));
    assert_eq!(log(Some("1"), 0, 999, "t", "m").as_deref(), Some("[0.999] t: m\n"));
    assert_eq!(log(Some("1"), 0, 1000, "t", "m").as_deref(), Some("[0.1000] t: m\n"));
}

#[test]
fn nothing_is_logged_while_it_is_off() {
    assert_eq!(log(None, 1, 1, "t", "m"), None);
    assert_eq!(log(Some("0"), 1, 1, "t", "m"), None);
}
