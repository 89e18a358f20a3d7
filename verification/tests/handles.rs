use opcua_session::handle::Handle;

#[test]
fn handle_wraparound_scenario() {
    // starting at 1 with wrap boundary 3: issues 2, 3, 1, 2
    let mut h = Handle::new_with_wrap(1, 3);
    assert_eq!(h.next(), 2);
    assert_eq!(h.next(), 3);
    assert_eq!(h.next(), 1);
    assert_eq!(h.next(), 2);
}

#[test]
fn handle_never_zero_with_small_wrap() {
    let mut h = Handle::new_with_wrap(1, 5);
    for _ in 0..32 {
        let v = h.next();
        assert!(v != 0);
        assert!(v >= 1 && v <= 5);
    }
}

#[test]
fn handle_default_first_values() {
    let mut h = Handle::new(1);
    assert_eq!(h.next(), 2);
    assert_eq!(h.next(), 3);
    assert_eq!(h.next(), 4);
}

#[test]
fn handle_wraps_at_maximum() {
    let mut h = Handle::new(u32::MAX);
    assert_eq!(h.next(), 1);
    assert_eq!(h.next(), 2);
}

#[test]
fn handle_starting_at_zero_issues_one_first() {
    let mut h = Handle::new_with_wrap(0, 4);
    assert_eq!(h.next(), 1);
}
