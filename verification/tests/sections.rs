use rds::sections::{bool_from_int, bool_to_dsint, default_128i32, default_2i32, default_50i32};

#[test]
fn switches_read_from_integers() {
    assert!(bool_from_int(1));
    assert!(!bool_from_int(0));
    assert!(!bool_from_int(2));
    assert!(!bool_from_int(-1));
}

#[test]
fn switches_stored_as_integers() {
    assert_eq!(bool_to_dsint(true), 1);
    assert_eq!(bool_to_dsint(false), 0);
    assert!(bool_from_int(bool_to_dsint(true)));
    assert!(!bool_from_int(bool_to_dsint(false)));
}

#[test]
fn integer_defaults() {
    assert_eq!(default_128i32(), 128);
    assert_eq!(default_2i32(), 2);
    assert_eq!(default_50i32(), 50);
}
