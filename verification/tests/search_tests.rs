use revolver_extract::search::{position, slice_eq, starting_at_position};

#[test]
fn position_finds_first_occurrence() {
    assert_eq!(position(b"abcabc", b"bc"), Some(1));
}

#[test]
fn position_at_start_and_end() {
    assert_eq!(position(b"abcabc", b"abc"), Some(0));
    assert_eq!(position(b"xxabc", b"abc"), Some(2));
}

#[test]
fn position_absent_needle() {
    assert_eq!(position(b"abcabc", b"zz"), None);
}

#[test]
fn position_needle_longer_than_haystack() {
    assert_eq!(position(b"ab", b"abc"), None);
}

#[test]
fn starting_at_position_returns_suffix() {
    let rest = starting_at_position(b"xxusertail", b"user").unwrap();
    assert_eq!(rest, b"tail");
}

#[test]
fn starting_at_position_absent_needle() {
    assert!(starting_at_position(b"xxyy", b"user").is_none());
}

#[test]
fn slice_eq_compares_bytes() {
    assert!(slice_eq(b"abc", b"abc"));
    assert!(!slice_eq(b"abc", b"abd"));
    assert!(!slice_eq(b"abc", b"ab"));
}
