use lite_server::range::{if_range_allows, make_etag, parse_range, ByteRange};

#[test]
fn should_be_full_without_header() {
    assert_eq!(parse_range(None, 100), ByteRange::Full);
}

#[test]
fn should_parse_open_ended_range() {
    assert_eq!(
        parse_range(Some("bytes=10-"), 100),
        ByteRange::Single { start: 10, end: 99 }
    );
}

#[test]
fn should_parse_closed_range() {
    assert_eq!(
        parse_range(Some("bytes=0-9"), 100),
        ByteRange::Single { start: 0, end: 9 }
    );
}

#[test]
fn should_clamp_end_beyond_size() {
    assert_eq!(
        parse_range(Some("bytes=0-999999"), 100),
        ByteRange::Single { start: 0, end: 99 }
    );
}

#[test]
fn should_parse_suffix_range() {
    assert_eq!(
        parse_range(Some("bytes=-20"), 100),
        ByteRange::Single { start: 80, end: 99 }
    );
}

#[test]
fn should_clamp_suffix_longer_than_size() {
    assert_eq!(
        parse_range(Some("bytes=-500"), 100),
        ByteRange::Single { start: 0, end: 99 }
    );
}

#[test]
fn should_reject_start_at_or_past_size() {
    assert_eq!(parse_range(Some("bytes=100-"), 100), ByteRange::Unsatisfiable);
    assert_eq!(parse_range(Some("bytes=200-300"), 100), ByteRange::Unsatisfiable);
}

#[test]
fn should_reject_inverted_range() {
    assert_eq!(parse_range(Some("bytes=50-20"), 100), ByteRange::Unsatisfiable);
}

#[test]
fn should_reject_zero_suffix() {
    assert_eq!(parse_range(Some("bytes=-0"), 100), ByteRange::Unsatisfiable);
}

#[test]
fn should_ignore_multi_range() {
    assert_eq!(parse_range(Some("bytes=0-9,20-29"), 100), ByteRange::Full);
}

#[test]
fn should_ignore_garbage() {
    assert_eq!(parse_range(Some("bytes=abc"), 100), ByteRange::Full);
    assert_eq!(parse_range(Some("items=0-9"), 100), ByteRange::Full);
    assert_eq!(parse_range(Some("bytes=-x"), 100), ByteRange::Full);
    assert_eq!(parse_range(Some("bytes=x-9"), 100), ByteRange::Full);
    assert_eq!(parse_range(Some("bytes="), 100), ByteRange::Full);
}

#[test]
fn should_handle_empty_representation() {
    assert_eq!(parse_range(Some("bytes=0-"), 0), ByteRange::Unsatisfiable);
    assert_eq!(parse_range(None, 0), ByteRange::Full);
}

#[test]
fn should_build_etag_from_size_and_mtime() {
    assert_eq!(make_etag(256, 0x65c3a9), "\"100-65c3a9\"");
}

#[test]
fn should_gate_range_on_if_range_match() {
    assert!(if_range_allows(None, "\"a\""));
    assert!(if_range_allows(Some("\"a\""), "\"a\""));
    assert!(!if_range_allows(Some("\"stale\""), "\"a\""));
    assert!(!if_range_allows(Some("Wed, 21 Oct 2015 07:28:00 GMT"), "\"a\""));
}

#[test]
fn malformed_ranges_of_an_empty_file_are_ignored() {
    assert_eq!(parse_range(Some("bytes=abc"), 0), ByteRange::Full);
    assert_eq!(parse_range(Some("items=0-9"), 0), ByteRange::Full);
    assert_eq!(parse_range(Some("bytes=0-9,20-29"), 0), ByteRange::Full);
    assert_eq!(parse_range(Some("bytes=-5"), 0), ByteRange::Unsatisfiable);
}

#[test]
fn blanks_round_a_range_are_dropped() {
    assert_eq!(parse_range(Some("  bytes=1-2 "), 10), ByteRange::Single { start: 1, end: 2 });
    assert_eq!(parse_range(Some("bytes= 1 - 2 "), 10), ByteRange::Single { start: 1, end: 2 });
}

#[test]
fn ranges_stay_within_a_large_file() {
    let size = u64::MAX;
    assert_eq!(
        parse_range(Some("bytes=18446744073709551614-"), size),
        ByteRange::Single { start: u64::MAX - 1, end: u64::MAX - 1 }
    );
    assert_eq!(parse_range(Some("bytes=18446744073709551616-"), size), ByteRange::Full);
    assert_eq!(parse_range(Some("bytes=+1-2"), 10), ByteRange::Single { start: 1, end: 2 });
}

#[test]
fn a_changed_file_has_another_etag() {
    assert_eq!(make_etag(0, 0), "\"0-0\"");
    assert_ne!(make_etag(0x11, 0x1), make_etag(0x1, 0x11));
    assert_ne!(make_etag(5, 7), make_etag(5, 8));
    assert!(!if_range_allows(Some(&make_etag(5, 7)), &make_etag(6, 7)));
    assert!(if_range_allows(Some(&make_etag(5, 7)), &make_etag(5, 7)));
}
