use hayabusa_evtx::ranges::RangesErrorKind;
use hayabusa_evtx::{matches_ranges, Ranges};

#[test]
fn test_ranges() {
    assert!(matches_ranges("1-2,3,4-5,6-7,8-9").is_ok());
    assert!(matches_ranges("1").is_ok());
    assert!(matches_ranges("1-").is_err());
    assert!(matches_ranges("-2").is_err());
}

#[test]
fn single_event_selects_only_itself() {
    let r = Ranges::from_str("1").unwrap();
    assert!(r.contains(&1));
    assert!(!r.contains(&0));
    assert!(!r.contains(&2));
}

#[test]
fn two_ranges_select_their_events() {
    let r = Ranges::from_str("0-10,20-30").unwrap();
    for n in 0..=10 {
        assert!(r.contains(&n));
    }
    for n in 11..20 {
        assert!(!r.contains(&n));
    }
    for n in 20..=30 {
        assert!(r.contains(&n));
    }
    assert!(!r.contains(&31));
}

#[test]
fn reversed_range_selects_nothing() {
    let r = Ranges::from_str("5-3").unwrap();
    for n in 0..10 {
        assert!(!r.contains(&n));
    }
}

#[test]
fn plus_sign_and_large_numbers_parse_like_usize() {
    let r = Ranges::from_str("+7,18446744073709551615").unwrap();
    assert!(r.contains(&7));
    assert!(r.contains(&usize::MAX));
    assert!(matches_ranges("18446744073709551616").is_err());
    assert!(matches_ranges("+").is_err());
    assert!(matches_ranges("++1").is_err());
}

#[test]
fn error_messages_name_the_piece() {
    assert_eq!(
        matches_ranges("1,x").unwrap_err(),
        "Expected range to be a positive number, got: x"
    );
    assert_eq!(
        matches_ranges("1-2-3").unwrap_err(),
        "Expected either a single number or range of numbers, but got: 1-2-3"
    );
    assert_eq!(
        matches_ranges("4,1--2").unwrap_err(),
        "Expected range to be a positive number, got: 1--2"
    );
    assert_eq!(matches_ranges("").unwrap_err(), "Expected range to be a positive number, got: ");
}

#[test]
fn error_kind_and_piece() {
    let e = Ranges::from_str("3,a-b,7").err().unwrap();
    assert_eq!(e.kind, RangesErrorKind::NotAPositiveNumber);
    assert_eq!(e.range, "a-b");
    let e = Ranges::from_str("1-2-x").err().unwrap();
    assert_eq!(e.kind, RangesErrorKind::NotASingleNumberOrRange);
    assert_eq!(e.range, "1-2-x");
}

#[test]
fn trailing_comma_is_refused() {
    assert!(matches_ranges("1,").is_err());
}

#[test]
fn written_ranges_parse_back() {
    let r = Ranges::from_str("0-0,5-9,42-42,18446744073709551614-18446744073709551615").unwrap();
    assert!(r.contains(&0));
    assert!(!r.contains(&1));
    assert!(r.contains(&7));
    assert!(r.contains(&42));
    assert!(r.contains(&(usize::MAX - 1)));
}
