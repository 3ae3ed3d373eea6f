use tdm::{parse_file_path, parse_fix, AnyRange, ParseAnyRangeError, ParseFixError};

#[test]
fn from_str_works() {
    let start = 1;
    let end = 2;
    assert_eq!("1".parse::<AnyRange>().unwrap(), AnyRange::Index(1));
    assert_eq!(
        "1..".parse::<AnyRange>().unwrap(),
        AnyRange::RangeFrom { start }
    );
    assert_eq!(
        "1..2".parse::<AnyRange>().unwrap(),
        AnyRange::Range { start, end }
    );
    assert_eq!("..2".parse::<AnyRange>().unwrap(), AnyRange::RangeTo { end });
    assert_eq!(
        "..=2".parse::<AnyRange>().unwrap(),
        AnyRange::RangeToInclusive { end }
    );
    assert_eq!("..".parse::<AnyRange>().unwrap(), AnyRange::RangeFull);
    assert_eq!(
        "1..=2".parse::<AnyRange>().unwrap(),
        AnyRange::RangeInclusive { start, end }
    )
}

#[test]
fn half_open_range_membership() {
    let r = AnyRange::parse("1..3").unwrap();
    assert!(r.contains(&1));
    assert!(r.contains(&2));
    assert!(!r.contains(&0));
    assert!(!r.contains(&3));
}

#[test]
fn inclusive_upper_range_membership() {
    let r = AnyRange::parse("..=2").unwrap();
    assert!(r.contains(&0));
    assert!(r.contains(&1));
    assert!(r.contains(&2));
    assert!(!r.contains(&3));
}

#[test]
fn single_index_membership() {
    let r = AnyRange::parse("2").unwrap();
    assert!(r.contains(&2));
    assert!(!r.contains(&1));
    assert!(!r.contains(&3));
}

#[test]
fn other_forms_membership() {
    let from = AnyRange::parse("4..").unwrap();
    assert!(from.contains(&4) && from.contains(&1000) && !from.contains(&3));
    let full = AnyRange::parse("..").unwrap();
    assert!(full.contains(&0) && full.contains(&usize::MAX));
    let to = AnyRange::parse("..2").unwrap();
    assert!(to.contains(&1) && !to.contains(&2));
    let incl = AnyRange::parse("2..=3").unwrap();
    assert!(incl.contains(&2) && incl.contains(&3) && !incl.contains(&4) && !incl.contains(&1));
}

#[test]
fn malformed_ranges_are_rejected() {
    for text in ["a..b", "", "1..=", "..=", "1...2", "1.2", " 1", "1 ", "-1", "1..2..3", "x"] {
        match AnyRange::parse(text) {
            Err(ParseAnyRangeError::InvalidFormat { raw }) => assert_eq!(raw, text),
            Ok(r) => panic!("{text:?} was read as {r:?}"),
        }
    }
}

#[test]
fn range_number_beyond_usize_is_rejected() {
    let huge = "1".repeat(40);
    assert!(AnyRange::parse(&huge).is_err());
    assert!(AnyRange::parse(&format!("..{huge}")).is_err());
    assert_eq!(AnyRange::parse("007").unwrap(), AnyRange::Index(7));
}

#[test]
fn fix_rule_is_split_at_first_colon() {
    let (range, fix) = parse_fix("1..2: m:s").unwrap();
    assert_eq!(range, AnyRange::Range { start: 1, end: 2 });
    assert_eq!(fix, " m:s");
    let (range, fix) = parse_fix("3").unwrap();
    assert_eq!(range, AnyRange::Index(3));
    assert_eq!(fix, "");
    match parse_fix("a:b") {
        Err(ParseFixError::InvalidRange(ParseAnyRangeError::InvalidFormat { raw })) => {
            assert_eq!(raw, "a")
        }
        other => panic!("unexpected {other:?}"),
    }
}

#[test]
fn file_path_side_value() {
    assert_eq!(
        parse_file_path("data.csv:|"),
        ("data.csv".to_string(), Some("|".to_string()))
    );
    assert_eq!(parse_file_path("data.dat"), ("data.dat".to_string(), None));
    assert_eq!(
        parse_file_path("a.csv::x"),
        ("a.csv".to_string(), Some(":x".to_string()))
    );
}
