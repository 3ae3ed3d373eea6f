use tdm::text::is_white_char;
use tdm::{AnyRange, Cell, DecimalSeparator, FormatOptions};

fn options() -> FormatOptions {
    FormatOptions {
        precision: None,
        exponent: false,
        decimal_sep: DecimalSeparator::Dot,
        sign: false,
        hline: false,
        csv_sep: ",".to_string(),
        prefix: Vec::new(),
        suffix: Vec::new(),
    }
}

#[test]
fn inference_examples() {
    assert_eq!(Cell::infer("42"), Cell::Int(42));
    assert_eq!(Cell::infer("3.14"), Cell::Float("3.14".to_string()));
    assert_eq!(Cell::infer("3,14"), Cell::Float("3.14".to_string()));
    assert_eq!(Cell::infer(""), Cell::Blank);
    assert_eq!(Cell::infer("  \t "), Cell::Blank);
    assert_eq!(Cell::infer("abc"), Cell::Str("abc".to_string()));
    assert_eq!("42".parse::<Cell>().unwrap(), Cell::Int(42));
}

#[test]
fn inference_is_deterministic() {
    for text in ["42", "3.14", "3,14", "", " ", "abc", "1e5", "-0"] {
        assert_eq!(Cell::infer(text), Cell::infer(text));
    }
}

#[test]
fn integer_bounds_and_signs() {
    assert_eq!(Cell::infer("-9223372036854775808"), Cell::Int(i64::MIN));
    assert_eq!(Cell::infer("9223372036854775807"), Cell::Int(i64::MAX));
    assert_eq!(Cell::infer("3000000000"), Cell::Int(3000000000));
    assert_eq!(Cell::infer("+7"), Cell::Int(7));
    assert_eq!(Cell::infer("007"), Cell::Int(7));
    assert_eq!(
        Cell::infer("9223372036854775808"),
        Cell::Float("9223372036854775808".to_string())
    );
    assert_eq!(Cell::infer(" 5"), Cell::Str(" 5".to_string()));
}

#[test]
fn float_forms_follow_std() {
    for text in [
        "1e5", "1E-3", "+.5", "5.", "-inf", "Infinity", "NaN", "0.1e+10", "12.5e3",
    ] {
        assert!(text.parse::<f64>().is_ok());
        assert_eq!(Cell::infer(text), Cell::Float(text.to_string()), "{text}");
    }
    for text in ["1e", ".", "e5", "1.2.3", "--1", "in", "1,2,3", "0x10"] {
        assert!(text.parse::<f64>().is_err());
        assert!(!matches!(Cell::infer(text), Cell::Float(_)), "{text}");
    }
    assert_eq!(Cell::infer("1,5e3"), Cell::Float("1.5e3".to_string()));
}

#[test]
fn white_space_matches_std() {
    for code in 0..=0x10FFFFu32 {
        if let Some(c) = char::from_u32(code) {
            assert_eq!(is_white_char(c), c.is_whitespace(), "{code:x}");
        }
    }
}

#[test]
fn fixed_precision_sign_and_comma() {
    let mut o = options();
    o.precision = Some(2);
    o.sign = true;
    o.decimal_sep = DecimalSeparator::Comma;
    assert_eq!(Cell::Int(5).fmt(&o, 0), "+5,00");
}

#[test]
fn exponent_with_precision() {
    let mut o = options();
    o.precision = Some(1);
    o.exponent = true;
    assert_eq!(Cell::Int(-3).fmt(&o, 0), "-3.0e+00");
    assert_eq!(Cell::Int(1500).fmt(&o, 0), "1.5e+03");
}

#[test]
fn plain_integers() {
    let mut o = options();
    assert_eq!(Cell::Int(-17).fmt(&o, 0), "-17");
    assert_eq!(Cell::Int(i64::MIN).fmt(&o, 0), "-9223372036854775808");
    o.sign = true;
    assert_eq!(Cell::Int(0).fmt(&o, 0), "+0");
    assert_eq!(Cell::Int(12).fmt(&o, 0), "+12");
    assert_eq!(Cell::Int(-12).fmt(&o, 0), "-12");
}

#[test]
fn number_patterns() {
    let mut o = options();
    assert_eq!(o.number_pattern(), None);
    o.exponent = true;
    assert_eq!(o.number_pattern(), Some("e".to_string()));
    o.sign = true;
    assert_eq!(o.number_pattern(), Some("+e".to_string()));
    o.precision = Some(12);
    assert_eq!(o.number_pattern(), Some("+.12e".to_string()));
    o.exponent = false;
    assert_eq!(o.number_pattern(), Some("+0.12f".to_string()));
}

#[test]
fn later_rule_wins() {
    let rules = vec![
        (AnyRange::Range { start: 0, end: 2 }, "a".to_string()),
        (AnyRange::Range { start: 1, end: 3 }, "b".to_string()),
    ];
    assert_eq!(tdm::format::resolve_rule(&rules, 1), "b");
    assert_eq!(tdm::format::resolve_rule(&rules, 0), "a");
    assert_eq!(tdm::format::resolve_rule(&rules, 5), "");
    let mut o = options();
    o.prefix = rules;
    o.suffix = vec![(AnyRange::RangeFull, " m".to_string())];
    assert_eq!(Cell::Int(4).fmt(&o, 1), "b4 m");
    assert_eq!(Cell::Str("x".to_string()).fmt(&o, 1), "x");
    assert_eq!(Cell::Blank.fmt(&o, 1), "");
}

#[test]
fn float_cell_text_is_decorated() {
    let mut o = options();
    o.decimal_sep = DecimalSeparator::Comma;
    o.prefix = vec![(AnyRange::Index(0), "$".to_string())];
    assert_eq!(Cell::Float("2.50".to_string()).fmt(&o, 0), "$2,50");
    assert_eq!(Cell::Float("2.50".to_string()).fmt(&o, 1), "2,50");
}

#[test]
fn wide_integers_fixed_point() {
    let mut o = options();
    o.precision = Some(2);
    assert_eq!(Cell::Int(3000000000).fmt(&o, 0), "3000000000.00");
    assert_eq!(Cell::Int(-3000000000).fmt(&o, 0), "-3000000000.00");
    o.precision = Some(0);
    o.sign = true;
    assert_eq!(Cell::Int(3000000000).fmt(&o, 0), "+3000000000");
    assert_eq!(Cell::Int(7).fmt(&o, 0), "+7");
}

#[test]
fn wide_integers_scientific() {
    let mut o = options();
    o.exponent = true;
    o.precision = Some(1);
    assert_eq!(Cell::Int(2250000000).fmt(&o, 0), "2.2e+09");
    assert_eq!(Cell::Int(2350000000).fmt(&o, 0), "2.4e+09");
    assert_eq!(Cell::Int(9999999999).fmt(&o, 0), "1.0e+10");
    assert_eq!(Cell::Int(-3000000001).fmt(&o, 0), "-3.0e+09");
    o.precision = Some(12);
    assert_eq!(Cell::Int(3000000000).fmt(&o, 0), "3.000000000000e+09");
    o.precision = None;
    o.sign = true;
    assert_eq!(Cell::Int(3000000000).fmt(&o, 0), "+3.000000e+09");
    assert_eq!(Cell::Int(1500).fmt(&o, 0), "+1.500000e+03");
}
