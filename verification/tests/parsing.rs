use cutr::{parse_delimiter, parse_index, parse_positions, parse_positive_int, resolve_extract,
    Extract, IndexRange};

fn ranges(bounds: &[(usize, usize)]) -> Vec<IndexRange> {
    bounds.iter().map(|&(start, end)| IndexRange { start, end }).collect()
}

#[test]
fn parse_pos_test() {
    assert_eq!(parse_positions("1").unwrap(), ranges(&[(0, 1)]));
    assert_eq!(parse_positions("1,2").unwrap(), ranges(&[(0, 1), (1, 2)]));
    assert_eq!(parse_positions("1,2,10").unwrap(), ranges(&[(0, 1), (1, 2), (9, 10)]));

    assert_eq!(parse_positions("2-5").unwrap(), ranges(&[(1, 4)]));

    assert_eq!(parse_positions("3,6-10").unwrap(), ranges(&[(2, 3), (5, 9)]));

    assert!(parse_positions("").is_err());
    assert_eq!(
        parse_positions("").unwrap_err().message(),
        "illegal list value: \"\"".to_string()
    );

    assert_eq!(
        parse_positions("5-2").unwrap_err().message(),
        "First number (5) in range must be lower than second value (2)".to_string()
    );
    assert_eq!(
        parse_positions("a-2").unwrap_err().message(),
        "illegal list value: \"a-2\"".to_string()
    );
    assert_eq!(
        parse_positions("5-a").unwrap_err().message(),
        "illegal list value: \"5-a\"".to_string()
    );
}

#[test]
fn parse_index_test() {
    assert_eq!(parse_index("1"), Ok(0));
    assert_eq!(parse_index(""), Err("illegal list value: \"\"".to_string()));
    assert_eq!(parse_index("+2"), Err("illegal list value: \"+2\"".to_string()));
    assert_eq!(parse_index("abc"), Err("illegal list value: \"abc\"".to_string()));
    assert_eq!(parse_index("0"), Err("illegal list value: \"0\"".to_string()));
}

#[test]
fn test_parse_positive_int() {
    assert_eq!(1, parse_positive_int("1").unwrap());
    assert_eq!(10, parse_positive_int("10").unwrap());
    assert!(parse_positive_int("0").is_err());
    assert!(parse_positive_int("-1").is_err());
    assert!(parse_positive_int("a").is_err());
}

#[test]
fn parse_positive_int_error_carries_input() {
    assert_eq!(parse_positive_int("foo"), Err("foo".to_string()));
    assert_eq!(parse_positive_int("0"), Err("0".to_string()));
    assert_eq!(parse_positive_int("+3"), Ok(3));
}

#[test]
fn reversed_range_message_multi_digit() {
    assert_eq!(
        parse_positions("10-2").unwrap_err().message(),
        "First number (10) in range must be lower than second value (2)".to_string()
    );
    assert_eq!(
        parse_positions("120-35").unwrap_err().message(),
        "First number (120) in range must be lower than second value (35)".to_string()
    );
}

#[test]
fn range_subtoken_errors_cite_subtoken() {
    assert_eq!(
        parse_positions("0-5").unwrap_err().message(),
        "illegal list value: \"0\"".to_string()
    );
    assert_eq!(
        parse_positions("2-0").unwrap_err().message(),
        "illegal list value: \"0\"".to_string()
    );
}

#[test]
fn plus_prefixed_clause_is_illegal() {
    assert_eq!(
        parse_positions("+1").unwrap_err().message(),
        "illegal list value: \"+1\"".to_string()
    );
    assert_eq!(
        parse_positions("+1-2").unwrap_err().message(),
        "illegal list value: \"+1-2\"".to_string()
    );
}

#[test]
fn first_bad_clause_wins() {
    assert_eq!(
        parse_positions("1,x,5-2").unwrap_err().message(),
        "illegal list value: \"x\"".to_string()
    );
    assert_eq!(
        parse_positions("1,5-2,x").unwrap_err().message(),
        "First number (5) in range must be lower than second value (2)".to_string()
    );
}

#[test]
fn single_clause_round_trip() {
    assert_eq!(parse_positions("7").unwrap(), ranges(&[(6, 7)]));
    assert_eq!(parse_positions("8").unwrap(), ranges(&[(7, 8)]));
    assert_ne!(parse_positions("7").unwrap(), parse_positions("8").unwrap());
}

#[test]
fn equal_range_bounds_are_rejected() {
    assert_eq!(
        parse_positions("3-3").unwrap_err().message(),
        "First number (3) in range must be lower than second value (3)".to_string()
    );
}

#[test]
fn parse_delimiter_accepts_one_byte() {
    assert_eq!(parse_delimiter("\t"), Ok(b'\t'));
    assert_eq!(parse_delimiter(","), Ok(b','));
}

#[test]
fn parse_delimiter_rejects_multi_byte() {
    assert_eq!(
        parse_delimiter(",,"),
        Err("--delim \",,\" must be a single byte".to_string())
    );
    assert_eq!(
        parse_delimiter(""),
        Err("--delim \"\" must be a single byte".to_string())
    );
}

#[test]
fn resolve_extract_prefers_bytes_then_chars_then_fields() {
    let p = ranges(&[(0, 1)]);
    match resolve_extract(Some(p.clone()), Some(p.clone()), Some(p.clone())).unwrap() {
        Extract::Bytes(b) => assert_eq!(b, p),
        _ => panic!("expected bytes mode"),
    }
    match resolve_extract(None, Some(p.clone()), Some(p.clone())).unwrap() {
        Extract::Chars(c) => assert_eq!(c, p),
        _ => panic!("expected chars mode"),
    }
    match resolve_extract(None, None, Some(p.clone())).unwrap() {
        Extract::Fields(f) => assert_eq!(f, p),
        _ => panic!("expected fields mode"),
    }
}

#[test]
fn resolve_extract_requires_a_mode() {
    assert_eq!(
        resolve_extract(None, None, None).unwrap_err(),
        "Must have --fields, --bytes or --chars".to_string()
    );
}
