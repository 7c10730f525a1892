use cutr::{extract_bytes, extract_chars, extract_fields, parse_positions, process_field_line,
    IndexRange};

fn ranges(bounds: &[(usize, usize)]) -> Vec<IndexRange> {
    bounds.iter().map(|&(start, end)| IndexRange { start, end }).collect()
}

#[test]
fn extract_chars_test() {
    assert_eq!(extract_chars("", &ranges(&[(0, 1)])), "");
    assert_eq!(extract_chars("aｂcdefd", &ranges(&[(0, 1)])), "a");
    assert_eq!(extract_chars("aｂcdefd", &ranges(&[(0, 1), (3, 5)])), "ade");
    assert_eq!(extract_chars("aｂcdefd", &ranges(&[(0, 1), (3, 10)])), "adefd");
    assert_eq!(extract_chars("aｂcdefd", &ranges(&[(1, 2), (0, 4), (4, 6)])), "ｂaｂcdef");
    assert_eq!(extract_chars("aｂcdefd", &ranges(&[(10, 11)])), "");
}

#[test]
fn extract_bytes_test() {
    assert_eq!(extract_bytes("", &ranges(&[(0, 1)])), "");
    assert_eq!(extract_bytes("aあcdefd", &ranges(&[(0, 1)])), "a");
    assert_eq!(extract_bytes("aあcdefd", &ranges(&[(1, 2)])), "�");
    assert_eq!(extract_bytes("aあcdefd", &ranges(&[(1, 4)])), "あ");
    assert_eq!(extract_bytes("aあcdefd", &ranges(&[(0, 1), (2, 6)])), "a��cd");
    assert_eq!(extract_bytes("aあcdefd", &ranges(&[(0, 1), (0, 4), (4, 6)])), "aaあcd");
    assert_eq!(extract_bytes("aあcdefd", &ranges(&[(10, 11)])), "");
}

#[test]
fn chars_full_range_is_identity() {
    assert_eq!(extract_chars("hello", &ranges(&[(0, 5)])), "hello");
    assert_eq!(extract_chars("aあc", &ranges(&[(0, 3)])), "aあc");
}

#[test]
fn bytes_full_range_is_identity_on_ascii() {
    assert_eq!(extract_bytes("hello", &ranges(&[(0, 5)])), "hello");
    assert_eq!(extract_bytes("aあc", &ranges(&[(0, 5)])), "aあc");
}

#[test]
fn selections_from_parsed_specs() {
    let pos = parse_positions("1,3").unwrap();
    assert_eq!(extract_chars("abc", &pos), "ac");
    let pos = parse_positions("2-3").unwrap();
    assert_eq!(extract_chars("abc", &pos), "b");
    let pos = parse_positions("2-4").unwrap();
    assert_eq!(extract_chars("abc", &pos), "bc");
}

#[test]
fn extract_fields_selects_in_clause_order() {
    let record: Vec<String> = vec!["a".into(), "b".into(), "c".into()];
    assert_eq!(extract_fields(&record, &ranges(&[(0, 1), (2, 3)])), vec!["a", "c"]);
    assert_eq!(extract_fields(&record, &ranges(&[(1, 3)])), vec!["b", "c"]);
    assert_eq!(
        extract_fields(&record, &ranges(&[(2, 3), (0, 2), (0, 1)])),
        vec!["c", "a", "b", "a"]
    );
    assert_eq!(extract_fields(&record, &ranges(&[(5, 7)])), Vec::<String>::new());
    assert_eq!(extract_fields(&record, &ranges(&[(1, 10)])), vec!["b", "c"]);
}

#[test]
fn fields_end_to_end() {
    let pos = parse_positions("1,3").unwrap();
    assert_eq!(process_field_line("a,b,c", b',', &pos), Some("a,c\n".to_string()));
    let pos = parse_positions("2-4").unwrap();
    assert_eq!(process_field_line("a,b,c", b',', &pos), Some("b,c\n".to_string()));
    let pos = parse_positions("2-3").unwrap();
    assert_eq!(process_field_line("a,b,c", b',', &pos), Some("b\n".to_string()));
}

#[test]
fn fields_quoting_round_trips() {
    let pos = parse_positions("1,2").unwrap();
    assert_eq!(
        process_field_line("\"a,x\",b", b',', &pos),
        Some("\"a,x\",b\n".to_string())
    );
    let pos = parse_positions("1").unwrap();
    assert_eq!(
        process_field_line("\"he said \"\"hi\"\"\",b", b',', &pos),
        Some("\"he said \"\"hi\"\"\"\n".to_string())
    );
}

#[test]
fn fields_with_tab_delimiter() {
    let pos = parse_positions("2").unwrap();
    assert_eq!(process_field_line("a\tb\tc", b'\t', &pos), Some("b\n".to_string()));
}

#[test]
fn fields_empty_line_has_no_record() {
    let pos = parse_positions("1").unwrap();
    assert_eq!(process_field_line("", b',', &pos), None);
}

#[test]
fn fields_out_of_range_indices_are_skipped() {
    let pos = parse_positions("1,5").unwrap();
    assert_eq!(process_field_line("a,b", b',', &pos), Some("a\n".to_string()));
}
