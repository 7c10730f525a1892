use cutr::{count, format_counts, FileInfo};

#[test]
fn test_count() {
    let text = "I don't want the world. I just want your half.\r\n";
    let info = count(text);

    let expected = FileInfo { num_lines: 1, num_words: 10, num_bytes: 48, num_chars: 48 };

    assert_eq!(info, expected);
}

#[test]
fn count_empty_text() {
    assert_eq!(count(""), FileInfo { num_lines: 0, num_words: 0, num_bytes: 0, num_chars: 0 });
}

#[test]
fn count_final_fragment_is_a_line() {
    assert_eq!(count("abc"), FileInfo { num_lines: 1, num_words: 1, num_bytes: 3, num_chars: 3 });
    assert_eq!(
        count("a\nb\n"),
        FileInfo { num_lines: 2, num_words: 2, num_bytes: 4, num_chars: 4 },
    );
    assert_eq!(
        count("a\nb"),
        FileInfo { num_lines: 2, num_words: 2, num_bytes: 3, num_chars: 3 },
    );
}

#[test]
fn count_whitespace_only_has_no_words() {
    assert_eq!(count("  "), FileInfo { num_lines: 1, num_words: 0, num_bytes: 2, num_chars: 2 });
}

#[test]
fn count_multibyte_characters() {
    assert_eq!(
        count("aあc\n"),
        FileInfo { num_lines: 1, num_words: 1, num_bytes: 6, num_chars: 4 },
    );
}

#[test]
fn format_counts_pads_columns() {
    let info = FileInfo { num_lines: 1, num_words: 10, num_bytes: 48, num_chars: 48 };
    assert_eq!(
        format_counts(true, true, true, false, &info, "file.txt"),
        "       1      10      48 file.txt"
    );
    assert_eq!(format_counts(true, false, false, false, &info, "-"), "       1");
    let wide = FileInfo { num_lines: 123456789, num_words: 0, num_bytes: 0, num_chars: 0 };
    assert_eq!(format_counts(true, false, false, false, &wide, "-"), "123456789");
}

#[test]
fn works() {
    assert!(true);
}

#[test]
fn test() -> () {}

#[test]
fn split_test() {
    let line = "a b  c d     e f";
    for (i, value) in line.split(" ").enumerate() {
        println!("# {}: {}", i, value);
    }
}
