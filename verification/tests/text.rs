use photo_archive::text::{char_is_space, split_tag_labels, trimmed_part};

#[test]
fn white_space_is_what_the_standard_library_calls_white_space() {
    for code in 0u32..=0x10FFFF {
        if let Some(c) = char::from_u32(code) {
            assert_eq!(char_is_space(c), c.is_whitespace(), "U+{:04X}", code);
        }
    }
}

#[test]
fn an_empty_text_names_no_label() {
    assert!(split_tag_labels("").is_empty());
}

#[test]
fn labels_are_cut_at_commas_and_trimmed() {
    assert_eq!(split_tag_labels("a"), vec!["a"]);
    assert_eq!(split_tag_labels("a,b"), vec!["a", "b"]);
    assert_eq!(split_tag_labels(" a , b c ,d"), vec!["a", "b c", "d"]);
    assert_eq!(split_tag_labels("a,,b"), vec!["a", "", "b"]);
    assert_eq!(split_tag_labels(","), vec!["", ""]);
    assert_eq!(split_tag_labels("a,"), vec!["a", ""]);
    assert_eq!(split_tag_labels("  "), vec![""]);
    assert_eq!(split_tag_labels("\t海 ,\u{3000}山\n"), vec!["海", "山"]);
}

#[test]
fn splitting_agrees_with_split_and_trim() {
    for text in ["x", "sunset, sea", " , ,", "a ,b,  c  ", "no commas here", ",lead", "\u{a0}x\u{2003},y"] {
        let expected: Vec<String> = text.split(',').map(|s| s.trim().to_string()).collect();
        assert_eq!(split_tag_labels(text), expected);
    }
}

#[test]
fn a_part_is_trimmed_on_both_sides() {
    assert_eq!(trimmed_part("  ab  ", 0, 6), "ab");
    assert_eq!(trimmed_part("  ab  ", 1, 3), "a");
    assert_eq!(trimmed_part("  ab  ", 0, 2), "");
    assert_eq!(trimmed_part("a b", 0, 3), "a b");
    assert_eq!(trimmed_part("", 0, 0), "");
}
