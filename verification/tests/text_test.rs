use adverify::detection::bundle_mentions_name;
use adverify::ml::is_us_country;
use adverify::text::{
    contains_exec, count_matches, count_words, decimal_string, eq_ignore_ascii_case_exec, remove_char,
    some_piece_in_exec, starts_with_exec, trim_chars,
};

fn v(s: &str) -> Vec<char> {
    s.chars().collect()
}

#[test]
fn trimming_and_words() {
    assert_eq!(trim_chars(&v("  a b \n")), v("a b"));
    assert_eq!(trim_chars(&v(" \t ")), v(""));
    assert_eq!(count_words(&v("  one two\tthree\n")), 3);
    assert_eq!(count_words(&v("")), 0);
    assert_eq!(count_words(&v("a\u{3000}b")), 2);
}

#[test]
fn substring_search_and_counts() {
    assert!(contains_exec(&v("hello world"), &v("o w")));
    assert!(!contains_exec(&v("hello"), &v("world")));
    assert!(contains_exec(&v("abc"), &v("")));
    assert_eq!(count_matches(&v("aaaa"), &v("aa")), 2);
    assert_eq!(count_matches(&v("abcabc"), &v("bc")), 2);
    assert_eq!(count_matches(&v("abc"), &v("d")), 0);
}

#[test]
fn case_prefix_and_pieces() {
    assert!(eq_ignore_ascii_case_exec(&v("UnKnOwN"), &v("unknown")));
    assert!(!eq_ignore_ascii_case_exec(&v("unknow"), &v("unknown")));
    assert!(starts_with_exec(&v("en-US"), &v("en")));
    assert!(!starts_with_exec(&v("e"), &v("en")));
    assert_eq!(remove_char(&v(" a b "), ' '), v("ab"));
    assert!(some_piece_in_exec(&v("com.example.app"), '.', &v("myexample")));
    assert!(!some_piece_in_exec(&v("com.example"), '.', &v("zzz")));
}

#[test]
fn lowercase_and_decimal() {
    assert_eq!(decimal_string(0), "0");
    assert_eq!(decimal_string(2073600), "2073600");
    assert_eq!(decimal_string(u128::MAX), u128::MAX.to_string());
}

#[test]
fn string_slices_are_read_by_character() {
    // Multi-byte characters count once: "é" is one piece of the name.
    assert!(bundle_mentions_name("caf é", "com.é"));
    assert!(!bundle_mentions_name("café", "com.cafe"));
    assert!(is_us_country("united states"));
    assert!(!is_us_country("united"));
}

#[test]
fn white_space_agrees_with_std_on_every_char() {
    for u in 0..=0x10FFFFu32 {
        if let Some(c) = char::from_u32(u) {
            assert_eq!(trim_chars(&vec![c]).is_empty(), c.is_whitespace(), "U+{u:04X}");
        }
    }
}
