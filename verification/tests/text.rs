use submodule_bumps::lines::{first_line_len, read_line, split_lines, strip_line_end, LineReader};
use submodule_bumps::order::{text_order, TextOrder};
use submodule_bumps::text::{
    chars_of, ends_with, is_blank_text, is_space, last_position, position, starts_with, text_of,
    trimmed,
};

fn chars(s: &str) -> Vec<char> {
    s.chars().collect()
}

#[test]
fn white_space_is_what_std_calls_white_space() {
    let mut n: u32 = 0;
    while n <= 0x10ffff {
        if let Some(c) = char::from_u32(n) {
            assert_eq!(is_space(c), c.is_whitespace(), "at {:x}", n);
        }
        n += 1;
    }
}

#[test]
fn chars_and_text_are_inverse() {
    assert_eq!(chars_of("a\u{2713}b"), vec!['a', '\u{2713}', 'b']);
    assert_eq!(chars_of(""), Vec::<char>::new());
    assert_eq!(text_of(&['a', '\u{274c}', 'b']), "a\u{274c}b");
    assert_eq!(text_of(&[]), "");
    assert_eq!(text_of(&chars_of("release-1.0")), "release-1.0");
}

#[test]
fn trimming_takes_white_space_off_both_ends() {
    assert_eq!(trimmed(&chars("  a b \t\n")), &chars("a b")[..]);
    assert_eq!(trimmed(&chars("a")), &chars("a")[..]);
    assert_eq!(trimmed(&chars(" \u{a0}\u{3000} ")), &chars("")[..]);
    assert_eq!(trimmed(&chars("")), &chars("")[..]);
    assert_eq!(text_of(trimmed(&chars("\u{2003}x\u{85}"))), "\u{2003}x\u{85}".trim());
}

#[test]
fn blank_texts() {
    assert!(is_blank_text(""));
    assert!(is_blank_text(" \t\r\n"));
    assert!(!is_blank_text(" x "));
}

#[test]
fn prefixes_and_suffixes() {
    assert!(starts_with(&chars("Submodule x"), &chars("Submodule ")));
    assert!(starts_with(&chars("abc"), &chars("")));
    assert!(starts_with(&chars("abc"), &chars("abc")));
    assert!(!starts_with(&chars("abc"), &chars("abd")));
    assert!(!starts_with(&chars("ab"), &chars("abc")));
    assert!(ends_with(&chars("a...b:"), &chars(":")));
    assert!(ends_with(&chars("abc"), &chars("")));
    assert!(ends_with(&chars("abc"), &chars("abc")));
    assert!(!ends_with(&chars("abc"), &chars("ab")));
    assert!(!ends_with(&chars("bc"), &chars("abc")));
}

#[test]
fn positions_of_a_character() {
    assert_eq!(position(&chars("a.b.c"), '.'), Some(1));
    assert_eq!(last_position(&chars("a.b.c"), '.'), Some(3));
    assert_eq!(position(&chars("abc"), '.'), None);
    assert_eq!(last_position(&chars("abc"), '.'), None);
    assert_eq!(position(&chars(""), '.'), None);
    assert_eq!(position(&chars("."), '.'), Some(0));
    assert_eq!(last_position(&chars("."), '.'), Some(0));
}

#[test]
fn texts_are_ordered_character_by_character() {
    assert_eq!(text_order("", ""), TextOrder::Same);
    assert_eq!(text_order("abc", "abc"), TextOrder::Same);
    assert_eq!(text_order("", "a"), TextOrder::Before);
    assert_eq!(text_order("a", ""), TextOrder::After);
    assert_eq!(text_order("ab", "abc"), TextOrder::Before);
    assert_eq!(text_order("abd", "abc"), TextOrder::After);
    assert_eq!(text_order("2019-01-01", "2019-01-02"), TextOrder::Before);
    assert_eq!(text_order("1.10.0", "1.9.0"), TextOrder::Before);
    assert_eq!(text_order("None", "1.0.0"), TextOrder::After);
    assert_eq!(text_order("\u{e9}", "z"), TextOrder::After);
    assert_eq!(text_order("\u{10000}", "\u{ffff}"), TextOrder::After);
}

#[test]
fn text_order_agrees_with_std() {
    let samples = ["", "a", "ab", "b", "2019", "2020-01", "None", "\u{e9}", "\u{10000}", "\u{ffff}"];
    for a in samples.iter() {
        for b in samples.iter() {
            let expected = match a.cmp(b) {
                std::cmp::Ordering::Less => TextOrder::Before,
                std::cmp::Ordering::Equal => TextOrder::Same,
                std::cmp::Ordering::Greater => TextOrder::After,
            };
            assert_eq!(text_order(a, b), expected);
        }
    }
}

#[test]
fn lines_are_split_as_std_splits_them() {
    let samples = ["", "a", "a\n", "a\nb", "a\r\nb\r\n", "\n", "\n\n", "a\r", "a\r\n\r\n", "\r\n", "a\n\nb"];
    for text in samples.iter() {
        let expected: Vec<String> = text.lines().map(|l| l.to_string()).collect();
        assert_eq!(split_lines(text), expected);
    }
}

#[test]
fn line_ends_come_off() {
    assert_eq!(strip_line_end(&chars("abc\n")), &chars("abc")[..]);
    assert_eq!(strip_line_end(&chars("abc\r\n")), &chars("abc")[..]);
    assert_eq!(strip_line_end(&chars("abc\r")), &chars("abc\r")[..]);
    assert_eq!(strip_line_end(&chars("abc")), &chars("abc")[..]);
    assert_eq!(strip_line_end(&chars("\n")), &chars("")[..]);
    assert_eq!(first_line_len(&chars("ab\ncd")), 3);
    assert_eq!(first_line_len(&chars("abcd")), 4);
    assert_eq!(first_line_len(&chars("")), 0);
}

#[test]
fn reader_gives_lines_with_their_line_feed() {
    let mut reader = LineReader::new("c0ffee\nSubmodule x a...b:\nlast");
    assert_eq!(read_line(&mut reader), Some("c0ffee\n".to_string()));
    assert_eq!(read_line(&mut reader), Some("Submodule x a...b:\n".to_string()));
    assert_eq!(read_line(&mut reader), Some("last".to_string()));
    assert_eq!(read_line(&mut reader), None);
    assert_eq!(read_line(&mut reader), None);
}

#[test]
fn reader_of_nothing_gives_nothing() {
    let mut reader = LineReader::new("");
    assert_eq!(read_line(&mut reader), None);
}

#[test]
fn reader_gives_empty_lines() {
    let mut reader = LineReader::new("\n\na\n");
    assert_eq!(read_line(&mut reader), Some("\n".to_string()));
    assert_eq!(read_line(&mut reader), Some("\n".to_string()));
    assert_eq!(read_line(&mut reader), Some("a\n".to_string()));
    assert_eq!(read_line(&mut reader), None);
}
