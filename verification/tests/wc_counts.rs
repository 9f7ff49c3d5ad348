use tinyutils::wc::counts::{count_reader, is_ascii_whitespace, Counts};

fn count_str(s: &str) -> Counts {
    count_reader(s.as_bytes())
}

#[test]
fn test_empty_input() {
    let counts = count_str("");
    assert_eq!(counts.lines, 0);
    assert_eq!(counts.words, 0);
    assert_eq!(counts.bytes, 0);
    assert_eq!(counts.chars, 0);
}

#[test]
fn test_single_word_no_newline() {
    let counts = count_str("hello");
    assert_eq!(counts.lines, 0);
    assert_eq!(counts.words, 1);
    assert_eq!(counts.bytes, 5);
    assert_eq!(counts.chars, 5);
}

#[test]
fn test_single_word_with_newline() {
    let counts = count_str("hello\n");
    assert_eq!(counts.lines, 1);
    assert_eq!(counts.words, 1);
    assert_eq!(counts.bytes, 6);
    assert_eq!(counts.chars, 6);
}

#[test]
fn test_multiple_words() {
    let counts = count_str("hello world\n");
    assert_eq!(counts.lines, 1);
    assert_eq!(counts.words, 2);
    assert_eq!(counts.bytes, 12);
    assert_eq!(counts.chars, 12);
}

#[test]
fn test_multiple_lines() {
    let counts = count_str("line one\nline two\nline three\n");
    assert_eq!(counts.lines, 3);
    assert_eq!(counts.words, 6);
    assert_eq!(counts.bytes, 29);
    assert_eq!(counts.chars, 29);
}

#[test]
fn test_varying_whitespace() {
    let counts = count_str("  hello   world  \n");
    assert_eq!(counts.lines, 1);
    assert_eq!(counts.words, 2); // multiple spaces don't create extra words
    assert_eq!(counts.bytes, 18);
    assert_eq!(counts.chars, 18);
}

#[test]
fn test_only_whitespace() {
    let counts = count_str("   \n\t\n  ");
    assert_eq!(counts.lines, 2);
    assert_eq!(counts.words, 0);
    assert_eq!(counts.bytes, 8);
    assert_eq!(counts.chars, 8);
}

#[test]
fn test_unicode_chars() {
    // 你好 = 2 characters, 6 bytes (3 bytes each)
    let counts = count_str("你好\n");
    assert_eq!(counts.lines, 1);
    assert_eq!(counts.words, 1);
    assert_eq!(counts.bytes, 7); // 6 + newline
    assert_eq!(counts.chars, 3); // 2 + newline
}

#[test]
fn test_mixed_ascii_unicode() {
    // "hi 你好" = 5 chars (h, i, space, 你, 好), but more bytes
    let counts = count_str("hi 你好\n");
    assert_eq!(counts.lines, 1);
    assert_eq!(counts.words, 2);
    assert_eq!(counts.bytes, 10); // 2 + 1 + 6 + 1
    assert_eq!(counts.chars, 6); // h, i, space, 你, 好, newline
}

#[test]
fn test_emoji() {
    // 😀 = 1 character, 4 bytes
    let counts = count_str("😀\n");
    assert_eq!(counts.lines, 1);
    assert_eq!(counts.words, 1);
    assert_eq!(counts.bytes, 5); // 4 + newline
    assert_eq!(counts.chars, 2); // emoji + newline
}

#[test]
fn test_tabs_count_as_whitespace() {
    let counts = count_str("a\tb\tc\n");
    assert_eq!(counts.words, 3);
}

#[test]
fn test_no_trailing_newline() {
    let counts = count_str("no newline");
    assert_eq!(counts.lines, 0);
    assert_eq!(counts.words, 2);
    assert_eq!(counts.bytes, 10);
}

#[test]
fn whitespace_is_what_std_calls_ascii_whitespace() {
    for b in 0..=255u8 {
        assert_eq!(is_ascii_whitespace(b), b.is_ascii_whitespace());
    }
    // Vertical tab is not white space, so it belongs to a word.
    assert_eq!(count_reader(b"a\x0bb").words, 1);
    assert_eq!(count_reader(b"a\x0cb").words, 2);
    assert_eq!(count_reader(b"a\rb").words, 2);
}

#[test]
fn continuation_bytes_are_not_characters() {
    assert_eq!(count_reader(&[0x7f, 0x80, 0xbf, 0xc0, 0xff]).chars, 3);
    assert_eq!(count_reader(&[0x80, 0x80]).chars, 0);
    assert_eq!(count_reader(&[0x80, 0x80]).words, 1);
}

#[test]
fn counts_are_at_most_the_bytes() {
    let input = b" one\ntwo  three\n\n four \xe4\xbd\xa0 ";
    let counts = count_reader(input);
    assert_eq!(counts, Counts { lines: 3, words: 5, bytes: 27, chars: 25 });
    assert!(counts.lines <= counts.bytes);
    assert!(counts.words <= counts.bytes);
    assert!(counts.chars <= counts.bytes);
}

#[test]
fn zero_and_default_count_nothing() {
    let zero = Counts { lines: 0, words: 0, bytes: 0, chars: 0 };
    assert_eq!(Counts::zero(), zero);
    assert_eq!(Counts::default(), zero);
}

#[test]
fn accumulate_adds_field_by_field() {
    let mut total = Counts::zero();
    let a = count_reader(b"one two\n");
    let b = count_reader(b"three\nfour\n");
    assert!(total.can_accumulate(&a));
    total.accumulate(&a);
    assert!(total.can_accumulate(&b));
    total.accumulate(&b);
    assert_eq!(total, Counts { lines: 3, words: 4, bytes: 19, chars: 19 });
}

#[test]
fn can_accumulate_sees_overflow() {
    let big = Counts { lines: 0, words: 0, bytes: usize::MAX, chars: 0 };
    let one = Counts { lines: 0, words: 0, bytes: 1, chars: 0 };
    let none = Counts::zero();
    assert!(!big.can_accumulate(&one));
    assert!(!one.can_accumulate(&big));
    assert!(big.can_accumulate(&none));
    let lines = Counts { lines: usize::MAX, words: 0, bytes: 0, chars: 0 };
    let words = Counts { lines: 0, words: usize::MAX, bytes: 0, chars: 0 };
    let chars = Counts { lines: 0, words: 0, bytes: 0, chars: usize::MAX };
    let all_one = Counts { lines: 1, words: 1, bytes: 1, chars: 1 };
    assert!(!lines.can_accumulate(&all_one));
    assert!(!words.can_accumulate(&all_one));
    assert!(!chars.can_accumulate(&all_one));
}
