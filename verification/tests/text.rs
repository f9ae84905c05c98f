use dh_p2p::bytes::{push_bytes, push_hex_dump, push_u32, push_zeros, read_u32};
use dh_p2p::fields::{side_of, FieldMap, Side};
use dh_p2p::text::{
    find_pattern, int_error_str, is_whitespace, join_from, parse_number, parse_u16, push_dec,
    push_hex, push_hex_fixed, same, split_at_char, split_lines, split_words, to_chars, trimmed,
    IntError,
};
use dh_p2p::time::Duration;

fn chars(s: &str) -> Vec<char> {
    to_chars(s)
}

fn decimal(n: u64) -> String {
    let mut s = String::new();
    push_dec(&mut s, n);
    s
}

#[test]
fn white_space_is_what_unicode_says() {
    for n in 0..=0x10ffffu32 {
        if let Some(c) = char::from_u32(n) {
            assert_eq!(is_whitespace(c), c.is_whitespace(), "{:x}", n);
        }
    }
}

#[test]
fn numerals_are_written_without_leading_zeros() {
    for n in [0, 7, 10, 99, 12345, u64::MAX] {
        assert_eq!(decimal(n), n.to_string());
    }
    let mut s = String::new();
    push_hex(&mut s, 0xdead_beef);
    assert_eq!(s, "deadbeef");
    let mut s = String::new();
    push_hex_fixed(&mut s, 0xab, 4);
    assert_eq!(s, "00ab");
}

#[test]
fn numerals_are_read_back() {
    for n in [0u32, 9, 10, 200, 65535] {
        assert_eq!(parse_number(&chars(&decimal(n as u64)), 65535), Ok(n));
    }
    assert_eq!(parse_u16(&chars("+80")), Ok(80));
    assert_eq!(parse_u16(&chars("00080")), Ok(80));
}

#[test]
fn refused_numerals_say_why() {
    for (text, expected) in [
        ("", IntError::Empty),
        ("+", IntError::InvalidDigit),
        ("-1", IntError::InvalidDigit),
        ("12a", IntError::InvalidDigit),
        ("65536", IntError::TooLarge),
    ] {
        assert_eq!(parse_u16(&chars(text)), Err(expected));
        assert_eq!(
            int_error_str(expected),
            text.parse::<u16>().unwrap_err().to_string()
        );
    }
}

#[test]
fn texts_are_trimmed_and_cut() {
    let padded = chars(" \t a b \r\n");
    assert_eq!(trimmed(&padded), &chars("a b")[..]);
    assert_eq!(split_at_char(&chars("a::b"), ':'), vec!["a", "", "b"]);
    assert_eq!(split_lines(&chars("a\r\nb\n\nc\r")), vec!["a", "b", "", "c"]);
    assert_eq!(split_words(&chars("  a  bc\td ")), vec!["a", "bc", "d"]);
    assert_eq!(find_pattern(&chars("xaab"), &chars("ab")), Some(2));
    assert_eq!(find_pattern(&chars("xaab"), &chars("ba")), None);
    assert!(same("abc", "abc"));
    assert!(!same("abc", "abd"));
}

#[test]
fn words_survive_joining() {
    let words = vec!["HTTP/1.1".to_string(), "404".to_string(), "Not".to_string()];
    let joined = join_from(&words, 0, " ");
    assert_eq!(joined, "HTTP/1.1 404 Not");
    assert_eq!(split_words(&chars(&joined)), words);
    assert_eq!(join_from(&words, 2, " "), "Not");
    assert_eq!(join_from(&words, 3, " "), "");
}

#[test]
fn big_endian_numbers_are_read_back() {
    let mut v = Vec::new();
    push_u32(&mut v, 0x0102_0304);
    push_zeros(&mut v, 2);
    push_bytes(&mut v, &[9]);
    assert_eq!(v, vec![1, 2, 3, 4, 0, 0, 9]);
    assert_eq!(read_u32(&v, 0), 0x0102_0304);
    let mut s = String::new();
    push_hex_dump(&mut s, &[0x0a, 0xff], ", ");
    assert_eq!(s, "0a, ff");
}

#[test]
fn texts_are_ordered_as_strings_are() {
    let texts = ["", "A", "Dev", "Device", "agentAddr", "z", "\u{e9}"];
    for a in texts {
        for b in texts {
            let expected = if a < b {
                Side::Before
            } else if a == b {
                Side::Same
            } else {
                Side::Behind
            };
            assert_eq!(side_of(a, b), expected, "{} {}", a, b);
        }
    }
}

#[test]
fn fields_are_found_and_stay_in_order() {
    let mut fields = FieldMap::new();
    fields.insert("b".to_string(), "1".to_string());
    fields.insert("a".to_string(), "2".to_string());
    fields.insert("c".to_string(), "3".to_string());
    fields.insert("b".to_string(), "4".to_string());
    assert_eq!(fields.len(), 3);
    assert_eq!(fields.joined_names(","), "a,b,c");
    assert_eq!(fields.get("b").map(String::as_str), Some("4"));
    assert_eq!(fields.get("a").map(String::as_str), Some("2"));
    assert_eq!(fields.get("d"), None);
    assert_eq!(fields.entry(2).1, "3");
}

#[test]
fn spans_of_time_do_not_overflow() {
    let second = Duration::from_secs(1);
    assert_eq!(second.as_millis(), 1000);
    assert_eq!(second.as_nanos(), 1_000_000_000);
    assert_eq!(Duration::from_millis(2500).as_secs(), 2);
    let longest = Duration::from_nanos_saturating(u128::MAX);
    assert_eq!(longest.as_secs(), u64::MAX);
    assert!(longest.checked_mul(2).is_none());
    assert!(longest.checked_add(second).is_none());
    assert_eq!(second.checked_mul(3), Some(Duration::from_secs(3)));
    assert_eq!(second.checked_add(second), Some(Duration::from_secs(2)));
    assert_eq!(second.saturating_sub(longest), Duration::from_secs(0));
    assert_eq!(longest.min(second), second);
    assert!(longest.at_least(second) && !second.at_least(longest));
}
