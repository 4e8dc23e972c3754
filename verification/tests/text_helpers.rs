use wstunnel::text::{
    chars_of, contains, decode_lossy, parse_number, push_number, same_text, trim, white_space,
};

#[test]
fn white_space_is_that_of_std() {
    for n in 0..=0x10ffffu32 {
        if let Some(c) = char::from_u32(n) {
            assert_eq!(white_space(c), c.is_whitespace(), "{n:x}");
        }
    }
}

#[test]
fn trim_is_that_of_std() {
    for s in ["", " ", "a", " a ", "\t\u{3000}x y\u{a0}\n", "\u{200b}x", "é \u{2028}"] {
        assert_eq!(trim(s), s.trim());
    }
    assert_eq!(trim(trim("  a b ")), "a b");
}

#[test]
fn numbers_read_as_std_reads_them() {
    let texts = [
        "", "0", "7", "007", "+7", "++7", "-7", "-0", "+", "-", " 7", "7 ", "1_0", "65535", "65536",
        "+65535", "18446744073709551615", "18446744073709551616", "000000000000000000000000000042",
        "9999999999999999999999", "٣", "1e3", "0x10",
    ];
    for t in texts {
        assert_eq!(parse_number(t, u64::MAX), t.parse::<u64>().ok(), "{t:?}");
        assert_eq!(
            parse_number(t, u16::MAX as u64).map(|n| n as u16),
            t.parse::<u16>().ok(),
            "{t:?}"
        );
    }
    assert_eq!(parse_number("11", 10), None);
    assert_eq!(parse_number("10", 10), Some(10));
    assert_eq!(parse_number("0", 0), Some(0));
    assert_eq!(parse_number("1", 0), None);
}

#[test]
fn numbers_are_written_in_decimal_and_read_back() {
    for n in [0u64, 1, 9, 10, 99, 100, 4096, 65535, u64::MAX] {
        let mut out = String::from("n=");
        push_number(&mut out, n);
        assert_eq!(out, format!("n={n}"));
        assert_eq!(parse_number(&out[2..], u64::MAX), Some(n));
    }
}

#[test]
fn substrings_are_found() {
    assert!(contains("abc", ""));
    assert!(contains("", ""));
    assert!(!contains("", "a"));
    assert!(contains("xaab", "aab"));
    assert!(contains("aaab", "aab"));
    assert!(!contains("aaa", "ab"));
    assert!(contains("añb", "ñb"));
}

#[test]
fn texts_are_compared_and_split_into_characters() {
    assert!(same_text("Running", "Running"));
    assert!(!same_text("Running", "running"));
    assert!(!same_text("Running", "Runnin"));
    assert_eq!(chars_of("aé€"), vec!['a', 'é', '€']);
}

#[test]
fn bytes_that_are_no_utf8_get_replacement_characters() {
    assert_eq!(decode_lossy("grün".as_bytes()), "grün");
    assert_eq!(decode_lossy(&[b'a', 0xff, b'b']), "a\u{fffd}b");
    assert_eq!(decode_lossy(&[]), "");
}
