use playlist_covers::text::{byte_len, count_matches, chars_of, find_from, push_decimal, push_hexadecimal, push_padded, push_trimmed, same_text, white_space};

#[test]
fn numerals() {
    for n in [0u64, 1, 9, 10, 99, 100, 12345, u64::MAX] {
        let mut out = String::from("n=");
        push_decimal(&mut out, n);
        assert_eq!(out, format!("n={n}"));
        let mut out = String::new();
        push_padded(&mut out, n, 2);
        assert_eq!(out, format!("{n:02}"));
        let mut out = String::new();
        push_padded(&mut out, n, 22);
        assert_eq!(out, format!("{n:0>22}"));
    }
    for n in [0u32, 9, 10, 15, 16, 0x30d, 0x10eeee, u32::MAX] {
        let mut out = String::new();
        push_hexadecimal(&mut out, n);
        assert_eq!(out, format!("{n:X}"));
    }
}

#[test]
fn white_space_is_that_of_unicode() {
    for code in 0..=0x10ffffu32 {
        if let Some(c) = char::from_u32(code) {
            assert_eq!(white_space(c), c.is_whitespace(), "U+{code:X}");
        }
    }
}

#[test]
fn lines_are_trimmed() {
    for line in ["", "a", " a b \t\u{3000}", "   ", "a\u{a0}", "\u{200b} "] {
        let mut out = String::from(">");
        push_trimmed(&mut out, line);
        assert_eq!(out, format!(">{}", line.trim_end()));
    }
}

#[test]
fn searching() {
    let s = chars_of("abcabcab");
    assert_eq!(find_from(&s, 0, &chars_of("ca")), Some(2));
    assert_eq!(find_from(&s, 3, &chars_of("ca")), Some(2));
    assert_eq!(find_from(&s, 6, &chars_of("ca")), None);
    assert_eq!(count_matches(&s, &chars_of("ab")), 3);
    assert_eq!(count_matches(&s, &chars_of("x")), 0);
    assert!(same_text("aé", "aé") && !same_text("a", "aé") && !same_text("ab", "ac"));
    assert_eq!(byte_len("aé\u{10EEEE}"), 7);
}
