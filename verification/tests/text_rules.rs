//! Texts against the standard library: white space, trimming, lines, numbers.
use dsh_client::text::{
    chars_of, decimal_text, find_chars, join_last, lines_of, parse_u32, same_text, shown_code_text,
    signed_decimal_text, starts_with_chars, trim_text, white_space,
};

/// All texts over `alphabet` of at most `len` characters.
fn texts_over(alphabet: &[char], len: usize) -> Vec<String> {
    let mut all = vec![String::new()];
    let mut last = vec![String::new()];
    for _ in 0..len {
        let mut next = Vec::new();
        for text in &last {
            for c in alphabet {
                let mut longer = text.clone();
                longer.push(*c);
                next.push(longer);
            }
        }
        all.extend(next.iter().cloned());
        last = next;
    }
    all
}

#[test]
fn white_space_of_every_character() {
    for code in 0..=0x10FFFFu32 {
        if let Some(c) = char::from_u32(code) {
            assert_eq!(white_space(c), c.is_whitespace(), "{code:x}");
        }
    }
}

#[test]
fn trim_like_std() {
    for text in texts_over(&['a', ' ', '\n', '\u{3000}', '\u{200B}'], 5) {
        assert_eq!(trim_text(&text), text.trim());
    }
    assert_eq!(trim_text("  1.2.3\r\n"), "1.2.3");
    assert_eq!(trim_text("\t \n"), "");
}

#[test]
fn lines_like_std() {
    for text in texts_over(&['a', '\n', '\r'], 7) {
        let want: Vec<String> = text.lines().map(|line| line.to_string()).collect();
        assert_eq!(lines_of(&text), want, "{text:?}");
    }
}

#[test]
fn find_like_std() {
    for text in texts_over(&['a', 'b'], 6) {
        for pat in texts_over(&['a', 'b'], 3) {
            let (t, p) = (chars_of(&text), chars_of(&pat));
            assert_eq!(find_chars(&t, &p), text.find(&pat));
            assert_eq!(starts_with_chars(&t, &p), text.starts_with(&pat));
        }
    }
}

#[test]
fn characters_not_bytes() {
    assert_eq!(chars_of("启动a"), vec!['启', '动', 'a']);
    assert_eq!(find_chars(&chars_of("启动a"), &chars_of("a")), Some(2));
}

#[test]
fn last_parts_joined() {
    let parts: Vec<String> = vec!["a".to_string(), "b".to_string(), "c".to_string()];
    assert_eq!(join_last(&parts, 2, " | "), "b | c");
    assert_eq!(join_last(&parts, 8, " | "), "a | b | c");
    assert_eq!(join_last(&parts, 1, " | "), "c");
    assert_eq!(join_last(&parts, 0, " | "), "");
    assert_eq!(join_last(&Vec::new(), 8, " | "), "");
}

#[test]
fn decimal_like_std() {
    let mut n: u64 = 1;
    for _ in 0..64 {
        for m in [n - 1, n, n.saturating_add(1)] {
            assert_eq!(decimal_text(m), m.to_string());
        }
        n = n.saturating_mul(3);
    }
    assert_eq!(decimal_text(u64::MAX), "18446744073709551615");
}

#[test]
fn signed_decimal_like_std() {
    for n in [0, 1, -1, 9, 10, -10, 137, i32::MAX, i32::MIN] {
        assert_eq!(signed_decimal_text(n), n.to_string());
    }
}

#[test]
fn exit_code_shown_like_debug() {
    for code in [None, Some(0), Some(1), Some(-9), Some(i32::MIN)] {
        assert_eq!(shown_code_text(code), format!("{code:?}"));
    }
}

#[test]
fn number_like_std() {
    for text in texts_over(&['+', '-', '0', '1', '9', ' '], 5) {
        assert_eq!(parse_u32(&text), text.parse::<u32>().ok(), "{text:?}");
    }
    for text in [
        "4294967295",
        "4294967296",
        "00000000000000000000004294967295",
        "99999999999999999999999999",
        "+4294967295",
        "٣",
        "1a",
    ] {
        assert_eq!(parse_u32(text), text.parse::<u32>().ok(), "{text:?}");
    }
}

#[test]
fn number_line_reads_back() {
    for n in [0u32, 1, 9, 10, 4242, u32::MAX] {
        let mut line = decimal_text(n as u64);
        line.push('\n');
        assert_eq!(parse_u32(&trim_text(&line)), Some(n));
    }
}

#[test]
fn equal_texts() {
    assert!(same_text("x86_64", "x86_64"));
    assert!(!same_text("x86_64", "x86"));
    assert!(same_text("", ""));
}
