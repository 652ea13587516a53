use xcode_lsp_gen::text::{chars_of, is_whitespace, join, line_bounds, read_text, trim};

fn lines(text: &str) -> Vec<String> {
    let chars = chars_of(text);
    line_bounds(&chars)
        .iter()
        .map(|b| chars[b.0..b.1].iter().collect::<String>())
        .collect()
}

#[test]
fn white_space_is_that_of_unicode() {
    for n in 0..=0x10ffffu32 {
        if let Some(c) = char::from_u32(n) {
            assert_eq!(is_whitespace(c), c.is_whitespace(), "U+{:04X}", n);
        }
    }
}

#[test]
fn trimming_drops_white_space_at_both_ends() {
    assert_eq!(trim("  a b\t\r\n"), "a b");
    assert_eq!(trim("a"), "a");
    assert_eq!(trim(""), "");
    assert_eq!(trim(" \n\u{3000}"), "");
    assert_eq!(trim("\u{a0}é ü\u{2028}"), "é ü");
}

#[test]
fn trimming_twice_changes_nothing() {
    for text in ["  x ", "", " ", "a\n b\n"] {
        let once = trim(text);
        assert_eq!(trim(&once), once);
    }
}

#[test]
fn lines_end_at_line_feeds() {
    assert_eq!(lines("a\nb"), ["a", "b"]);
    assert_eq!(lines("a\nb\n"), ["a", "b"]);
    assert_eq!(lines("a\r\nb\r"), ["a", "b\r"]);
    assert_eq!(lines("\n\n"), ["", ""]);
    assert_eq!(lines("a\r\r\n"), ["a\r"]);
    assert!(lines("").is_empty());
}

#[test]
fn lines_are_those_of_the_standard_library() {
    let pieces = ["", "a", "\n", "\r", "\r\n", "é"];
    for a in pieces {
        for b in pieces {
            for c in pieces {
                for d in pieces {
                    let text = format!("{}{}{}{}", a, b, c, d);
                    let expected: Vec<&str> = text.lines().collect();
                    assert_eq!(lines(&text), expected, "{:?}", text);
                    assert_eq!(trim(&text), text.trim(), "{:?}", text);
                }
            }
        }
    }
}

#[test]
fn lines_of_a_joined_text_come_one_after_the_other() {
    let first = "a\nb\n";
    let rest = "c\n\nd";
    let mut expected = lines(first);
    expected.extend(lines(rest));
    assert_eq!(lines(&join(first, rest)), expected);
}

#[test]
fn encoded_text_reads_back() {
    for text in ["", "a", "é\0ü", "日本", "🦀 x", "\u{fffd}"] {
        let bytes = text.as_bytes().to_vec();
        assert_eq!(read_text(&bytes), text);
        assert_eq!(read_text(&bytes).as_bytes(), bytes);
    }
    assert_eq!(read_text(&vec![b'a', 0xff, b'b']), "a\u{fffd}b");
}
