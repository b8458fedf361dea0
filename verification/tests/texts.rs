use thther::text::{
    decimal_text, hex_text, join_path, last_line, pad, same_text, text_after_last, trim, white,
};

#[test]
fn numbers_are_written_out() {
    for n in [0, 7, 10, 65535, 1_000_000, u64::MAX] {
        assert_eq!(decimal_text(n), n.to_string());
    }
    for n in [0u32, 1, 0xabc, u32::MAX] {
        assert_eq!(hex_text(n as u64, 8), format!("{n:08x}"));
    }
}

#[test]
fn columns_are_padded_by_characters() {
    for s in ["", "abc", "0123456789", "longer than the column", "\u{e9}t\u{e9}"] {
        assert_eq!(pad(s, 10), format!("{s:<10}"));
    }
}

#[test]
fn paths_and_comparisons() {
    assert_eq!(join_path("/a", "b"), "/a/b");
    assert_eq!(join_path("/a/", "b"), "/a/b");
    assert_eq!(join_path("", "b"), "b");
    assert_eq!(text_after_last("a@b@c", '@'), "c");
    assert_eq!(text_after_last("a@", '@'), "");
    assert!(same_text("\u{e9}", "\u{e9}"));
    assert!(!same_text("a", "ab"));
}

#[test]
fn white_space_is_what_unicode_says() {
    for n in 0..=0x10ffffu32 {
        if let Some(c) = char::from_u32(n) {
            assert_eq!(white(c), c.is_whitespace(), "{n:x}");
        }
    }
}

#[test]
fn lines_and_trimming_agree_with_std() {
    for s in [
        "",
        "\n",
        " \r\n\t\n",
        "one",
        "one\n",
        "one\r\n",
        "one\r",
        "motd\r\n\r\n{\"ok\":1}  \r\n \n\n",
        "a\nb\n  c \u{a0}\n\u{3000}\n",
        "\r\r\n x\r\r\n",
        "\nx",
    ] {
        let expected = s.lines().rev().find(|l| !l.trim().is_empty()).map(|l| l.to_string());
        assert_eq!(last_line(s), expected, "{s:?}");
        assert_eq!(trim(s), s.trim(), "{s:?}");
    }
}
