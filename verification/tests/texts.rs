use postal::text::{
    characters, concat2, concat4, concat6, decimal_of, find, is_white_space, join_from, lines, same,
    split, text_between, trim,
};

#[test]
fn white_space_is_that_of_unicode() {
    for code in 0..=0x10ffff_u32 {
        if let Some(c) = char::from_u32(code) {
            assert_eq!(is_white_space(c), c.is_whitespace(), "{code:x}");
        }
    }
}

#[test]
fn trimming_drops_white_space_at_both_ends() {
    for s in ["", " ", "a", " a", "a ", "\t a b \r\n", "\u{3000}\u{e4}\u{a0}", "\u{200b}x"] {
        assert_eq!(trim(s), s.trim());
    }
    assert_eq!(trim("\n  text \t"), "text");
}

#[test]
fn characters_and_parts_of_them() {
    let chars = characters("h\u{e9}llo");
    assert_eq!(chars, vec!['h', '\u{e9}', 'l', 'l', 'o']);
    assert_eq!(text_between(&chars, 1, 3), "\u{e9}l");
    assert_eq!(text_between(&chars, 2, 2), "");
    assert_eq!(find(&chars, 'l'), 2);
    assert_eq!(find(&chars, 'x'), 5);
}

#[test]
fn splitting_and_joining_undo_each_other() {
    for s in ["", ",", "a", "a,b", ",a,,b,", "a:b"] {
        let parts = split(s, ',');
        assert_eq!(parts, s.split(',').collect::<Vec<&str>>());
        assert_eq!(join_from(&parts, 0, ','), s);
    }
    let parts = split("a:b:c", ':');
    assert_eq!(join_from(&parts, 1, ':'), "b:c");
    assert_eq!(join_from(&parts, 3, ':'), "");
}

#[test]
fn lines_end_at_line_feeds() {
    for s in [
        "", "\n", "a", "a\n", "a\nb", "a\r\nb\r\n", "a\r", "a\r\r\n", "\r\n", "\n\na", "a\n\n", "a\rb\nc",
    ] {
        assert_eq!(lines(s), s.lines().collect::<Vec<&str>>(), "{s:?}");
    }
}

#[test]
fn numbers_in_words() {
    for n in [0, 7, 10, 42, 404, -1, -10, i32::MAX, i32::MIN] {
        assert_eq!(decimal_of(n), n.to_string());
    }
}

#[test]
fn texts_one_behind_the_other() {
    assert_eq!(concat2("a", "b"), "ab");
    assert_eq!(concat4("a", "", "b", "c"), "abc");
    assert_eq!(concat6("a", "b", "c", "d", "e", "f"), "abcdef");
    assert!(same("ip", "ip"));
    assert!(!same("ip", "iq"));
    assert!(!same("ip", "ipp"));
}

#[test]
fn trimming_again_changes_nothing() {
    for s in ["", "  ", " a b ", "\u{a0}\ttext\u{2029}"] {
        let once = trim(s);
        assert!(!once.starts_with(is_white_space));
        assert!(!once.ends_with(is_white_space));
        assert_eq!(trim(&once), once);
    }
}

#[test]
fn what_follows_a_line_feed_starts_lines_of_its_own() {
    for more in ["", "c", "\n", "c\r\nd\n", "\r"] {
        let mut expected = lines("a\n\r\nb\n");
        expected.extend(lines(more));
        assert_eq!(lines(&format!("a\n\r\nb\n{more}")), expected);
    }
    assert_eq!(lines("a\nb\n"), lines("a\nb"));
    assert_ne!(lines("a\r\n"), lines("a\r"));
}
