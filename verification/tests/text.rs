use http_rs::text::{find, is_whitespace, same_text, split_once, trim};

#[test]
fn whitespace_is_the_unicode_white_space_set() {
    for c in ['\t', '\n', '\u{b}', '\u{c}', '\r', ' ', '\u{85}', '\u{a0}', '\u{1680}', '\u{2000}',
        '\u{2005}', '\u{200a}', '\u{2028}', '\u{2029}', '\u{202f}', '\u{205f}', '\u{3000}']
    {
        assert!(is_whitespace(c), "{:?}", c);
    }
    for c in ['a', '0', ':', '\u{8}', '\u{e}', '\u{1f}', '!', '\u{84}', '\u{86}', '\u{9f}',
        '\u{a1}', '\u{167f}', '\u{1681}', '\u{1fff}', '\u{200b}', '\u{2027}', '\u{202a}',
        '\u{202e}', '\u{2030}', '\u{205e}', '\u{2060}', '\u{2fff}', '\u{3001}', '\u{feff}']
    {
        assert!(!is_whitespace(c), "{:?}", c);
    }
}

#[test]
fn whitespace_agrees_with_std_on_every_char() {
    let mut n: u32 = 0;
    while n <= 0x10ffff {
        if let Some(c) = char::from_u32(n) {
            assert_eq!(is_whitespace(c), c.is_whitespace(), "U+{:04X}", n);
        }
        n += 1;
    }
}

#[test]
fn same_text_compares_characters() {
    assert!(same_text("", ""));
    assert!(same_text("Host", "Host"));
    assert!(!same_text("Host", "host"));
    assert!(!same_text("Host", "Hos"));
    assert!(!same_text("Hos", "Host"));
    assert!(!same_text("", "x"));
    assert!(same_text("h\u{f6}st", "h\u{f6}st"));
    assert!(!same_text("h\u{f6}st", "host"));
}

#[test]
fn find_gives_the_first_position_in_characters() {
    assert_eq!(find("a:b:c", ':'), Some(1));
    assert_eq!(find(":", ':'), Some(0));
    assert_eq!(find("abc", ':'), None);
    assert_eq!(find("", ':'), None);
    assert_eq!(find("\u{e9}\u{e9}:x", ':'), Some(2));
    assert_eq!(find("ab:", ':'), Some(2));
}

#[test]
fn split_once_cuts_at_the_first_separator() {
    assert_eq!(split_once("Host: localhost:7878", ':'), Some(("Host", " localhost:7878")));
    assert_eq!(split_once("a:", ':'), Some(("a", "")));
    assert_eq!(split_once(":b", ':'), Some(("", "b")));
    assert_eq!(split_once(":", ':'), Some(("", "")));
    assert_eq!(split_once("no colon", ':'), None);
    assert_eq!(split_once("", ':'), None);
    assert_eq!(split_once("na\u{ef}ve: \u{fc}ber", ':'), Some(("na\u{ef}ve", " \u{fc}ber")));
}

#[test]
fn split_once_agrees_with_std() {
    for s in ["", ":", "a:b", "a:b:c", "::", "abc", " a : b ", "\u{3000}:\u{3000}"] {
        assert_eq!(split_once(s, ':'), s.split_once(':'), "{:?}", s);
    }
}

#[test]
fn trim_removes_whitespace_at_both_ends() {
    assert_eq!(trim("  example.com  "), "example.com");
    assert_eq!(trim(" rust unit test"), "rust unit test");
    assert_eq!(trim("a"), "a");
    assert_eq!(trim(" a"), "a");
    assert_eq!(trim("a "), "a");
    assert_eq!(trim(""), "");
    assert_eq!(trim(" \t\r\n"), "");
    assert_eq!(trim("\u{a0}x y\u{2003}"), "x y");
    assert_eq!(trim("\t\u{e9}t\u{e9} \n"), "\u{e9}t\u{e9}");
}

#[test]
fn trim_agrees_with_std() {
    for s in ["", " ", "  ", "a", " a", "a ", " a ", "a b", "  a  b  ", "\r\n", "\u{85}a\u{85}",
        "\u{200b}a", "x\u{feff}"]
    {
        assert_eq!(trim(s), s.trim(), "{:?}", s);
    }
}

#[test]
fn trim_is_idempotent() {
    for s in ["  a b  ", "", "   ", "x"] {
        assert_eq!(trim(trim(s)), trim(s));
    }
}
