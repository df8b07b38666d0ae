use clipvault::text::{char_vec, contains_chars, string_of, trim_str, str_eq};

#[test]
fn trims_unicode_whitespace() {
    assert_eq!(trim_str("\u{a0} a b \t\n"), "a b");
    assert_eq!(trim_str(""), "");
    assert_eq!(trim_str(" \n "), "");
}

#[test]
fn chars_round_trip() {
    let cs = char_vec("héllo");
    assert_eq!(cs.len(), 5);
    assert_eq!(string_of(&cs), "héllo");
    assert!(contains_chars(&cs, &char_vec("éll")));
    assert!(!contains_chars(&cs, &char_vec("hex")));
    assert!(contains_chars(&cs, &Vec::new()));
    assert!(str_eq("abc", "abc"));
    assert!(!str_eq("abc", "abd"));
}

#[test]
fn trimming_twice_is_trimming_once() {
    for s in ["  a  ", "\u{3000}x y\u{2009}", "", "   ", "z"] {
        let once = trim_str(s);
        assert_eq!(trim_str(&once), once);
    }
}

#[test]
fn whitespace_is_unicode_white_space() {
    assert_eq!(trim_str("\u{85}\u{2028}x\u{3000}\u{202f}"), "x");
    assert_eq!(trim_str("\u{200b}x\u{200b}"), "\u{200b}x\u{200b}");
    for c in ['\t', '\n', '\u{b}', '\u{c}', '\r', ' ', '\u{85}', '\u{a0}', '\u{1680}', '\u{2000}', '\u{200a}', '\u{2028}', '\u{2029}', '\u{202f}', '\u{205f}', '\u{3000}'] {
        assert!(c.is_whitespace());
        assert_eq!(trim_str(&c.to_string()), "");
    }
    for code in 0u32..0x11000 {
        if let Some(c) = char::from_u32(code) {
            let s = format!("a{c}");
            assert_eq!(trim_str(&s).len() < s.len(), c.is_whitespace(), "{code:x}");
        }
    }
}
