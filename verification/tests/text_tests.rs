use p2p_chat::text::{chars_of, is_whitespace, string_of, trim, trim_end};

#[test]
fn trim_end_drops_trailing_white_space() {
    assert_eq!(trim_end("hello \n\t"), "hello");
    assert_eq!(trim_end("  hello"), "  hello");
    assert_eq!(trim_end(""), "");
    assert_eq!(trim_end(" \n "), "");
}

#[test]
fn trim_drops_white_space_at_both_ends() {
    assert_eq!(trim("  hi there \r\n"), "hi there");
    assert_eq!(trim("\u{3000}x\u{2003}"), "x");
    assert_eq!(trim("\u{85}\u{a0}"), "");
}

#[test]
fn white_space_is_the_unicode_property() {
    for c in ['\t', '\n', '\u{b}', '\u{c}', '\r', ' ', '\u{85}', '\u{a0}', '\u{1680}', '\u{2000}', '\u{200a}', '\u{2028}', '\u{2029}', '\u{202f}', '\u{205f}', '\u{3000}'] {
        assert!(is_whitespace(c), "{:?}", c);
        assert!(c.is_whitespace());
    }
    for c in ['a', '/', '\u{200b}', '\u{180e}', '\u{feff}', '0'] {
        assert!(!is_whitespace(c), "{:?}", c);
        assert_eq!(c.is_whitespace(), is_whitespace(c));
    }
}

#[test]
fn chars_round_trip_through_string_of() {
    let v = chars_of("héllo wörld");
    assert_eq!(v.len(), 11);
    assert_eq!(string_of(&v), "héllo wörld");
}

#[test]
fn white_space_agrees_with_std_on_every_char() {
    for u in 0..=0x10ffffu32 {
        if let Some(c) = char::from_u32(u) {
            assert_eq!(is_whitespace(c), c.is_whitespace(), "{:#x}", u);
        }
    }
}

#[test]
fn trim_agrees_with_std() {
    for s in ["", " ", "a", " a ", "\u{2028}a b\u{3000}\n", "\t\tx\u{85}", "x\u{200b} "] {
        assert_eq!(trim(s), s.trim());
        assert_eq!(trim_end(s), s.trim_end());
    }
}
