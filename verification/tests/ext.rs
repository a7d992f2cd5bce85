use libpascalc::ext::{CharExt, StrExt};

#[test]
fn whitespace_characters() {
    let white = [
        '\u{0009}', '\u{000A}', '\u{000B}', '\u{000C}', '\u{000D}', '\u{0020}', '\u{0085}',
        '\u{200E}', '\u{200F}', '\u{2028}', '\u{2029}',
    ];
    for c in white {
        assert!(CharExt::is_whitespace(c));
    }
    let other = [
        '\0', '\u{0008}', '\u{000E}', '\u{001F}', '!', 'a', '_', '\u{0084}', '\u{0086}',
        '\u{00A0}', '\u{200D}', '\u{2010}', '\u{2027}', '\u{202A}', '\u{3000}', '\u{FEFF}',
    ];
    for c in other {
        assert!(!CharExt::is_whitespace(c));
    }
}

#[test]
fn identifier_starts() {
    for c in ['a', 'm', 'z', 'A', 'M', 'Z', '_'] {
        assert!(c.is_id_start());
        assert!(c.is_id_continue());
    }
    for c in ['0', '9', '`', '{', '@', '[', ' ', '\0', '$', '\u{e9}', '\u{3b1}'] {
        assert!(!c.is_id_start());
    }
}

#[test]
fn identifier_continuations() {
    for c in ['0', '5', '9'] {
        assert!(c.is_id_continue());
        assert!(!c.is_id_start());
    }
    for c in ['/', ':', '`', '{', '@', '[', ' ', '\0', '-', '\u{e9}', '\u{ff11}'] {
        assert!(!c.is_id_continue());
    }
}

#[test]
fn texts_that_read_as_identifiers() {
    for text in ["a", "_", "x1", "Hello_World", "_9", "__", "begin"] {
        assert!(text.is_lexically_ident());
    }
    for text in ["", "1", "1a", "a b", "a-b", " a", "a ", "&a", "caf\u{e9}", "\u{e9}a", "a.b"] {
        assert!(!text.is_lexically_ident());
    }
}
