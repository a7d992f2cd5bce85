use libpascalc::cursor::{utf8_width, Cursor, EOF_CHAR};
use libpascalc::lexeme::{Base, LexemeType, LiteralType};

#[test]
fn new_cursor_has_read_nothing() {
    let cursor = Cursor::new("ab");
    assert_eq!(cursor.len_consumed(), 0);
    assert_eq!(cursor.prev(), EOF_CHAR);
    assert_eq!(cursor.first(), 'a');
    assert_eq!(cursor.second(), 'b');
    assert!(!cursor.is_eof());
}

#[test]
fn cursor_over_nothing_is_at_the_end() {
    let mut cursor = Cursor::new("");
    assert!(cursor.is_eof());
    assert_eq!(cursor.first(), EOF_CHAR);
    assert_eq!(cursor.second(), EOF_CHAR);
    assert_eq!(cursor.bump(), None);
    assert_eq!(cursor.bump(), None);
    assert_eq!(cursor.len_consumed(), 0);
    assert_eq!(cursor.prev(), EOF_CHAR);
}

#[test]
fn bump_reads_one_character() {
    let mut cursor = Cursor::new("a\u{e9}\u{4e2d}\u{1F600}z");
    assert_eq!(cursor.bump(), Some('a'));
    assert_eq!(cursor.len_consumed(), 1);
    assert_eq!(cursor.prev(), 'a');
    assert_eq!(cursor.bump(), Some('\u{e9}'));
    assert_eq!(cursor.len_consumed(), 3);
    assert_eq!(cursor.first(), '\u{4e2d}');
    assert_eq!(cursor.second(), '\u{1F600}');
    assert_eq!(cursor.bump(), Some('\u{4e2d}'));
    assert_eq!(cursor.len_consumed(), 6);
    assert_eq!(cursor.bump(), Some('\u{1F600}'));
    assert_eq!(cursor.len_consumed(), 10);
    assert_eq!(cursor.prev(), '\u{1F600}');
    assert_eq!(cursor.first(), 'z');
    assert_eq!(cursor.second(), EOF_CHAR);
    assert!(!cursor.is_eof());
    assert_eq!(cursor.bump(), Some('z'));
    assert!(cursor.is_eof());
    assert_eq!(cursor.len_consumed(), 11);
    assert_eq!(cursor.bump(), None);
    assert_eq!(cursor.prev(), 'z');
    assert_eq!(cursor.len_consumed(), 11);
}

#[test]
fn lookahead_does_not_read() {
    let cursor = Cursor::new("xy");
    assert_eq!(cursor.first(), 'x');
    assert_eq!(cursor.first(), 'x');
    assert_eq!(cursor.second(), 'y');
    assert_eq!(cursor.len_consumed(), 0);
}

#[test]
fn nul_in_the_text_is_not_the_end() {
    let mut cursor = Cursor::new("\0");
    assert_eq!(cursor.first(), '\0');
    assert!(!cursor.is_eof());
    assert_eq!(cursor.bump(), Some('\0'));
    assert!(cursor.is_eof());
}

#[test]
fn widths_of_characters() {
    assert_eq!(utf8_width('\0'), 1);
    assert_eq!(utf8_width('\u{7f}'), 1);
    assert_eq!(utf8_width('\u{80}'), 2);
    assert_eq!(utf8_width('\u{7ff}'), 2);
    assert_eq!(utf8_width('\u{800}'), 3);
    assert_eq!(utf8_width('\u{ffff}'), 3);
    assert_eq!(utf8_width('\u{10000}'), 4);
    assert_eq!(utf8_width('\u{10ffff}'), 4);
    for c in ['a', '\u{e9}', '\u{d7ff}', '\u{e000}', '\u{1F600}'] {
        assert_eq!(utf8_width(c), c.len_utf8());
    }
}

#[test]
fn eat_while_stops_at_the_first_refusal() {
    let mut cursor = Cursor::new("aaab");
    cursor.eat_while(|c| c == 'a');
    assert_eq!(cursor.len_consumed(), 3);
    assert_eq!(cursor.first(), 'b');
    assert_eq!(cursor.prev(), 'a');
    cursor.eat_while(|c| c == 'a');
    assert_eq!(cursor.len_consumed(), 3);
}

#[test]
fn eat_while_stops_at_the_end() {
    let mut cursor = Cursor::new("abc");
    cursor.eat_while(|_| true);
    assert!(cursor.is_eof());
    assert_eq!(cursor.len_consumed(), 3);

    let mut cursor = Cursor::new("a\0");
    cursor.eat_while(|c| c != 'a');
    assert_eq!(cursor.len_consumed(), 0);
    cursor.bump();
    cursor.eat_while(|c| c == '\0');
    assert!(cursor.is_eof());
    assert_eq!(cursor.len_consumed(), 2);
}

#[test]
fn eat_while_counts_every_call_once() {
    let mut calls = 0;
    let mut cursor = Cursor::new("xxy");
    cursor.eat_while(|c| {
        calls += 1;
        c == 'x'
    });
    assert_eq!(calls, 3);
}

#[test]
fn decimal_digits_with_separators() {
    let mut cursor = Cursor::new("1_2_3x");
    assert!(cursor.eat_decimal_digits());
    assert_eq!(cursor.len_consumed(), 5);
    assert_eq!(cursor.first(), 'x');

    let mut cursor = Cursor::new("___x");
    assert!(!cursor.eat_decimal_digits());
    assert_eq!(cursor.len_consumed(), 3);

    let mut cursor = Cursor::new("x12");
    assert!(!cursor.eat_decimal_digits());
    assert_eq!(cursor.len_consumed(), 0);

    let mut cursor = Cursor::new("12ab");
    assert!(cursor.eat_decimal_digits());
    assert_eq!(cursor.len_consumed(), 2);

    let mut cursor = Cursor::new("");
    assert!(!cursor.eat_decimal_digits());
    assert_eq!(cursor.len_consumed(), 0);
}

#[test]
fn hexadecimal_digits_with_separators() {
    let mut cursor = Cursor::new("09afAF_g");
    assert!(cursor.eat_hexadecimal_digits());
    assert_eq!(cursor.len_consumed(), 7);
    assert_eq!(cursor.first(), 'g');

    let mut cursor = Cursor::new("_G");
    assert!(!cursor.eat_hexadecimal_digits());
    assert_eq!(cursor.len_consumed(), 1);

    let mut cursor = Cursor::new("_a");
    assert!(cursor.eat_hexadecimal_digits());
    assert_eq!(cursor.len_consumed(), 2);
}

#[test]
fn exponent_takes_one_sign() {
    let mut cursor = Cursor::new("e+10;");
    cursor.bump();
    assert!(cursor.eat_float_exponent());
    assert_eq!(cursor.len_consumed(), 4);

    let mut cursor = Cursor::new("E-_x");
    cursor.bump();
    assert!(!cursor.eat_float_exponent());
    assert_eq!(cursor.len_consumed(), 3);

    let mut cursor = Cursor::new("e7");
    cursor.bump();
    assert!(cursor.eat_float_exponent());
    assert_eq!(cursor.len_consumed(), 2);

    let mut cursor = Cursor::new("e+-1");
    cursor.bump();
    assert!(!cursor.eat_float_exponent());
    assert_eq!(cursor.len_consumed(), 2);

    let mut cursor = Cursor::new("e");
    cursor.bump();
    assert!(!cursor.eat_float_exponent());
    assert_eq!(cursor.len_consumed(), 1);
}

#[test]
fn eat_identifier_wants_a_start() {
    let mut cursor = Cursor::new("ab1_ c");
    cursor.eat_identifier();
    assert_eq!(cursor.len_consumed(), 4);

    let mut cursor = Cursor::new("1ab");
    cursor.eat_identifier();
    assert_eq!(cursor.len_consumed(), 0);

    let mut cursor = Cursor::new("");
    cursor.eat_identifier();
    assert_eq!(cursor.len_consumed(), 0);
}

#[test]
fn number_after_a_prefix_without_digits_is_empty() {
    let mut cursor = Cursor::new("$ ");
    cursor.bump();
    assert_eq!(cursor.number(), LiteralType::Integer { base: Base::Base16, empty: true });
    assert_eq!(cursor.len_consumed(), 1);

    let mut cursor = Cursor::new("&__;");
    cursor.bump();
    assert_eq!(cursor.number(), LiteralType::Integer { base: Base::Base8, empty: true });
    assert_eq!(cursor.len_consumed(), 3);

    let mut cursor = Cursor::new("%");
    cursor.bump();
    assert_eq!(cursor.number(), LiteralType::Integer { base: Base::Base2, empty: true });
    assert_eq!(cursor.len_consumed(), 1);
}

#[test]
fn number_takes_its_base_from_the_prefix() {
    let mut cursor = Cursor::new("$fF");
    cursor.bump();
    assert_eq!(cursor.number(), LiteralType::Integer { base: Base::Base16, empty: false });
    assert_eq!(cursor.len_consumed(), 3);

    let mut cursor = Cursor::new("&17f");
    cursor.bump();
    assert_eq!(cursor.number(), LiteralType::Integer { base: Base::Base8, empty: false });
    assert_eq!(cursor.len_consumed(), 3);

    let mut cursor = Cursor::new("%01");
    cursor.bump();
    assert_eq!(cursor.number(), LiteralType::Integer { base: Base::Base2, empty: false });
    assert_eq!(cursor.len_consumed(), 3);

    let mut cursor = Cursor::new("7");
    cursor.bump();
    assert_eq!(cursor.number(), LiteralType::Integer { base: Base::Base10, empty: false });
    assert_eq!(cursor.len_consumed(), 1);

    let mut cursor = Cursor::new("7_f");
    cursor.bump();
    assert_eq!(cursor.number(), LiteralType::Integer { base: Base::Base10, empty: false });
    assert_eq!(cursor.len_consumed(), 2);
}

#[test]
fn block_comment_by_its_opener() {
    let mut cursor = Cursor::new("(* a *) b");
    cursor.bump();
    assert_eq!(cursor.block_comment(), LexemeType::BlockComment);
    assert_eq!(cursor.len_consumed(), 7);

    let mut cursor = Cursor::new("{ a } b");
    cursor.bump();
    assert_eq!(cursor.block_comment(), LexemeType::BlockComment);
    assert_eq!(cursor.len_consumed(), 5);
    assert_eq!(cursor.prev(), '}');

    let mut cursor = Cursor::new("{*) }");
    cursor.bump();
    cursor.block_comment();
    assert_eq!(cursor.len_consumed(), 5);
}

#[test]
fn character_string_tells_how_it_ended() {
    let mut cursor = Cursor::new("'ab' c");
    cursor.bump();
    assert!(cursor.character_string());
    assert_eq!(cursor.len_consumed(), 4);

    let mut cursor = Cursor::new("'ab\n'");
    cursor.bump();
    assert!(!cursor.character_string());
    assert_eq!(cursor.len_consumed(), 3);
    assert_eq!(cursor.first(), '\n');

    let mut cursor = Cursor::new("'ab");
    cursor.bump();
    assert!(!cursor.character_string());
    assert!(cursor.is_eof());
}

#[test]
fn line_comment_leaves_the_line_break() {
    let mut cursor = Cursor::new("// x\ny");
    cursor.bump();
    assert_eq!(cursor.line_comment(), LexemeType::LineComment);
    assert_eq!(cursor.len_consumed(), 4);
    assert_eq!(cursor.first(), '\n');
}

#[test]
fn identifier_and_whitespace_read_their_runs() {
    let mut cursor = Cursor::new("ab_9-");
    cursor.bump();
    assert_eq!(cursor.identifier(), LexemeType::Identifier);
    assert_eq!(cursor.len_consumed(), 4);

    let mut cursor = Cursor::new(" \t\nx");
    cursor.bump();
    assert_eq!(cursor.whitespace(), LexemeType::Whitespace);
    assert_eq!(cursor.len_consumed(), 3);

    let mut cursor = Cursor::new("&ab c");
    cursor.bump();
    assert_eq!(cursor.raw_identifier(), LexemeType::RawIdentifier);
    assert_eq!(cursor.len_consumed(), 3);
}

#[test]
fn next_lexeme_counts_from_where_the_cursor_was_made() {
    let mut cursor = Cursor::new("ab cd");
    let first = cursor.next_lexeme();
    assert_eq!((first.kind, first.len), (LexemeType::Identifier, 2));
    let second = cursor.next_lexeme();
    assert_eq!((second.kind, second.len), (LexemeType::Whitespace, 3));
    let third = cursor.next_lexeme();
    assert_eq!((third.kind, third.len), (LexemeType::Identifier, 5));
    assert!(cursor.is_eof());
}
