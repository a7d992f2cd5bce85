//! The shapes of the tokens, as functions of the text that lies before a
//! cursor. Lengths are counted in characters.

use vstd::prelude::*;
use crate::cursor::peek;
use crate::ext::{id_continue, id_start, whitespace};
use crate::lexeme::{Base, Lexeme, LexemeType, LiteralType};
use crate::utf8::byte_len;

verus! {

/// The number of characters at the head of `s` that satisfy `p`.
pub open spec fn run_len(s: Seq<char>, p: spec_fn(char) -> bool) -> nat
    decreases s.len(),
{
    if s.len() > 0 && p(s[0]) {
        1 + run_len(s.drop_first(), p)
    } else {
        0
    }
}

/// `n` characters at the head of `s` satisfy `p`, and the next one, if
/// there is one, does not.
pub open spec fn is_run(s: Seq<char>, p: spec_fn(char) -> bool, n: int) -> bool {
    &&& 0 <= n <= s.len()
    &&& forall|i: int| 0 <= i < n ==> p(#[trigger] s[i])
    &&& n < s.len() ==> !p(s[n])
}

/// `run_len` is the one length that makes a run.
pub proof fn lemma_run_len(s: Seq<char>, p: spec_fn(char) -> bool)
    ensures
        is_run(s, p, run_len(s, p) as int),
        forall|n: int| is_run(s, p, n) ==> n == run_len(s, p),
    decreases s.len(),
{
    if s.len() > 0 && p(s[0]) {
        let t = s.drop_first();
        lemma_run_len(t, p);
        let m = run_len(t, p) as int;
        assert forall|i: int| 0 <= i < m + 1 implies p(#[trigger] s[i]) by {
            if i > 0 {
                assert(s[i] == t[i - 1]);
            }
        }
    }
}

/// One of `0` to `9`.
pub open spec fn decimal_digit(c: char) -> bool {
    '0' <= c <= '9'
}

/// A decimal digit, or one of the first six letters in either case.
pub open spec fn hex_digit(c: char) -> bool {
    ||| '0' <= c <= '9'
    ||| 'a' <= c <= 'f'
    ||| 'A' <= c <= 'F'
}

/// One of `0` to `7`.
pub open spec fn octal_digit(c: char) -> bool {
    '0' <= c <= '7'
}

/// `0` or `1`.
pub open spec fn binary_digit(c: char) -> bool {
    c == '0' || c == '1'
}

/// Whether `c` is a digit of `base`.
pub open spec fn digit_of(c: char, base: Base) -> bool {
    match base {
        Base::Base2 => binary_digit(c),
        Base::Base8 => octal_digit(c),
        Base::Base10 => decimal_digit(c),
        Base::Base16 => hex_digit(c),
    }
}

/// The characters between the opening `//` and the end of the line.
pub open spec fn in_line() -> spec_fn(char) -> bool {
    |c: char| c != '\n'
}

/// The characters of a run of whitespace.
pub open spec fn in_whitespace() -> spec_fn(char) -> bool {
    |c: char| whitespace(c)
}

/// The characters of an identifier behind its first.
pub open spec fn in_identifier() -> spec_fn(char) -> bool {
    |c: char| id_continue(c)
}

/// A decimal digit or the separator `_`.
pub open spec fn in_decimal() -> spec_fn(char) -> bool {
    |c: char| c == '_' || decimal_digit(c)
}

/// A hexadecimal digit or the separator `_`.
pub open spec fn in_hexadecimal() -> spec_fn(char) -> bool {
    |c: char| c == '_' || hex_digit(c)
}

/// The characters inside a `{ }` comment.
pub open spec fn in_braces() -> spec_fn(char) -> bool {
    |c: char| c != '}'
}

/// The characters inside a quoted string: a string ends with its line.
pub open spec fn in_string() -> spec_fn(char) -> bool {
    |c: char| c != '\'' && c != '\n'
}

/// Some character among the first `n` of `s` is a decimal digit.
pub open spec fn has_decimal_digit(s: Seq<char>, n: int) -> bool {
    exists|i: int| 0 <= i < n && i < s.len() && decimal_digit(#[trigger] s[i])
}

/// Some character among the first `n` of `s` is a hexadecimal digit.
pub open spec fn has_hex_digit(s: Seq<char>, n: int) -> bool {
    exists|i: int| 0 <= i < n && i < s.len() && hex_digit(#[trigger] s[i])
}

/// The length of the rest of a line comment, `s` being what follows its
/// first `/`: the second `/` and the line up to its end, the line break left
/// out.
pub open spec fn line_comment_len(s: Seq<char>) -> nat {
    1 + run_len(s.skip(1), in_line())
}

/// The length of an identifier at the head of `s`: none where `s` does not
/// open one.
pub open spec fn identifier_len(s: Seq<char>) -> nat {
    if s.len() > 0 && id_start(s[0]) {
        1 + run_len(s.skip(1), in_identifier())
    } else {
        0
    }
}

/// The length of what an exponent holds at the head of `s`: a sign, if
/// there is one, and then digits and separators.
pub open spec fn exponent_len(s: Seq<char>) -> nat {
    if peek(s, 0) == '-' || peek(s, 0) == '+' {
        1 + run_len(s.skip(1), in_decimal())
    } else {
        run_len(s, in_decimal())
    }
}

/// Whether the exponent at the head of `s` holds a digit.
pub open spec fn exponent_has_digit(s: Seq<char>) -> bool {
    if peek(s, 0) == '-' || peek(s, 0) == '+' {
        has_decimal_digit(s.skip(1), run_len(s.skip(1), in_decimal()) as int)
    } else {
        has_decimal_digit(s, run_len(s, in_decimal()) as int)
    }
}

/// The length of the rest of a `(* *)` comment, `s` being what follows the
/// opening `(*`: up to and with the first `*)`, or all of `s` where there is
/// none.
pub open spec fn paren_comment_body_len(s: Seq<char>) -> nat
    decreases s.len(),
{
    if s.len() == 0 {
        0
    } else if s[0] == '*' && peek(s, 1) == ')' {
        2
    } else {
        1 + paren_comment_body_len(s.drop_first())
    }
}

/// A `*)` stands at index `k` of `s`.
pub open spec fn closes_at(s: Seq<char>, k: int) -> bool {
    0 <= k && k + 1 < s.len() && s[k] == '*' && s[k + 1] == ')'
}

/// A `(* *)` comment ends behind the first `*)` that follows its opening,
/// and with the text where none follows.
pub proof fn lemma_paren_comment_closer(s: Seq<char>)
    ensures
        ({
            let n = paren_comment_body_len(s) as int;
            &&& forall|k: int| 0 <= k < n - 2 ==> !closes_at(s, k)
            &&& closes_at(s, n - 2) || (n == s.len() && forall|k: int| !closes_at(s, k))
        }),
    decreases s.len(),
{
    if s.len() > 0 && !(s[0] == '*' && peek(s, 1) == ')') {
        let tail = s.drop_first();
        lemma_paren_comment_closer(tail);
        assert forall|k: int| closes_at(s, k) implies closes_at(tail, k - 1) by {
            assert(tail[k - 1] == s[k]);
            assert(tail[k] == s[k + 1]);
        }
    }
}

/// The length of the rest of a `{ }` comment, `s` being what follows the
/// opening brace: up to and with the first `}`, or all of `s`.
pub open spec fn brace_comment_body_len(s: Seq<char>) -> nat {
    let body = run_len(s, in_braces());
    if body < s.len() {
        body + 1
    } else {
        body
    }
}

/// The length of the rest of a block comment, `prev` being the character
/// that opened it and `s` what follows that character.
pub open spec fn block_comment_len(s: Seq<char>, prev: char) -> nat {
    if prev == '{' {
        brace_comment_body_len(s)
    } else {
        1 + paren_comment_body_len(s.skip(1))
    }
}

/// Whether the string whose opening quote stands before `s` is closed by a
/// quote, and not cut short by the end of the line or of the text.
pub open spec fn string_terminated(s: Seq<char>) -> bool {
    peek(s, run_len(s, in_string()) as int) == '\''
}

/// The length of the rest of a string, `s` being what follows the opening
/// quote: the closing quote belongs to it, a line break does not.
pub open spec fn string_len(s: Seq<char>) -> nat {
    let body = run_len(s, in_string());
    if string_terminated(s) {
        body + 1
    } else {
        body
    }
}

/// The base that a literal is written in, by the character before its
/// digits.
pub open spec fn base_of(prev: char) -> Base {
    if prev == '$' {
        Base::Base16
    } else if prev == '&' {
        Base::Base8
    } else if prev == '%' {
        Base::Base2
    } else {
        Base::Base10
    }
}

/// The length of the digits of a literal, `prev` being the character
/// before `s`.
pub open spec fn number_len(s: Seq<char>, prev: char) -> nat {
    if prev == '$' {
        run_len(s, in_hexadecimal())
    } else {
        run_len(s, in_decimal())
    }
}

/// Whether a literal has no digit. After a prefix the digits are looked for
/// in `s`; without one, `prev` is the first digit.
pub open spec fn number_empty(s: Seq<char>, prev: char) -> bool {
    if prev == '$' {
        !has_hex_digit(s, number_len(s, prev) as int)
    } else if prev == '&' || prev == '%' {
        !has_decimal_digit(s, number_len(s, prev) as int)
    } else {
        false
    }
}

/// The literal that the digits at the head of `s` make, `prev` being the
/// character before them.
pub open spec fn number_literal(s: Seq<char>, prev: char) -> LiteralType {
    LiteralType::Integer { base: base_of(prev), empty: number_empty(s, prev) }
}

/// The kind of the token that a single character makes, whatever follows.
pub open spec fn punctuation(c: char) -> LexemeType {
    if c == '+' {
        LexemeType::Plus
    } else if c == '-' {
        LexemeType::Minus
    } else if c == '*' {
        LexemeType::Star
    } else if c == '=' {
        LexemeType::Equal
    } else if c == '<' {
        LexemeType::LeftAngle
    } else if c == '>' {
        LexemeType::RightAngle
    } else if c == '[' {
        LexemeType::LeftSquare
    } else if c == ']' {
        LexemeType::RightSquare
    } else if c == '.' {
        LexemeType::Dot
    } else if c == ',' {
        LexemeType::Comma
    } else if c == ')' {
        LexemeType::RightRound
    } else if c == ':' {
        LexemeType::Colon
    } else if c == '^' {
        LexemeType::Caret
    } else if c == '@' {
        LexemeType::At
    } else if c == '#' {
        LexemeType::Pound
    } else if c == ';' {
        LexemeType::Semicolon
    } else {
        LexemeType::Unknown
    }
}

/// The first token of a text that is not empty: its kind, and how many
/// characters it takes. The first character decides, with the second where
/// the first is `/`, `&`, `$`, `%` or `(`.
pub open spec fn first_token(s: Seq<char>) -> (LexemeType, nat)
    recommends
        s.len() > 0,
{
    let c = s[0];
    let next = peek(s, 1);
    let rest = s.skip(1);
    if c == '/' {
        if next == '/' {
            (LexemeType::LineComment, 1 + line_comment_len(rest))
        } else {
            (LexemeType::Slash, 1)
        }
    } else if whitespace(c) {
        (LexemeType::Whitespace, 1 + run_len(rest, in_whitespace()))
    } else if c == '&' {
        if id_start(next) {
            (LexemeType::RawIdentifier, 1 + identifier_len(rest))
        } else if octal_digit(next) {
            (LexemeType::Literal { kind: number_literal(rest, c) }, 1 + number_len(rest, c))
        } else {
            (LexemeType::Unknown, 1)
        }
    } else if c == '$' {
        if hex_digit(next) {
            (LexemeType::Literal { kind: number_literal(rest, c) }, 1 + number_len(rest, c))
        } else {
            (LexemeType::Unknown, 1)
        }
    } else if c == '%' {
        if binary_digit(next) {
            (LexemeType::Literal { kind: number_literal(rest, c) }, 1 + number_len(rest, c))
        } else {
            (LexemeType::Unknown, 1)
        }
    } else if decimal_digit(c) {
        (LexemeType::Literal { kind: number_literal(rest, c) }, 1 + number_len(rest, c))
    } else if id_start(c) {
        (LexemeType::Identifier, 1 + run_len(rest, in_identifier()))
    } else if c == '(' {
        if next == '*' {
            (LexemeType::BlockComment, 1 + block_comment_len(rest, c))
        } else {
            (LexemeType::LeftRound, 1)
        }
    } else if c == '{' {
        (LexemeType::BlockComment, 1 + block_comment_len(rest, c))
    } else if c == '\'' {
        (
            LexemeType::Literal { kind: LiteralType::String { terminated: string_terminated(rest) } },
            1 + string_len(rest),
        )
    } else {
        (punctuation(c), 1)
    }
}

/// A `(* *)` comment ends within the text.
pub proof fn lemma_paren_comment_body_len(s: Seq<char>)
    ensures
        paren_comment_body_len(s) <= s.len(),
    decreases s.len(),
{
    if s.len() > 0 && !(s[0] == '*' && peek(s, 1) == ')') {
        lemma_paren_comment_body_len(s.drop_first());
    }
}

/// The first token of a text takes at least one character, and no more
/// than the text has.
pub proof fn lemma_first_token_bounds(s: Seq<char>)
    requires
        s.len() > 0,
    ensures
        1 <= first_token(s).1 <= s.len(),
{
    let rest = s.skip(1);
    lemma_run_len(rest, in_whitespace());
    lemma_run_len(rest, in_identifier());
    lemma_run_len(rest, in_decimal());
    lemma_run_len(rest, in_hexadecimal());
    lemma_run_len(rest, in_braces());
    lemma_run_len(rest, in_string());
    if rest.len() > 0 {
        lemma_run_len(rest.skip(1), in_line());
        lemma_run_len(rest.skip(1), in_identifier());
        lemma_paren_comment_body_len(rest.skip(1));
    }
}

/// The tokens of a text in their order, each with the characters it
/// covers.
pub open spec fn tokens(s: Seq<char>) -> Seq<(LexemeType, Seq<char>)>
    decreases s.len(),
    via tokens_decreases
{
    if s.len() == 0 {
        Seq::empty()
    } else {
        let (kind, n) = first_token(s);
        seq![(kind, s.take(n as int))] + tokens(s.skip(n as int))
    }
}

#[via_fn]
proof fn tokens_decreases(s: Seq<char>) {
    if s.len() > 0 {
        lemma_first_token_bounds(s);
    }
}

/// What the tokenizer hands out for a token: its kind, and the number of
/// bytes that its characters take.
pub open spec fn lexeme_of(token: (LexemeType, Seq<char>)) -> Lexeme {
    Lexeme { kind: token.0, len: byte_len(token.1) as usize }
}

/// The lexemes of a text in their order.
pub open spec fn lexemes_of(s: Seq<char>) -> Seq<Lexeme> {
    tokens(s).map_values(|token: (LexemeType, Seq<char>)| lexeme_of(token))
}

/// The lexemes of a text are its first, and then those of what lies behind
/// it.
pub proof fn lemma_lexemes_unfold(s: Seq<char>)
    requires
        s.len() > 0,
    ensures
        ({
            let (kind, n) = first_token(s);
            lexemes_of(s) == seq![lexeme_of((kind, s.take(n as int)))] + lexemes_of(
                s.skip(n as int),
            )
        }),
{
}

/// The number of bytes that a run of lexemes covers.
pub open spec fn total_len(lexemes: Seq<Lexeme>) -> nat
    decreases lexemes.len(),
{
    if lexemes.len() == 0 {
        0
    } else {
        total_len(lexemes.drop_last()) + lexemes.last().len as nat
    }
}

} // verus!
