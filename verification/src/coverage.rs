//! What holds of the tokens of every text: they cover it from end to end,
//! their lengths cut it into their own texts, and each of them, read alone,
//! is the token that it was.

use vstd::prelude::*;
use vstd::utf8::encode_utf8;
use crate::cursor::peek;
use crate::grammar::{
    first_token, in_braces, in_decimal, in_hexadecimal, in_identifier, in_line, in_string,
    in_whitespace, is_run, lemma_first_token_bounds, lemma_lexemes_unfold,
    lemma_paren_comment_body_len, lemma_run_len, lexemes_of, paren_comment_body_len, run_len,
    tokens, total_len,
};
use crate::lexeme::{Lexeme, LexemeType, LiteralType};
use crate::utf8::{byte_len, lemma_byte_len_split};

verus! {

/// The texts of the tokens of `s` in their order.
pub open spec fn texts(s: Seq<char>) -> Seq<Seq<char>> {
    tokens(s).map_values(|token: (LexemeType, Seq<char>)| token.1)
}

/// The pieces that `bytes` fall into when the lengths of `lexemes` are cut
/// off one after the other.
pub open spec fn pieces(bytes: Seq<u8>, lexemes: Seq<Lexeme>) -> Seq<Seq<u8>>
    decreases lexemes.len(),
{
    if lexemes.len() == 0 {
        Seq::empty()
    } else {
        let len = lexemes[0].len as int;
        seq![bytes.take(len)] + pieces(bytes.skip(len), lexemes.drop_first())
    }
}

/// A lexeme put before others adds its length to theirs.
pub proof fn lemma_total_len_front(first: Lexeme, others: Seq<Lexeme>)
    ensures
        total_len(seq![first] + others) == first.len + total_len(others),
    decreases others.len(),
{
    let all = seq![first] + others;
    if others.len() == 0 {
        assert(total_len(all.drop_last()) == 0);
    } else {
        lemma_total_len_front(first, others.drop_last());
        assert(all.drop_last() =~= seq![first] + others.drop_last());
    }
}

/// The lengths of the lexemes of a text add up to the length of the text.
pub proof fn lemma_lexemes_cover(s: Seq<char>)
    requires
        byte_len(s) <= usize::MAX,
    ensures
        total_len(lexemes_of(s)) == byte_len(s),
    decreases s.len(),
{
    if s.len() > 0 {
        let (kind, n) = first_token(s);
        lemma_first_token_bounds(s);
        lemma_byte_len_split(s, n as int);
        lemma_lexemes_unfold(s);
        lemma_lexemes_cover(s.skip(n as int));
        lemma_total_len_front(Lexeme { kind, len: byte_len(s.take(n as int)) as usize },
            lexemes_of(s.skip(n as int)));
    }
}

/// The texts of the tokens of a text, put together in their order, are the
/// text.
pub proof fn lemma_texts_rebuild(s: Seq<char>)
    ensures
        texts(s).flatten() == s,
    decreases s.len(),
{
    if s.len() > 0 {
        let (kind, n) = first_token(s);
        lemma_first_token_bounds(s);
        lemma_texts_rebuild(s.skip(n as int));
        assert(texts(s).drop_first() =~= texts(s.skip(n as int)));
    }
}

/// Cut by the lengths of its lexemes, a text falls into the texts of its
/// tokens, byte for byte: no cut goes through a character, and the pieces
/// put together are the text.
pub proof fn lemma_pieces_are_texts(s: Seq<char>)
    requires
        byte_len(s) <= usize::MAX,
    ensures
        pieces(encode_utf8(s), lexemes_of(s)) == texts(s).map_values(
            |text: Seq<char>| encode_utf8(text),
        ),
        pieces(encode_utf8(s), lexemes_of(s)).flatten() == encode_utf8(s),
    decreases s.len(),
{
    let cut = pieces(encode_utf8(s), lexemes_of(s));
    if s.len() > 0 {
        let (kind, n) = first_token(s);
        let head = s.take(n as int);
        let tail = s.skip(n as int);
        lemma_first_token_bounds(s);
        lemma_byte_len_split(s, n as int);
        lemma_pieces_are_texts(tail);
        assert(lexemes_of(s).drop_first() =~= lexemes_of(tail));
        assert(encode_utf8(s).take(byte_len(head) as int) =~= encode_utf8(head));
        assert(encode_utf8(s).skip(byte_len(head) as int) =~= encode_utf8(tail));
        assert(cut.drop_first() =~= pieces(encode_utf8(tail), lexemes_of(tail)));
    }
}

/// A run read alone ends where it ended in its text.
pub proof fn lemma_run_alone(s: Seq<char>, p: spec_fn(char) -> bool)
    ensures
        run_len(s.take(run_len(s, p) as int), p) == run_len(s, p),
{
    let n = run_len(s, p) as int;
    lemma_run_len(s, p);
    lemma_run_len(s.take(n), p);
}

/// A run read with the character that ends it ends where it ended in its
/// text.
pub proof fn lemma_run_closed(s: Seq<char>, p: spec_fn(char) -> bool)
    requires
        run_len(s, p) < s.len(),
    ensures
        run_len(s.take(run_len(s, p) as int + 1), p) == run_len(s, p),
{
    let n = run_len(s, p) as int;
    lemma_run_len(s, p);
    lemma_run_len(s.take(n + 1), p);
    assert(is_run(s.take(n + 1), p, n));
}

/// A `(* *)` comment read alone ends where it ended in its text.
pub proof fn lemma_paren_comment_alone(s: Seq<char>)
    ensures
        paren_comment_body_len(s.take(paren_comment_body_len(s) as int))
            == paren_comment_body_len(s),
    decreases s.len(),
{
    let n = paren_comment_body_len(s) as int;
    let alone = s.take(n);
    if s.len() == 0 {
    } else if s[0] == '*' && peek(s, 1) == ')' {
        assert(peek(alone, 1) == ')');
    } else {
        let tail = s.drop_first();
        lemma_paren_comment_alone(tail);
        lemma_paren_comment_body_len(tail);
        assert(alone.drop_first() =~= tail.take(n - 1));
    }
}

/// The first token of a text, read alone, is the token that it was: of the
/// same kind, and as long as the text that was cut out for it.
pub proof fn lemma_token_alone(s: Seq<char>)
    requires
        s.len() > 0,
    ensures
        first_token(s.take(first_token(s).1 as int)) == first_token(s),
{
    let n = first_token(s).1 as int;
    lemma_first_token_bounds(s);
    let alone = s.take(n);
    let rest = s.skip(1);
    let m = n - 1;
    assert(alone.skip(1) =~= rest.take(m));
    lemma_run_alone(rest, in_whitespace());
    lemma_run_alone(rest, in_identifier());
    lemma_run_alone(rest, in_decimal());
    lemma_run_alone(rest, in_hexadecimal());
    if run_len(rest, in_braces()) < rest.len() {
        lemma_run_closed(rest, in_braces());
    } else {
        lemma_run_alone(rest, in_braces());
    }
    if run_len(rest, in_string()) < rest.len() {
        lemma_run_closed(rest, in_string());
    }
    lemma_run_alone(rest, in_string());
    if m > 0 {
        let inner = rest.skip(1);
        assert(rest.take(m).skip(1) =~= inner.take(m - 1));
        lemma_run_alone(inner, in_line());
        lemma_run_alone(inner, in_identifier());
        lemma_paren_comment_alone(inner);
    }
}

/// Every token of a text, read alone, is the token that it was.
pub proof fn lemma_tokens_stand_alone(s: Seq<char>, i: int)
    requires
        0 <= i < tokens(s).len(),
    ensures
        tokens(s)[i].1.len() > 0,
        first_token(tokens(s)[i].1) == (tokens(s)[i].0, tokens(s)[i].1.len()),
    decreases s.len(),
{
    let n = first_token(s).1 as int;
    lemma_first_token_bounds(s);
    if i == 0 {
        lemma_token_alone(s);
    } else {
        lemma_tokens_stand_alone(s.skip(n), i - 1);
    }
}

/// Where a number is read as a token, a digit stands behind its prefix:
/// the first token of a text is no literal without digits.
pub proof fn lemma_literal_has_digits(s: Seq<char>)
    requires
        s.len() > 0,
    ensures
        first_token(s).0 matches LexemeType::Literal { kind: LiteralType::Integer { empty, .. } }
            ==> !empty,
{
}

} // verus!
