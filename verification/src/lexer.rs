//! The tokenizer: a cursor is driven through the text by a switch on the
//! character it has just read.

use vstd::prelude::*;
use crate::cursor::{peek, Cursor, EOF_CHAR};
use crate::ext::{id_start, whitespace, CharExt};
use crate::grammar::{
    block_comment_len, brace_comment_body_len, digit_of, exponent_has_digit, exponent_len,
    first_token, has_decimal_digit, has_hex_digit, identifier_len, in_braces, in_decimal,
    in_hexadecimal, in_identifier, in_line, in_string, in_whitespace, is_run,
    lemma_first_token_bounds, lemma_run_len, lexeme_of, lexemes_of, line_comment_len, number_len,
    number_literal, paren_comment_body_len, run_len, string_len, string_terminated, total_len,
};
use crate::lexeme::{Base, Lexeme, LexemeType, LiteralType};
use crate::utf8::{byte_len, lemma_byte_len_split, lemma_prefix_is_boundary, lemma_suffix_decodes};

verus! {

impl<'a> Cursor<'a> {
    /// Reads on while `predicate` accepts the next character, and stops at
    /// the end of the text.
    pub fn eat_while(&mut self, mut predicate: impl FnMut(char) -> bool)
        requires
            forall|c: char| call_requires(predicate, (c,)),
        ensures
            ({
                let text = old(self).remaining();
                let eaten = text.len() - final(self).remaining().len();
                &&& final(self).advanced(old(self), eaten)
                &&& forall|i: int|
                    0 <= i < eaten ==> call_ensures(predicate, (#[trigger] text[i],), true)
                &&& eaten < text.len() ==> call_ensures(predicate, (text[eaten],), false)
            }),
    {
        let ghost given = predicate;
        let ghost start = *self;
        let ghost text = self.remaining();
        let ghost mut eaten: int = 0;
        proof {
            self.lemma_advanced_none();
        }
        while predicate(self.first()) && !self.is_eof()
            invariant
                forall|c: char| call_requires(predicate, (c,)),
                predicate == given,
                start.remaining() == text,
                self.advanced(&start, eaten),
                eaten == text.len() - self.remaining().len(),
                forall|i: int|
                    0 <= i < eaten ==> call_ensures(predicate, (#[trigger] text[i],), true),
            decreases self.remaining().len(),
        {
            let ghost middle = *self;
            self.bump();
            proof {
                self.lemma_advanced_twice(&middle, &start, eaten, 1);
                eaten = eaten + 1;
            }
        }
    }

    /// Reads the decimal digits and separators at the head of the text, and
    /// tells whether a digit was among them.
    pub fn eat_decimal_digits(&mut self) -> (has_digits: bool)
        ensures
            ({
                let text = old(self).remaining();
                let eaten = run_len(text, in_decimal()) as int;
                &&& final(self).advanced(old(self), eaten)
                &&& has_digits == has_decimal_digit(text, eaten)
            }),
    {
        let mut has_digits = false;
        let ghost start = *self;
        let ghost text = self.remaining();
        let ghost mut eaten: int = 0;
        proof {
            self.lemma_advanced_none();
        }
        loop
            invariant
                start.remaining() == text,
                self.advanced(&start, eaten),
                forall|i: int| 0 <= i < eaten ==> in_decimal()(#[trigger] text[i]),
                has_digits == has_decimal_digit(text, eaten),
            ensures
                self.advanced(&start, eaten),
                is_run(text, in_decimal(), eaten),
                has_digits == has_decimal_digit(text, eaten),
            decreases text.len() - eaten,
        {
            let c = self.first();
            let ghost middle = *self;
            match c {
                '_' => {
                    self.bump();
                },
                '0'..='9' => {
                    has_digits = true;
                    self.bump();
                },
                _ => break ,
            }
            proof {
                self.lemma_advanced_twice(&middle, &start, eaten, 1);
                eaten = eaten + 1;
            }
        }
        proof {
            lemma_run_len(text, in_decimal());
        }
        has_digits
    }

    /// Reads the hexadecimal digits and separators at the head of the text,
    /// and tells whether a digit was among them.
    pub fn eat_hexadecimal_digits(&mut self) -> (has_digits: bool)
        ensures
            ({
                let text = old(self).remaining();
                let eaten = run_len(text, in_hexadecimal()) as int;
                &&& final(self).advanced(old(self), eaten)
                &&& has_digits == has_hex_digit(text, eaten)
            }),
    {
        let mut has_digits = false;
        let ghost start = *self;
        let ghost text = self.remaining();
        let ghost mut eaten: int = 0;
        proof {
            self.lemma_advanced_none();
        }
        loop
            invariant
                start.remaining() == text,
                self.advanced(&start, eaten),
                forall|i: int| 0 <= i < eaten ==> in_hexadecimal()(#[trigger] text[i]),
                has_digits == has_hex_digit(text, eaten),
            ensures
                self.advanced(&start, eaten),
                is_run(text, in_hexadecimal(), eaten),
                has_digits == has_hex_digit(text, eaten),
            decreases text.len() - eaten,
        {
            let c = self.first();
            let ghost middle = *self;
            match c {
                '_' => {
                    self.bump();
                },
                '0'..='9' | 'a'..='f' | 'A'..='F' => {
                    has_digits = true;
                    self.bump();
                },
                _ => break ,
            }
            proof {
                self.lemma_advanced_twice(&middle, &start, eaten, 1);
                eaten = eaten + 1;
            }
        }
        proof {
            lemma_run_len(text, in_hexadecimal());
        }
        has_digits
    }

    /// Reads what an exponent holds, the cursor standing behind its `e`: a
    /// sign, if there is one, and then digits and separators. Tells whether
    /// a digit was among them.
    pub fn eat_float_exponent(&mut self) -> (has_digits: bool)
        requires
            old(self).previous() == 'e' || old(self).previous() == 'E',
        ensures
            final(self).advanced(old(self), exponent_len(old(self).remaining()) as int),
            has_digits == exponent_has_digit(old(self).remaining()),
    {
        let ghost start = *self;
        let c = self.first();
        if c == '-' || c == '+' {
            self.bump();
            let ghost middle = *self;
            let has_digits = self.eat_decimal_digits();
            proof {
                let text = start.remaining();
                self.lemma_advanced_twice(
                    &middle,
                    &start,
                    1,
                    run_len(text.skip(1), in_decimal()) as int,
                );
            }
            has_digits
        } else {
            self.eat_decimal_digits()
        }
    }

    /// Reads an identifier, if one opens at the head of the text.
    pub fn eat_identifier(&mut self)
        ensures
            final(self).advanced(old(self), identifier_len(old(self).remaining()) as int),
    {
        let ghost start = *self;
        if !self.first().is_id_start() {
            proof {
                self.lemma_advanced_none();
            }
            return ;
        }
        self.bump();
        let ghost middle = *self;
        self.eat_while(char::is_id_continue);
        proof {
            let text = middle.remaining();
            let eaten = text.len() - self.remaining().len();
            lemma_run_len(text, in_identifier());
            self.lemma_advanced_twice(&middle, &start, 1, eaten);
        }
    }

    /// Reads a block comment to its end, the cursor standing behind the `(`
    /// or the `{` that opens it. A comment that is not closed takes the rest
    /// of the text.
    pub fn block_comment(&mut self) -> (kind: LexemeType)
        requires
            old(self).previous() == '{' || (old(self).previous() == '(' && peek(
                old(self).remaining(),
                0,
            ) == '*'),
        ensures
            kind == LexemeType::BlockComment,
            final(self).advanced(
                old(self),
                block_comment_len(old(self).remaining(), old(self).previous()) as int,
            ),
    {
        let ghost start = *self;
        if self.prev() == '{' {
            let ghost text = self.remaining();
            let ghost mut eaten: int = 0;
            proof {
                self.lemma_advanced_none();
            }
            loop
                invariant_except_break
                    start.remaining() == text,
                    self.advanced(&start, eaten),
                    forall|i: int| 0 <= i < eaten ==> in_braces()(#[trigger] text[i]),
                ensures
                    self.advanced(&start, brace_comment_body_len(text) as int),
                decreases text.len() - eaten,
            {
                let ghost middle = *self;
                match self.bump() {
                    Some(c) => {
                        proof {
                            self.lemma_advanced_twice(&middle, &start, eaten, 1);
                            lemma_run_len(text, in_braces());
                        }
                        if c == '}' {
                            break ;
                        }
                        proof {
                            eaten = eaten + 1;
                        }
                    },
                    None => {
                        proof {
                            lemma_run_len(text, in_braces());
                        }
                        break ;
                    },
                }
            }
        } else {
            self.bump();
            let ghost opened = *self;
            let ghost text = self.remaining();
            let ghost mut eaten: int = 0;
            proof {
                self.lemma_advanced_none();
            }
            loop
                invariant_except_break
                    opened.remaining() == text,
                    self.advanced(&opened, eaten),
                    paren_comment_body_len(text) == eaten + paren_comment_body_len(
                        text.skip(eaten),
                    ),
                ensures
                    self.advanced(&opened, paren_comment_body_len(text) as int),
                decreases text.len() - eaten,
            {
                let ghost middle = *self;
                match self.bump() {
                    Some(c) => {
                        proof {
                            self.lemma_advanced_twice(&middle, &opened, eaten, 1);
                        }
                        if c == '*' && self.first() == ')' {
                            let ghost closing = *self;
                            self.bump();
                            proof {
                                self.lemma_advanced_twice(&closing, &opened, eaten + 1, 1);
                            }
                            break ;
                        }
                        proof {
                            eaten = eaten + 1;
                        }
                    },
                    None => {
                        break ;
                    },
                }
            }
            proof {
                self.lemma_advanced_twice(
                    &opened,
                    &start,
                    1,
                    paren_comment_body_len(text) as int,
                );
            }
        }
        LexemeType::BlockComment
    }

    /// Reads a string to its end, the cursor standing behind the opening
    /// quote, and tells whether a quote closes it. A line break ends the
    /// string and is left unread.
    pub fn character_string(&mut self) -> (terminated: bool)
        requires
            old(self).previous() == '\'',
        ensures
            terminated == string_terminated(old(self).remaining()),
            final(self).advanced(old(self), string_len(old(self).remaining()) as int),
    {
        let ghost start = *self;
        let ghost text = self.remaining();
        let ghost mut eaten: int = 0;
        proof {
            self.lemma_advanced_none();
        }
        loop
            invariant
                start == *old(self),
                start.remaining() == text,
                self.advanced(&start, eaten),
                forall|i: int| 0 <= i < eaten ==> in_string()(#[trigger] text[i]),
            ensures
                self.advanced(&start, eaten),
                is_run(text, in_string(), eaten),
                peek(text, eaten) != '\'',
            decreases text.len() - eaten,
        {
            let ghost middle = *self;
            let c = self.first();
            if c == '\'' {
                self.bump();
                proof {
                    lemma_run_len(text, in_string());
                    self.lemma_advanced_twice(&middle, &start, eaten, 1);
                }
                return true;
            }
            if c == '\n' || (c == EOF_CHAR && self.is_eof()) {
                break ;
            }
            self.bump();
            proof {
                self.lemma_advanced_twice(&middle, &start, eaten, 1);
                eaten = eaten + 1;
            }
        }
        proof {
            lemma_run_len(text, in_string());
        }
        false
    }

    /// Reads a line comment to the end of its line, the cursor standing
    /// between its two slashes.
    pub fn line_comment(&mut self) -> (kind: LexemeType)
        requires
            old(self).previous() == '/',
            peek(old(self).remaining(), 0) == '/',
        ensures
            kind == LexemeType::LineComment,
            final(self).advanced(old(self), line_comment_len(old(self).remaining()) as int),
    {
        let ghost start = *self;
        self.bump();
        let ghost middle = *self;
        let within_line = |character: char| -> (inside: bool)
            ensures
                inside == (character != '\n'),
            { character != '\n' };
        self.eat_while(within_line);
        proof {
            let text = middle.remaining();
            let eaten = text.len() - self.remaining().len();
            lemma_run_len(text, in_line());
            self.lemma_advanced_twice(&middle, &start, 1, eaten);
        }
        LexemeType::LineComment
    }

    /// Reads the rest of an identifier, the cursor standing behind its first
    /// character.
    pub fn identifier(&mut self) -> (kind: LexemeType)
        requires
            id_start(old(self).previous()),
        ensures
            kind == LexemeType::Identifier,
            final(self).advanced(
                old(self),
                run_len(old(self).remaining(), in_identifier()) as int,
            ),
    {
        let ghost text = self.remaining();
        self.eat_while(char::is_id_continue);
        proof {
            lemma_run_len(text, in_identifier());
        }
        LexemeType::Identifier
    }

    /// Reads the digits of an integer literal. The character read last
    /// tells the base: `$`, `&` or `%`, or else the first decimal digit.
    pub fn number(&mut self) -> (literal: LiteralType)
        ensures
            literal == number_literal(old(self).remaining(), old(self).previous()),
            final(self).advanced(
                old(self),
                number_len(old(self).remaining(), old(self).previous()) as int,
            ),
    {
        let prev = self.prev();
        let base;
        let has_digits;
        if prev == '$' {
            base = Base::Base16;
            has_digits = self.eat_hexadecimal_digits();
        } else if prev == '&' {
            base = Base::Base8;
            has_digits = self.eat_decimal_digits();
        } else if prev == '%' {
            base = Base::Base2;
            has_digits = self.eat_decimal_digits();
        } else {
            base = Base::Base10;
            self.eat_decimal_digits();
            has_digits = true;
        }
        LiteralType::Integer { base, empty: !has_digits }
    }

    /// Reads the name of a raw identifier, the cursor standing behind its
    /// `&`.
    pub fn raw_identifier(&mut self) -> (kind: LexemeType)
        requires
            old(self).previous() == '&',
            id_start(peek(old(self).remaining(), 0)),
        ensures
            kind == LexemeType::RawIdentifier,
            final(self).advanced(old(self), identifier_len(old(self).remaining()) as int),
    {
        self.eat_identifier();
        LexemeType::RawIdentifier
    }

    /// Reads the rest of a run of whitespace, the cursor standing behind its
    /// first character.
    pub fn whitespace(&mut self) -> (kind: LexemeType)
        requires
            whitespace(old(self).previous()),
        ensures
            kind == LexemeType::Whitespace,
            final(self).advanced(
                old(self),
                run_len(old(self).remaining(), in_whitespace()) as int,
            ),
    {
        let ghost text = self.remaining();
        self.eat_while(CharExt::is_whitespace);
        proof {
            lemma_run_len(text, in_whitespace());
        }
        LexemeType::Whitespace
    }

    /// Reads one token and tells its kind, and how many bytes the cursor has
    /// read since it was made.
    pub fn next_lexeme(&mut self) -> (lexeme: Lexeme)
        requires
            old(self).remaining().len() > 0,
        ensures
            lexeme.kind == first_token(old(self).remaining()).0,
            final(self).advanced(old(self), first_token(old(self).remaining()).1 as int),
            lexeme.len == final(self).consumed(),
    {
        let ghost start = *self;
        let ghost text = self.remaining();
        let character = self.bump().unwrap();
        let ghost opened = *self;
        proof {
            self.lemma_advanced_none();
        }
        let kind = match character {
            '/' => {
                match self.first() {
                    '/' => self.line_comment(),
                    _ => LexemeType::Slash,
                }
            },
            c if CharExt::is_whitespace(c) => self.whitespace(),
            '&' => {
                match self.first() {
                    c if c.is_id_start() => self.raw_identifier(),
                    c if is_digit(c, Base::Base8) => {
                        let kind = self.number();
                        LexemeType::Literal { kind }
                    },
                    _ => LexemeType::Unknown,
                }
            },
            '$' => {
                match self.first() {
                    c if is_digit(c, Base::Base16) => {
                        let kind = self.number();
                        LexemeType::Literal { kind }
                    },
                    _ => LexemeType::Unknown,
                }
            },
            '%' => {
                match self.first() {
                    c if is_digit(c, Base::Base2) => {
                        let kind = self.number();
                        LexemeType::Literal { kind }
                    },
                    _ => LexemeType::Unknown,
                }
            },
            c if is_digit(c, Base::Base10) => {
                let kind = self.number();
                LexemeType::Literal { kind }
            },
            c if c.is_id_start() => self.identifier(),
            '+' => LexemeType::Plus,
            '-' => LexemeType::Minus,
            '*' => LexemeType::Star,
            '=' => LexemeType::Equal,
            '<' => LexemeType::LeftAngle,
            '>' => LexemeType::RightAngle,
            '[' => LexemeType::LeftSquare,
            ']' => LexemeType::RightSquare,
            '.' => LexemeType::Dot,
            ',' => LexemeType::Comma,
            '(' => {
                if self.first() == '*' {
                    self.block_comment()
                } else {
                    LexemeType::LeftRound
                }
            },
            '{' => self.block_comment(),
            ')' => LexemeType::RightRound,
            ':' => LexemeType::Colon,
            '^' => LexemeType::Caret,
            '@' => LexemeType::At,
            '#' => LexemeType::Pound,
            ';' => LexemeType::Semicolon,
            '\'' => {
                let terminated = self.character_string();
                LexemeType::Literal { kind: LiteralType::String { terminated } }
            },
            _ => LexemeType::Unknown,
        };
        proof {
            let eaten = first_token(text).1 - 1;
            self.lemma_advanced_twice(&opened, &start, 1, eaten);
        }
        Lexeme::new(kind, self.len_consumed())
    }
}

/// Whether `c` is a digit of `base`.
pub fn is_digit(c: char, base: Base) -> (digit: bool)
    ensures
        digit == digit_of(c, base),
{
    match base {
        Base::Base2 => c == '0' || c == '1',
        Base::Base8 => '0' <= c && c <= '7',
        Base::Base10 => '0' <= c && c <= '9',
        Base::Base16 => ('0' <= c && c <= '9') || ('a' <= c && c <= 'f') || ('A' <= c && c
            <= 'F'),
    }
}

/// The first token of `input`, which is not empty: its kind, and its length
/// in bytes.
pub fn first_lexeme(input: &str) -> (lexeme: Lexeme)
    requires
        input@.len() > 0,
    ensures
        lexeme.kind == first_token(input@).0,
        lexeme.len == byte_len(input@.take(first_token(input@).1 as int)),
{
    Cursor::new(input).next_lexeme()
}

/// The first lexeme of `input` and what lies behind it, or nothing where
/// `input` is empty.
pub fn split_lexeme(input: &str) -> (split: Option<(Lexeme, &str)>)
    ensures
        input@.len() == 0 <==> split.is_none(),
        split matches Some((lexeme, rest)) ==> {
            let (kind, n) = first_token(input@);
            &&& lexeme == lexeme_of((kind, input@.take(n as int)))
            &&& lexeme.len == byte_len(input@.take(n as int))
            &&& rest@ == input@.skip(n as int)
        },
{
    if input.is_empty() {
        return None;
    }
    let lexeme = first_lexeme(input);
    let ghost n = first_token(input@).1 as int;
    proof {
        lemma_first_token_bounds(input@);
        lemma_prefix_is_boundary(input@, n);
    }
    let (_, rest) = input.split_at(lexeme.len);
    proof {
        lemma_suffix_decodes(input@, n, rest@);
    }
    Some((lexeme, rest))
}

/// All the lexemes of `input` in their order. Their lengths add up to the
/// length of `input`.
pub fn lexical_analyze(input: &str) -> (lexemes: Vec<Lexeme>)
    ensures
        lexemes@ == lexemes_of(input@),
        total_len(lexemes@) == byte_len(input@),
{
    let mut lexemes: Vec<Lexeme> = Vec::new();
    let mut input = input;
    let ghost text = input@;
    let ghost mut done: int = 0;
    loop
        invariant
            0 <= done <= text.len(),
            input@ == text.skip(done),
            lexemes@ + lexemes_of(input@) == lexemes_of(text),
            total_len(lexemes@) == byte_len(text.take(done)),
        ensures
            lexemes@ == lexemes_of(text),
            total_len(lexemes@) == byte_len(text),
        decreases input@.len(),
    {
        match split_lexeme(input) {
            Some((lexeme, rest)) => {
                proof {
                    let n = first_token(input@).1 as int;
                    lemma_first_token_bounds(input@);
                    assert(text.take(done + n).take(done) =~= text.take(done));
                    assert(text.take(done + n).skip(done) =~= input@.take(n));
                    lemma_byte_len_split(text.take(done + n), done);
                    assert(lexemes@.push(lexeme).drop_last() =~= lexemes@);
                    done = done + n;
                }
                lexemes.push(lexeme);
                input = rest;
            },
            None => {
                proof {
                    assert(text.take(done) =~= text);
                }
                break ;
            },
        }
    }
    lexemes
}

} // verus!
