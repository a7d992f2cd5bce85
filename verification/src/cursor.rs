//! A forward-only reader over a text, with two characters of lookahead and
//! a count of the bytes it has passed.

use vstd::prelude::*;
use vstd::std_specs::iter::IteratorSpec;
use vstd::utf8::*;
use std::str::Chars;
use crate::utf8::{
    byte_len, char_width, lemma_byte_len_split, lemma_prefix_is_boundary, lemma_suffix_decodes,
};

verus! {

broadcast use vstd::string::group_string_axioms;

/// What the lookahead reads behind the end of the text.
pub const EOF_CHAR: char = '\0';

/// The character at index `i` of `s`, or [`EOF_CHAR`] where `s` has none.
pub open spec fn peek(s: Seq<char>, i: int) -> char {
    if 0 <= i < s.len() {
        s[i]
    } else {
        EOF_CHAR
    }
}

/// A reader that goes through a text once, from its first character to its
/// last. It remembers how long the text was when it started, so that it can
/// tell how many bytes lie behind it.
pub struct Cursor<'a> {
    initial_len: usize,
    rest: &'a str,
    prev: char,
}

impl<'a> Cursor<'a> {
    #[verifier::type_invariant]
    spec fn bounded(self) -> bool {
        byte_len(self.rest@) <= self.initial_len
    }

    /// The text that is still to be read.
    pub closed spec fn remaining(&self) -> Seq<char> {
        self.rest@
    }

    /// The number of bytes read since the cursor was made.
    pub closed spec fn consumed(&self) -> nat {
        (self.initial_len - byte_len(self.rest@)) as nat
    }

    /// The character read last, or [`EOF_CHAR`] before the first.
    pub closed spec fn previous(&self) -> char {
        self.prev
    }

    /// `self` is `before` after reading `n` more characters.
    pub open spec fn advanced(&self, before: &Self, n: int) -> bool {
        &&& 0 <= n <= before.remaining().len()
        &&& self.remaining() == before.remaining().skip(n)
        &&& self.consumed() == before.consumed() + byte_len(before.remaining().take(n))
        &&& self.previous() == if n == 0 {
            before.previous()
        } else {
            before.remaining()[n - 1]
        }
    }

    /// Reading on from where a cursor has come to adds up.
    pub proof fn lemma_advanced_twice(&self, middle: &Self, before: &Self, n: int, m: int)
        requires
            middle.advanced(before, n),
            self.advanced(middle, m),
        ensures
            self.advanced(before, n + m),
    {
        let s = before.remaining();
        assert(s.skip(n).skip(m) =~= s.skip(n + m));
        assert(s.take(n + m).take(n) =~= s.take(n));
        assert(s.take(n + m).skip(n) =~= s.skip(n).take(m));
        lemma_byte_len_split(s.take(n + m), n);
    }

    /// A cursor has read nothing since it was where it is.
    pub proof fn lemma_advanced_none(&self)
        ensures
            self.advanced(self, 0),
    {
        assert(self.remaining().skip(0) =~= self.remaining());
    }

    /// A cursor before the first character of `input`.
    pub fn new(input: &'a str) -> (cursor: Self)
        ensures
            cursor.remaining() == input@,
            cursor.consumed() == 0,
            cursor.previous() == EOF_CHAR,
    {
        Self { initial_len: input.as_bytes().len(), rest: input, prev: EOF_CHAR }
    }

    /// Reads one character, or tells that none is left.
    pub fn bump(&mut self) -> (next: Option<char>)
        ensures
            old(self).remaining().len() == 0 ==> next.is_none() && *final(self) == *old(self),
            old(self).remaining().len() > 0 ==> next == Some(old(self).remaining()[0])
                && final(self).advanced(old(self), 1),
    {
        proof {
            use_type_invariant(&*self);
        }
        let mut chars = self.chars();
        let c = chars.next()?;
        let width = utf8_width(c);
        let ghost text = self.rest@;
        proof {
            lemma_prefix_is_boundary(text, 1);
            lemma_byte_len_split(text, 1);
        }
        let (_, tail) = self.rest.split_at(width);
        proof {
            lemma_suffix_decodes(text, 1, tail@);
        }
        self.rest = tail;
        self.prev = c;
        Some(c)
    }

    /// The next character, which stays unread, or [`EOF_CHAR`] at the end
    /// of the text.
    pub fn first(&self) -> (c: char)
        ensures
            c == peek(self.remaining(), 0),
    {
        self.nth_char(0)
    }

    /// The character behind the next one, which stays unread, or
    /// [`EOF_CHAR`] where the text has none.
    pub fn second(&self) -> (c: char)
        ensures
            c == peek(self.remaining(), 1),
    {
        self.nth_char(1)
    }

    /// Whether every character has been read.
    pub fn is_eof(&self) -> (eof: bool)
        ensures
            eof == (self.remaining().len() == 0),
    {
        self.rest.is_empty()
    }

    /// The number of bytes read since the cursor was made.
    pub fn len_consumed(&self) -> (len: usize)
        ensures
            len == self.consumed(),
    {
        proof {
            use_type_invariant(self);
        }
        self.initial_len - self.rest.len()
    }

    /// The character read last, or [`EOF_CHAR`] where none was read yet.
    pub fn prev(&self) -> (c: char)
        ensures
            c == self.previous(),
    {
        self.prev
    }

    fn chars(&self) -> (chars: Chars<'a>)
        ensures
            chars.remaining() == self.remaining(),
    {
        self.rest.chars()
    }

    fn nth_char(&self, n: usize) -> (c: char)
        ensures
            c == peek(self.remaining(), n as int),
    {
        let mut chars = self.chars();
        let mut i: usize = 0;
        while i < n
            invariant
                i <= n,
                chars.remaining() == if i <= self.remaining().len() {
                    self.remaining().skip(i as int)
                } else {
                    Seq::<char>::empty()
                },
            decreases n - i,
        {
            let _ = chars.next();
            i += 1;
        }
        match chars.next() {
            Some(c) => c,
            None => EOF_CHAR,
        }
    }
}

/// The number of bytes that `c` takes in UTF-8.
pub fn utf8_width(c: char) -> (width: usize)
    ensures
        width == char_width(c),
{
    let code = c as u32;
    if code < 0x80 {
        1
    } else if code < 0x800 {
        2
    } else if code < 0x10000 {
        3
    } else {
        4
    }
}

} // verus!
