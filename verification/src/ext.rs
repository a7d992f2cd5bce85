//! Character classes of the dialect. Identifiers are ASCII only.

use vstd::prelude::*;
use vstd::std_specs::iter::IteratorSpec;

verus! {

broadcast use vstd::string::group_string_axioms;

/// The characters that separate tokens: the ASCII blanks and line breaks,
/// NEL, the two directional marks, and the line and paragraph separators.
pub open spec fn whitespace(c: char) -> bool {
    ||| c == '\u{0009}'
    ||| c == '\u{000A}'
    ||| c == '\u{000B}'
    ||| c == '\u{000C}'
    ||| c == '\u{000D}'
    ||| c == '\u{0020}'
    ||| c == '\u{0085}'
    ||| c == '\u{200E}'
    ||| c == '\u{200F}'
    ||| c == '\u{2028}'
    ||| c == '\u{2029}'
}

/// A character that may open an identifier: an ASCII letter or `_`.
pub open spec fn id_start(c: char) -> bool {
    ||| 'a' <= c <= 'z'
    ||| 'A' <= c <= 'Z'
    ||| c == '_'
}

/// A character that may continue an identifier: an ASCII letter, an ASCII
/// decimal digit or `_`.
pub open spec fn id_continue(c: char) -> bool {
    ||| id_start(c)
    ||| '0' <= c <= '9'
}

/// A text that reads as one identifier from its first character to its last.
pub open spec fn lexically_ident(s: Seq<char>) -> bool {
    &&& s.len() > 0
    &&& id_start(s[0])
    &&& forall|i: int| 1 <= i < s.len() ==> id_continue(#[trigger] s[i])
}

/// The classes that the tokenizer sorts characters into.
pub trait CharExt {
    /// Whether this separates tokens.
    fn is_whitespace(self) -> bool;

    /// Whether this may open an identifier.
    fn is_id_start(self) -> bool;

    /// Whether this may stand in an identifier behind its first character.
    fn is_id_continue(self) -> bool;
}

impl CharExt for char {
    fn is_whitespace(self) -> (r: bool)
        ensures
            r == whitespace(self),
    {
        matches!(
            self,
            '\u{0009}'
            | '\u{000A}'
            | '\u{000B}'
            | '\u{000C}'
            | '\u{000D}'
            | '\u{0020}'
            | '\u{0085}'
            | '\u{200E}'
            | '\u{200F}'
            | '\u{2028}'
            | '\u{2029}'
        )
    }

    fn is_id_start(self) -> (r: bool)
        ensures
            r == id_start(self),
    {
        ('a' <= self && self <= 'z') || ('A' <= self && self <= 'Z') || self == '_'
    }

    fn is_id_continue(self) -> (r: bool)
        ensures
            r == id_continue(self),
    {
        ('a' <= self && self <= 'z') || ('A' <= self && self <= 'Z') || ('0' <= self
            && self <= '9') || self == '_'
    }
}

/// What the tokenizer can tell of a whole text.
pub trait StrExt {
    /// Whether this reads as one identifier and nothing else.
    fn is_lexically_ident(&self) -> bool;
}

impl StrExt for str {
    fn is_lexically_ident(&self) -> (r: bool)
        ensures
            r == lexically_ident(self@),
    {
        let mut chars = self.chars();
        if let Some(start) = chars.next() {
            if !start.is_id_start() {
                return false;
            }
            let ghost mut i: int = 1;
            loop
                invariant
                    1 <= i <= self@.len(),
                    chars.remaining() == self@.skip(i),
                    id_start(self@[0]),
                    forall|j: int| 1 <= j < i ==> id_continue(#[trigger] self@[j]),
                decreases self@.len() - i,
            {
                match chars.next() {
                    Some(c) => {
                        if !c.is_id_continue() {
                            return false;
                        }
                        proof {
                            i = i + 1;
                        }
                    },
                    None => {
                        return true;
                    },
                }
            }
        }
        false
    }
}

} // verus!
