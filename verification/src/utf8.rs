//! Byte lengths of texts. A lexeme's length and a cursor's progress are
//! counted in bytes of UTF-8, while the rules of the tokenizer speak of
//! characters; these lemmas carry facts from one to the other.

use vstd::prelude::*;
use vstd::utf8::*;

verus! {

/// The number of bytes that `c` takes in UTF-8.
pub open spec fn char_width(c: char) -> nat {
    encode_scalar(c as u32).len()
}

/// The number of bytes that the text `s` takes in UTF-8.
pub open spec fn byte_len(s: Seq<char>) -> nat {
    encode_utf8(s).len()
}

/// Encoding distributes over concatenation.
pub proof fn lemma_encode_concat(a: Seq<char>, b: Seq<char>)
    ensures
        encode_utf8(a + b) == encode_utf8(a) + encode_utf8(b),
    decreases a.len(),
{
    if a.len() > 0 {
        lemma_encode_concat(a.drop_first(), b);
        assert((a + b).drop_first() =~= a.drop_first() + b);
    }
}

/// A text is as long as its two parts together, wherever it is cut.
pub proof fn lemma_byte_len_split(s: Seq<char>, n: int)
    requires
        0 <= n <= s.len(),
    ensures
        byte_len(s) == byte_len(s.take(n)) + byte_len(s.skip(n)),
        encode_utf8(s) == encode_utf8(s.take(n)) + encode_utf8(s.skip(n)),
{
    assert(s =~= s.take(n) + s.skip(n));
    lemma_encode_concat(s.take(n), s.skip(n));
}

/// The end of a prefix of characters is a character boundary of the bytes.
pub proof fn lemma_prefix_is_boundary(s: Seq<char>, n: int)
    requires
        0 <= n <= s.len(),
    ensures
        is_char_boundary(encode_utf8(s), byte_len(s.take(n)) as int),
    decreases n,
{
    let bytes = encode_utf8(s);
    encode_utf8_valid_utf8(s);
    if n > 0 {
        let tail = s.drop_first();
        encode_utf8_first_scalar(s);
        assert(pop_first_scalar(bytes) =~= encode_utf8(tail));
        lemma_prefix_is_boundary(tail, n - 1);
        assert(s.take(n).drop_first() =~= tail.take(n - 1));
    }
}

/// The bytes behind a prefix of characters encode the characters behind it,
/// and no other text.
pub proof fn lemma_suffix_decodes(s: Seq<char>, n: int, tail: Seq<char>)
    requires
        0 <= n <= s.len(),
        encode_utf8(tail) == encode_utf8(s).subrange(
            byte_len(s.take(n)) as int,
            byte_len(s) as int,
        ),
    ensures
        tail == s.skip(n),
{
    lemma_byte_len_split(s, n);
    let cut = byte_len(s.take(n)) as int;
    assert(encode_utf8(s).subrange(cut, byte_len(s) as int) =~= encode_utf8(s.skip(n)));
    encode_utf8_decode_utf8(tail);
    encode_utf8_decode_utf8(s.skip(n));
}

} // verus!
