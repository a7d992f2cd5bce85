//! A fast hasher for the interning tables: one word of state, and for each
//! word taken in a rotation, an exclusive or and a multiplication. It is no
//! cryptographic hash, and what it yields differs between targets whose
//! words differ in width.

use vstd::prelude::*;
use std::collections::{HashMap, HashSet};
use std::hash::BuildHasherDefault;

verus! {

/// The number of bytes in a word of the target.
pub open spec fn word_bytes() -> nat {
    (usize::BITS / 8) as nat
}

/// The odd constant that the state is multiplied by, taken from the golden
/// ratio for the width of the word.
pub open spec fn multiplier() -> usize {
    if usize::BITS == 64 {
        0x517c_c1b7_2722_0a95u64 as usize
    } else {
        0x9e37_79b9u32 as usize
    }
}

/// `word` with its bits moved five places to the left, those that leave at
/// the top coming back in at the bottom.
pub open spec fn rotated(word: usize) -> usize {
    (word << 5) | (word >> ((usize::BITS - 5) as u32))
}

/// The state after `word` was taken into the state `hash`.
pub open spec fn mix(hash: usize, word: usize) -> usize {
    (rotated(hash) ^ word).wrapping_mul(multiplier())
}

/// The number that `bytes` spell with the lowest byte first.
pub open spec fn le_value(bytes: Seq<u8>) -> nat
    decreases bytes.len(),
{
    if bytes.len() == 0 {
        0
    } else {
        bytes[0] as nat + 256 * le_value(bytes.drop_first())
    }
}

/// The word that `bytes` spell, which are no more than a word has.
pub open spec fn word_of(bytes: Seq<u8>) -> usize {
    le_value(bytes) as usize
}

/// The state after the bytes of a slice were taken into the state `hash`:
/// whole words as long as there are any, then of what is left four bytes
/// where words are wider than that, then two bytes, then one.
pub open spec fn absorbed(hash: usize, bytes: Seq<u8>) -> usize
    decreases bytes.len(),
{
    let width = word_bytes() as int;
    if 0 < width <= bytes.len() {
        absorbed(mix(hash, word_of(bytes.take(width))), bytes.skip(width))
    } else {
        absorbed_tail(hash, bytes)
    }
}

/// The state after fewer bytes than a word has were taken into the state
/// `hash`.
pub open spec fn absorbed_tail(hash: usize, bytes: Seq<u8>) -> usize {
    let (hash, bytes) = if word_bytes() > 4 && bytes.len() >= 4 {
        (mix(hash, word_of(bytes.take(4))), bytes.skip(4))
    } else {
        (hash, bytes)
    };
    let (hash, bytes) = if bytes.len() >= 2 {
        (mix(hash, word_of(bytes.take(2))), bytes.skip(2))
    } else {
        (hash, bytes)
    };
    if bytes.len() >= 1 {
        mix(hash, bytes[0] as usize)
    } else {
        hash
    }
}

/// The state after a 64-bit value was taken into the state `hash`: as one
/// word where it fits in one, else as its lower and then its upper half.
pub open spec fn absorbed_u64(hash: usize, value: u64) -> usize {
    if usize::BITS == 64 {
        mix(hash, value as usize)
    } else {
        mix(mix(hash, (value % 0x1_0000_0000) as usize), (value / 0x1_0000_0000) as usize)
    }
}

/// What a new hasher yields for `bytes`.
pub open spec fn digest(bytes: Seq<u8>) -> u64 {
    absorbed(0, bytes) as u64
}

/// The hasher. It starts from zero.
pub struct PascalcHasher {
    hash: usize,
}

impl PascalcHasher {
    /// The word that holds what was taken in so far.
    pub closed spec fn state(&self) -> usize {
        self.hash
    }

    fn add_to_hash(&mut self, value: usize)
        ensures
            final(self).state() == mix(old(self).state(), value),
    {
        self.hash = (rotate_left_5(self.hash) ^ value).wrapping_mul(word_multiplier());
    }
}

impl Default for PascalcHasher {
    fn default() -> (hasher: Self)
        ensures
            hasher.state() == 0,
    {
        Self { hash: 0 }
    }
}

impl std::hash::Hasher for PascalcHasher {
    fn finish(&self) -> (hash: u64)
        ensures
            hash == self.state(),
    {
        self.hash as u64
    }

    fn write(&mut self, bytes: &[u8])
        ensures
            final(self).state() == absorbed(old(self).state(), bytes@),
    {
        let width = word_size();
        let mut hash = PascalcHasher { hash: self.hash };
        let mut bytes = bytes;
        let ghost given = bytes@;
        while bytes.len() >= width
            invariant
                width == word_bytes(),
                width == 4 || width == 8,
                absorbed(hash.state(), bytes@) == absorbed(old(self).state(), given),
            decreases bytes@.len(),
        {
            let (word, rest) = bytes.split_at(width);
            hash.add_to_hash(read_word(word));
            bytes = rest;
        }
        if width > 4 && bytes.len() >= 4 {
            let (word, rest) = bytes.split_at(4);
            hash.add_to_hash(read_word(word));
            bytes = rest;
        }
        if bytes.len() >= 2 {
            let (word, rest) = bytes.split_at(2);
            hash.add_to_hash(read_word(word));
            bytes = rest;
        }
        if bytes.len() >= 1 {
            hash.add_to_hash(bytes[0] as usize);
        }
        self.hash = hash.hash;
    }

    fn write_u8(&mut self, value: u8)
        ensures
            final(self).state() == mix(old(self).state(), value as usize),
    {
        self.add_to_hash(value as usize);
    }

    fn write_u16(&mut self, value: u16)
        ensures
            final(self).state() == mix(old(self).state(), value as usize),
    {
        self.add_to_hash(value as usize);
    }

    fn write_u32(&mut self, value: u32)
        ensures
            final(self).state() == mix(old(self).state(), value as usize),
    {
        self.add_to_hash(value as usize);
    }

    fn write_u64(&mut self, value: u64)
        ensures
            final(self).state() == absorbed_u64(old(self).state(), value),
    {
        if usize::BITS == 64 {
            self.add_to_hash(value as usize);
        } else {
            self.add_to_hash((value % 0x1_0000_0000) as usize);
            self.add_to_hash((value / 0x1_0000_0000) as usize);
        }
    }

    fn write_usize(&mut self, value: usize)
        ensures
            final(self).state() == mix(old(self).state(), value),
    {
        self.add_to_hash(value);
    }
}

/// A map whose keys are hashed by [`PascalcHasher`].
pub type PascalcHashMap<K, V> = HashMap<K, V, BuildHasherDefault<PascalcHasher>>;

/// A set whose items are hashed by [`PascalcHasher`].
pub type PascalcHashSet<V> = HashSet<V, BuildHasherDefault<PascalcHasher>>;

fn word_multiplier() -> (k: usize)
    ensures
        k == multiplier(),
{
    if usize::BITS == 64 {
        0x517c_c1b7_2722_0a95u64 as usize
    } else {
        0x9e37_79b9u32 as usize
    }
}

fn rotate_left_5(word: usize) -> (turned: usize)
    ensures
        turned == rotated(word),
{
    (word << 5) | (word >> (usize::BITS - 5))
}

/// 256 to the power of `n`.
pub open spec fn pow256(n: nat) -> nat
    decreases n,
{
    if n == 0 {
        1
    } else {
        256 * pow256((n - 1) as nat)
    }
}

fn word_size() -> (width: usize)
    ensures
        width == word_bytes(),
        width == 4 || width == 8,
{
    if usize::BITS == 64 {
        8
    } else {
        4
    }
}

/// Reads the word that the bytes of `chunk` spell with the lowest first.
fn read_word(chunk: &[u8]) -> (word: usize)
    requires
        chunk@.len() <= word_bytes(),
    ensures
        word == le_value(chunk@),
        word == word_of(chunk@),
{
    let value = read_le(chunk);
    proof {
        reveal_with_fuel(pow256, 9);
    }
    value as usize
}

/// Reads the number that up to eight bytes spell with the lowest first.
fn read_le(chunk: &[u8]) -> (value: u64)
    requires
        chunk@.len() <= 8,
    ensures
        value == le_value(chunk@),
        value < pow256(chunk@.len()),
{
    let mut value: u64 = 0;
    let mut i: usize = chunk.len();
    while i > 0
        invariant
            i <= chunk@.len() <= 8,
            value == le_value(chunk@.skip(i as int)),
            value < pow256((chunk@.len() - i) as nat),
        decreases i,
    {
        i -= 1;
        proof {
            assert(chunk@.skip(i as int).drop_first() =~= chunk@.skip(i + 1));
            reveal_with_fuel(pow256, 9);
        }
        value = value * 256 + chunk[i] as u64;
    }
    proof {
        assert(chunk@.skip(0) =~= chunk@);
    }
    value
}

/// The same bytes taken into the same state leave the same state, so equal
/// contents have equal digests.
pub proof fn lemma_absorbed_deterministic(hash: usize, first: Seq<u8>, second: Seq<u8>)
    requires
        first =~= second,
    ensures
        absorbed(hash, first) == absorbed(hash, second),
        digest(first) == digest(second),
{
}

/// Taking in no bytes leaves the state as it is, so the digest of nothing
/// is zero.
pub proof fn lemma_absorbed_nothing(hash: usize)
    ensures
        absorbed(hash, Seq::empty()) == hash,
        digest(Seq::empty()) == 0,
{
}

} // verus!
