//! Offsets into the source text. An offset counted in bytes and one counted
//! in characters are of different types, and neither turns into the other
//! but by reading the text again.

use vstd::prelude::*;

verus! {

/// An offset that converts to and from the two integer types that offsets
/// come in. A number that the target type cannot hold loses its high bits.
pub trait Position: Sized {
    /// The offset as a number.
    spec fn offset(&self) -> nat;

    /// The number of offsets that the type can hold: every offset is below
    /// it.
    spec fn modulus() -> nat;

    /// The type holds at least what 32 bits can tell, and no more than a
    /// word of the target.
    proof fn lemma_offset_bound(&self)
        ensures
            self.offset() < Self::modulus(),
            Self::modulus() >= 0x1_0000_0000,
            Self::modulus() <= usize::MAX + 1,
    ;

    /// The offset `value`, less the bits that the type cannot hold.
    fn from_usize(value: usize) -> (position: Self)
        ensures
            position.offset() == value as nat % Self::modulus(),
    ;

    /// The offset as a word of the target.
    fn to_usize(&self) -> (value: usize)
        ensures
            value == self.offset(),
    ;

    /// The offset `value`.
    fn from_u32(value: u32) -> (position: Self)
        ensures
            position.offset() == value,
    ;

    /// The low 32 bits of the offset.
    fn to_u32(&self) -> (value: u32)
        ensures
            value == self.offset() % 0x1_0000_0000,
    ;
}

/// An offset in bytes.
#[derive(Debug, Clone, Copy, PartialEq, Eq, PartialOrd, Ord, Hash, Structural)]
pub struct BytePosition(pub u32);

impl Position for BytePosition {
    open spec fn offset(&self) -> nat {
        self.0 as nat
    }

    open spec fn modulus() -> nat {
        0x1_0000_0000
    }

    proof fn lemma_offset_bound(&self) {
    }

    fn from_usize(value: usize) -> (position: Self) {
        assert(value as u32 == (value as u64) % 0x1_0000_0000) by (bit_vector);
        Self(value as u32)
    }

    fn to_usize(&self) -> (value: usize) {
        self.0 as usize
    }

    fn from_u32(value: u32) -> (position: Self) {
        Self(value)
    }

    fn to_u32(&self) -> (value: u32) {
        self.0
    }
}

/// An offset in characters.
#[derive(Debug, Clone, Copy, PartialEq, Eq, PartialOrd, Ord, Hash, Structural)]
pub struct CharPosition(pub usize);

impl Position for CharPosition {
    open spec fn offset(&self) -> nat {
        self.0 as nat
    }

    open spec fn modulus() -> nat {
        (usize::MAX + 1) as nat
    }

    proof fn lemma_offset_bound(&self) {
    }

    fn from_usize(value: usize) -> (position: Self) {
        proof {
            vstd::arithmetic::div_mod::lemma_small_mod(value as nat, (usize::MAX + 1) as nat);
        }
        Self(value)
    }

    fn to_usize(&self) -> (value: usize) {
        self.0
    }

    fn from_u32(value: u32) -> (position: Self) {
        Self(value as usize)
    }

    fn to_u32(&self) -> (value: u32) {
        let value = self.0;
        assert(value as u32 == (value as u64) % 0x1_0000_0000) by (bit_vector);
        value as u32
    }
}

} // verus!
