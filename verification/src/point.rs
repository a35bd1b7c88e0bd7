//! Points of the cloud, and the order-preserving coordinate codes they
//! carry.
//!
//! On disk a coordinate is one little-endian 32-bit word. Inside the library
//! a coordinate is a `u32` *code*: a bijective recoding of that word under
//! which the natural order of the codes agrees with the numeric order the
//! words denote. Comparisons and octant decisions are made on codes; the
//! record codec maps codes back to the exact on-disk words.

use vstd::prelude::*;

verus! {

/// A position: three coordinate codes.
#[derive(Clone, Copy, PartialEq, Eq, Structural, Debug)]
pub struct Position {
    pub x: u32,
    pub y: u32,
    pub z: u32,
}

/// One colored point: a position and an 8-bit RGB color.
#[derive(Clone, Copy, PartialEq, Eq, Structural, Debug)]
pub struct Point {
    pub position: Position,
    pub r: u8,
    pub g: u8,
    pub b: u8,
}

/// Code of an on-disk 32-bit word: words with the top bit set (negative
/// values) are reflected below the others, so that code order agrees with
/// the order of the values the words denote.
pub open spec fn spec_code_of_word(w: u32) -> u32 {
    if w >= 0x8000_0000u32 {
        (0xFFFF_FFFFu32 - w) as u32
    } else {
        (w + 0x8000_0000u32) as u32
    }
}

/// Inverse of `spec_code_of_word`.
pub open spec fn spec_word_of_code(c: u32) -> u32 {
    if c >= 0x8000_0000u32 {
        (c - 0x8000_0000u32) as u32
    } else {
        (0xFFFF_FFFFu32 - c) as u32
    }
}

/// Recodes an on-disk word into a coordinate code.
pub fn code_of_word(w: u32) -> (r: u32)
    ensures
        r == spec_code_of_word(w),
{
    if w >= 0x8000_0000u32 {
        0xFFFF_FFFFu32 - w
    } else {
        w + 0x8000_0000u32
    }
}

/// Recodes a coordinate code back into its on-disk word.
pub fn word_of_code(c: u32) -> (r: u32)
    ensures
        r == spec_word_of_code(c),
{
    if c >= 0x8000_0000u32 {
        c - 0x8000_0000u32
    } else {
        0xFFFF_FFFFu32 - c
    }
}

/// Law: the recoding of on-disk words into coordinate codes is a bijection.
pub proof fn lemma_code_word_round_trip(w: u32, c: u32)
    ensures
        spec_word_of_code(spec_code_of_word(w)) == w,
        spec_code_of_word(spec_word_of_code(c)) == c,
{
}

} // verus!
