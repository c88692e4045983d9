//! Bit-packed contract state: two flags, a small and a large integer in one `u64`.
//!
//! Layout, from the least significant bit:
//! `[flag1: 1 bit] [flag2: 1 bit] [small_int: 8 bits] [large_int: 32 bits] [reserved]`.
use vstd::prelude::*;

verus! {

/// Two booleans and two small integers packed into a single word.
#[derive(Clone, Copy)]
pub struct PackedState {
    pub packed: u64,
}

/// The word that packs the given fields.
pub open spec fn pack(flag1: bool, flag2: bool, small_int: u8, large_int: u32) -> u64 {
    (if flag1 { 1u64 } else { 0u64 }) | (if flag2 { 2u64 } else { 0u64 }) | ((small_int as u64)
        << 2u64) | ((large_int as u64) << 10u64)
}

impl PackedState {
    /// Packs the four fields.
    pub fn new(flag1: bool, flag2: bool, small_int: u8, large_int: u32) -> (r: Self)
        ensures
            r.packed == pack(flag1, flag2, small_int, large_int),
    {
        let f1: u64 = if flag1 { 1u64 } else { 0u64 };
        let f2: u64 = if flag2 { 2u64 } else { 0u64 };
        let mut packed: u64 = 0;
        if flag1 {
            packed = packed | 1u64;
        }
        if flag2 {
            packed = packed | 2u64;
        }
        assert(packed == f1 | f2) by (bit_vector)
            requires
                (f1 == 1u64 && (f2 == 2u64 ==> packed == (0u64 | 1u64) | 2u64) && (f2 == 0u64
                    ==> packed == 0u64 | 1u64)) || (f1 == 0u64 && (f2 == 2u64 ==> packed == 0u64
                    | 2u64) && (f2 == 0u64 ==> packed == 0u64)),
                f2 == 0u64 || f2 == 2u64,
        ;
        packed = packed | ((small_int as u64) << 2u64);
        packed = packed | ((large_int as u64) << 10u64);
        Self { packed }
    }

    /// Bit 0.
    pub fn flag1(&self) -> (r: bool)
        ensures
            r == (self.packed & 1u64 != 0),
    {
        (self.packed & 1u64) != 0
    }

    /// Bit 1.
    pub fn flag2(&self) -> (r: bool)
        ensures
            r == (self.packed & 2u64 != 0),
    {
        (self.packed & 2u64) != 0
    }

    /// Bits 2 to 9.
    pub fn small_int(&self) -> (r: u8)
        ensures
            r == (self.packed >> 2u64) & 0xFFu64,
    {
        let p = self.packed;
        let v = (p >> 2u64) & 0xFFu64;
        assert(v <= 0xFFu64) by (bit_vector)
            requires
                v == (p >> 2u64) & 0xFFu64,
        ;
        v as u8
    }

    /// Bits 10 to 41.
    pub fn large_int(&self) -> (r: u32)
        ensures
            r == (self.packed >> 10u64) & 0xFFFF_FFFFu64,
    {
        let p = self.packed;
        let v = (p >> 10u64) & 0xFFFF_FFFFu64;
        assert(v <= 0xFFFF_FFFFu64) by (bit_vector)
            requires
                v == (p >> 10u64) & 0xFFFF_FFFFu64,
        ;
        v as u32
    }
}

/// Unpacking a packed word gives back every field that was packed into it.
pub proof fn lemma_pack_round_trip(flag1: bool, flag2: bool, small_int: u8, large_int: u32)
    ensures
        ({
            let p = pack(flag1, flag2, small_int, large_int);
            &&& (p & 1u64 != 0) == flag1
            &&& (p & 2u64 != 0) == flag2
            &&& (p >> 2u64) & 0xFFu64 == small_int as u64
            &&& (p >> 10u64) & 0xFFFF_FFFFu64 == large_int as u64
        }),
{
    let f1: u64 = if flag1 { 1u64 } else { 0u64 };
    let f2: u64 = if flag2 { 2u64 } else { 0u64 };
    let s = small_int as u64;
    let l = large_int as u64;
    assert(s < 256);
    assert(l < 0x1_0000_0000);
    assert((f1 == 0 || f1 == 1) && (f2 == 0 || f2 == 2) && s < 256 && l < 0x1_0000_0000 ==> {
        let p = f1 | f2 | (s << 2u64) | (l << 10u64);
        &&& (p & 1u64 != 0) == (f1 == 1)
        &&& (p & 2u64 != 0) == (f2 == 2)
        &&& (p >> 2u64) & 0xFFu64 == s
        &&& (p >> 10u64) & 0xFFFF_FFFFu64 == l
    }) by (bit_vector);
}

} // verus!
