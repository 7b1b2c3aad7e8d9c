//! Two's-complement arithmetic helpers shared by the assembler and the
//! CPU: signed readings of register-sized words and wrapping 32-bit sums.

use vstd::prelude::*;

verus! {

/// The signed value a 32-bit word stands for in two's complement.
pub open spec fn sgn32(x: u32) -> int {
    if x >= 0x8000_0000 {
        x - 0x1_0000_0000
    } else {
        x as int
    }
}

/// The signed value of the low 16 bits of a 32-bit word.
pub open spec fn sgn16_low(x: u32) -> int {
    let w = (x as int) % 0x1_0000;
    if w >= 0x8000 {
        w - 0x1_0000
    } else {
        w
    }
}

/// The 32-bit word that stands for `v` modulo 2^32.
pub open spec fn wrap32(v: int) -> u32 {
    (v % 0x1_0000_0000) as u32
}

/// An 8-bit immediate sign-extended into a 16-bit word.
pub open spec fn sext8_16(i: i8) -> u16 {
    if i < 0 {
        (i + 0x1_0000) as u16
    } else {
        i as u16
    }
}

/// The low byte of a sign-extended 8-bit immediate, as a 16-bit word.
pub open spec fn low_byte_u16(i: i8) -> u16 {
    if i < 0 {
        (i + 0x100) as u16
    } else {
        i as u16
    }
}

/// `wrap32` acts as a single shift by 2^32 on values within one period of
/// the 32-bit range.
pub proof fn lemma_wrap32_window(v: int)
    requires
        -0x1_0000_0000 <= v < 0x2_0000_0000,
    ensures
        v < 0 ==> wrap32(v) == v + 0x1_0000_0000,
        0 <= v < 0x1_0000_0000 ==> wrap32(v) == v,
        v >= 0x1_0000_0000 ==> wrap32(v) == v - 0x1_0000_0000,
{
    let m = 0x1_0000_0000int;
    if v < 0 {
        vstd::arithmetic::div_mod::lemma_mod_multiples_vanish(1, v, m);
        vstd::arithmetic::div_mod::lemma_small_mod((v + m) as nat, m as nat);
    } else if v < m {
        vstd::arithmetic::div_mod::lemma_small_mod(v as nat, m as nat);
    } else {
        vstd::arithmetic::div_mod::lemma_mod_multiples_vanish(1, v - m, m);
        vstd::arithmetic::div_mod::lemma_small_mod((v - m) as nat, m as nat);
    }
}

/// The high 16 bits of a 32-bit word.
pub open spec fn hi16(v: u32) -> u16 {
    (v >> 16) as u16
}

/// The low 16 bits of a 32-bit word.
pub open spec fn lo16(v: u32) -> u16 {
    (v & 0xFFFF) as u16
}

/// Split out the high half of a 32-bit word.
pub fn hi16_of(v: u32) -> (r: u16)
    ensures
        r == hi16(v),
{
    #[verifier::truncate] ((v >> 16) as u16)
}

/// Split out the low half of a 32-bit word.
pub fn lo16_of(v: u32) -> (r: u16)
    ensures
        r == lo16(v),
{
    #[verifier::truncate] ((v & 0xFFFF) as u16)
}

/// Add two 32-bit words, wrapping around the 32-bit range.
pub fn wadd32(a: u32, b: u32) -> (r: u32)
    ensures
        r == wrap32(a + b),
{
    proof {
        lemma_wrap32_window(a + b);
    }
    a.wrapping_add(b)
}

/// Subtract two 32-bit words, wrapping around the 32-bit range.
pub fn wsub32(a: u32, b: u32) -> (r: u32)
    ensures
        r == wrap32(a - b),
{
    proof {
        lemma_wrap32_window(a - b);
    }
    a.wrapping_sub(b)
}

/// Read a 32-bit word as a signed number.
pub fn signed32(x: u32) -> (r: i64)
    ensures
        r == sgn32(x),
{
    if x >= 0x8000_0000 {
        (x as i64) - 0x1_0000_0000
    } else {
        x as i64
    }
}

/// Read the low 16 bits of a 32-bit word as a signed number.
pub fn signed16_low(x: u32) -> (r: i64)
    ensures
        r == sgn16_low(x),
{
    let w = (x % 0x1_0000) as i64;
    if w >= 0x8000 {
        w - 0x1_0000
    } else {
        w
    }
}

/// Wrap a sum back into the 32-bit range.
pub fn wrap_to_u32(v: i64) -> (r: u32)
    requires
        -0x1_0000_0000 <= v < 0x2_0000_0000,
    ensures
        r == wrap32(v as int),
{
    proof {
        lemma_wrap32_window(v as int);
    }
    if v < 0 {
        (v + 0x1_0000_0000) as u32
    } else if v > u32::MAX as i64 {
        (v - 0x1_0000_0000) as u32
    } else {
        v as u32
    }
}

/// Sign-extend an 8-bit immediate into a 16-bit word.
pub fn extend8_16(i: i8) -> (r: u16)
    ensures
        r == sext8_16(i),
{
    if i < 0 {
        ((i as i32) + 0x1_0000) as u16
    } else {
        i as u16
    }
}

/// The low byte of a sign-extended 8-bit immediate.
pub fn i8_low_byte(i: i8) -> (r: u16)
    ensures
        r == low_byte_u16(i),
{
    if i < 0 {
        ((i as i16) + 0x100) as u16
    } else {
        i as u16
    }
}

} // verus!
