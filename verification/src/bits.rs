//! Bit-level facts about fixed-width words, each proved once by the
//! bit-vector solver and used wherever a field, mask, shift or wrapping sum
//! meets ordinary arithmetic.

use vstd::prelude::*;

verus! {

/// The wrapping 64-bit sum.
pub proof fn bv_add64(x: u64, y: u64)
    by (bit_vector)
    ensures
        x.wrapping_add(y) as int == (x as int + y as int) % 0x1_0000_0000_0000_0000,
{
}

/// The wrapping 32-bit sum.
pub proof fn bv_add32(x: u32, y: u32)
    by (bit_vector)
    ensures
        x.wrapping_add(y) as int == (x as int + y as int) % 0x1_0000_0000,
{
}

/// 64-bit words: masks, low-order casts and word-index shifts.
pub proof fn bv_u64(x: u64)
    by (bit_vector)
    ensures
        (x & 0xffff) as int == x as int % 0x1_0000,
        (x & 0xffff_ffff) as int == x as int % 0x1_0000_0000,
        (x & 0xffff_ffff) < 0x1_0000_0000,
        (x as u32) as int == x as int % 0x1_0000_0000,
        (x & 0xffff_fffe) as int == x as int % 0x1_0000_0000 - (x as int % 0x1_0000_0000) % 2,
        x & 3 == x % 4,
        x & 3 < 4,
        (x & 0xffff_ffff) & 3 < 4,
        x >> 2 == x / 4,
        x & 63 == x % 64,
        x & 0x1f == x % 32,
{
}

/// Fields of a 64-bit instruction word read as numbers.
pub proof fn bv_fields(inst: u64)
    by (bit_vector)
    ensures
        inst & 0x7f < 128,
        inst >> 7 & 0x1f < 32,
        inst >> 15 & 0x1f < 32,
        inst >> 20 & 0x1f < 32,
        inst >> 12 & 0x7 < 8,
        inst >> 25 & 0x7f < 128,
        (((inst >> 20) & 0x1f) as u32) < 32,
        inst >> 20 & 0xfff == (inst / 0x10_0000) % 0x1000,
        inst >> 20 & 0xfff < 0x1000,
        (inst >> 20 & 0xfff) % 32 == (inst >> 20) & 0x1f,
        ((inst >> 25 & 0x7f) << 5) | (inst >> 7 & 0x1f) == ((inst / 0x200_0000) % 0x80) * 0x20 + (
        inst / 0x80) % 0x20,
        ((inst >> 25 & 0x7f) << 5) | (inst >> 7 & 0x1f) < 0x1000,
        ((inst >> 31 & 1) << 12) | ((inst >> 7 & 1) << 11) | ((inst >> 25 & 0x3f) << 5) | ((inst
            >> 8 & 0x0f) << 1) == ((inst / 0x8000_0000) % 2) * 0x1000 + ((inst / 0x80) % 2) * 0x800
            + ((inst / 0x200_0000) % 0x40) * 0x20 + ((inst / 0x100) % 0x10) * 2,
        ((inst >> 31 & 1) << 12) | ((inst >> 7 & 1) << 11) | ((inst >> 25 & 0x3f) << 5) | ((inst
            >> 8 & 0x0f) << 1) < 0x2000,
        ((inst >> 31 & 1) << 20) | ((inst >> 12 & 0xff) << 12) | ((inst >> 20 & 1) << 11) | ((inst
            >> 21 & 0x3ff) << 1) == ((inst / 0x8000_0000) % 2) * 0x10_0000 + ((inst / 0x1000)
            % 0x100) * 0x1000 + ((inst / 0x10_0000) % 2) * 0x800 + ((inst / 0x20_0000) % 0x400) * 2,
        ((inst >> 31 & 1) << 20) | ((inst >> 12 & 0xff) << 12) | ((inst >> 20 & 1) << 11) | ((inst
            >> 21 & 0x3ff) << 1) < 0x20_0000,
        ((inst >> 12) & 0xfffff) << 12 == ((inst / 0x1000) % 0x10_0000) * 0x1000,
        ((inst >> 12) & 0xfffff) << 12 < 0x1_0000_0000,
        (((inst >> 25) & 0x7f) & 0x20 != 0) == ((inst >> 30) & 1 == 1),
        (((inst >> 25) & 0x7f) & 0x40 != 0) == ((inst >> 25) & 0x7f >= 64),
{
}

/// The wrapping 32-bit sum of the low halves of two 64-bit words.
pub proof fn bv_add_low32(x: u64, y: u64)
    by (bit_vector)
    ensures
        ((x as u32).wrapping_add(y as u32)) as int == (x as int + y as int) % 0x1_0000_0000,
{
}

/// The wrapping 32-bit difference.
pub proof fn bv_sub32(x: u32, y: u32)
    by (bit_vector)
    ensures
        x.wrapping_sub(y) as int == (x as int - y as int) % 0x1_0000_0000,
{
}

/// The wrapping 32-bit product.
pub proof fn bv_mul32(x: u32, y: u32)
    by (bit_vector)
    ensures
        x.wrapping_mul(y) as int == (x as int * y as int) % 0x1_0000_0000,
{
}

/// 32-bit words: the bitwise operations as sums, the
/// complement, and the low five bits.
pub proof fn bv_u32(x: u32, y: u32)
    by (bit_vector)
    ensures
        (x ^ y) as int == (x | y) as int - (x & y) as int,
        (x ^ y) as int == x as int + y as int - 2 * (x & y) as int,
        (x | y) as int == x as int + y as int - (x & y) as int,
        (x & y) as int == x as int + y as int - (x | y) as int,
        (!x) as int == 0xffff_ffff - x as int,
        (y & 0x1f) as int == y as int % 32,
        y & 0x1f < 32,
{
}

/// Shifts of a 32-bit word by `sh < 32`: the left shift through 64 bits, and
/// the arithmetic right shift through the logical one.
pub proof fn bv_shift32(x: u32, sh: u32)
    by (bit_vector)
    requires
        sh < 32,
    ensures
        (x << sh) as int == ((x as u64) << (sh as u64)) as int % 0x1_0000_0000,
        x < 0x8000_0000 ==> ((x as i32) >> sh) as u32 == x >> sh,
        x >= 0x8000_0000 ==> ((x as i32) >> sh) as u32 == !((!x) >> sh),
        x >= 0x8000_0000 ==> !x < 0x8000_0000,
{
}

/// Bytes and half-words of a 32-bit word at each offset, and the words a
/// byte or half-word store of `v` makes.
pub proof fn bv_subwords(w: u32, v: u32)
    by (bit_vector)
    ensures
        (w >> 0u32) & 0xff == w % 0x100,
        (w >> 8u32) & 0xff == (w / 0x100) % 0x100,
        (w >> 16u32) & 0xff == (w / 0x1_0000) % 0x100,
        (w >> 24u32) & 0xff == (w / 0x100_0000) % 0x100,
        (w >> 0u32) & 0xffff == w % 0x1_0000,
        (w >> 16u32) & 0xffff == (w / 0x1_0000) % 0x1_0000,
        ({
            let m = (w & !(0xffu32 << 0u32)) | ((v & 0xff) << 0u32);
            m % 0x100 == v % 0x100 && (m / 0x100) % 0x100 == (w / 0x100) % 0x100 && (m / 0x1_0000)
                % 0x100 == (w / 0x1_0000) % 0x100 && (m / 0x100_0000) % 0x100 == (w / 0x100_0000)
                % 0x100
        }),
        ({
            let m = (w & !(0xffu32 << 8u32)) | ((v & 0xff) << 8u32);
            m % 0x100 == w % 0x100 && (m / 0x100) % 0x100 == v % 0x100 && (m / 0x1_0000) % 0x100
                == (w / 0x1_0000) % 0x100 && (m / 0x100_0000) % 0x100 == (w / 0x100_0000) % 0x100
        }),
        ({
            let m = (w & !(0xffu32 << 16u32)) | ((v & 0xff) << 16u32);
            m % 0x100 == w % 0x100 && (m / 0x100) % 0x100 == (w / 0x100) % 0x100 && (m / 0x1_0000)
                % 0x100 == v % 0x100 && (m / 0x100_0000) % 0x100 == (w / 0x100_0000) % 0x100
        }),
        ({
            let m = (w & !(0xffu32 << 24u32)) | ((v & 0xff) << 24u32);
            m % 0x100 == w % 0x100 && (m / 0x100) % 0x100 == (w / 0x100) % 0x100 && (m / 0x1_0000)
                % 0x100 == (w / 0x1_0000) % 0x100 && (m / 0x100_0000) % 0x100 == v % 0x100
        }),
        ({
            let m = (w & !(0xffffu32 << 0u32)) | ((v & 0xffff) << 0u32);
            m % 0x1_0000 == v % 0x1_0000 && (m / 0x1_0000) % 0x1_0000 == (w / 0x1_0000) % 0x1_0000
        }),
        ({
            let m = (w & !(0xffffu32 << 16u32)) | ((v & 0xffff) << 16u32);
            m % 0x1_0000 == w % 0x1_0000 && (m / 0x1_0000) % 0x1_0000 == v % 0x1_0000
        }),
        v < 4 ==> v >> 1 <= 1 && v >> 1 == v / 2,
        (w >> v) & 0xff < 0x100,
        (w >> v) & 0xffff < 0x1_0000,
{
}

/// The 7-bit immediates of the word VMs: the signed value of a field with
/// bit 6 set, and pc arithmetic with such an offset.
pub proof fn bv_signed7(imm: u64, p: u64, d: i64)
    by (bit_vector)
    ensures
        64 <= imm < 128 ==> (((imm as i64) - 128) as i64) as u64 == imm + 0xffff_ffff_ffff_ff80,
        p < 0x4000_0000_0000_0000 && -64 <= d < 64 ==> ((p as i64) + d) as u64 as int == (p as int
            + d as int) % 0x1_0000_0000_0000_0000,
        (d as u64) as u32 == d as u32,
{
}

} // verus!
