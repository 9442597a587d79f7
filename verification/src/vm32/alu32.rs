//! 32-bit RV32IM operation semantics used by the reference interpreter:
//! signed comparison, shifts, RV32M multiply/divide/remainder (with the
//! RISC-V conventions for division by zero and overflow), the advice quotient
//! the circuit checks for the divide family, byte/half-word load extraction and
//! store merging.

use vstd::prelude::*;
use crate::bits::{bv_subwords, bv_u32};
use vstd::arithmetic::div_mod::{lemma_fundamental_div_mod, lemma_mod_bound};

verus! {

/// The two's-complement value of a 32-bit word.
pub open spec fn signed32(x: u32) -> int {
    if x < 0x8000_0000 {
        x as int
    } else {
        x as int - 0x1_0000_0000
    }
}

/// The 32-bit word holding `v` modulo 2^32.
pub open spec fn to_u32(v: int) -> u32 {
    (v % 0x1_0000_0000) as u32
}

pub open spec fn abs(v: int) -> int {
    if v < 0 {
        -v
    } else {
        v
    }
}

/// Quotient rounded toward zero (`b != 0`).
pub open spec fn quot_trunc(a: int, b: int) -> int {
    let q = abs(a) / abs(b);
    if (a < 0) != (b < 0) {
        -q
    } else {
        q
    }
}

/// Remainder carrying the sign of the dividend, `|r| < |b|` (`b != 0`).
pub open spec fn rem_trunc(a: int, b: int) -> int {
    let r = abs(a) % abs(b);
    if a < 0 {
        -r
    } else {
        r
    }
}

/// RV32M `div`: -1 on division by zero; `MIN / -1` wraps to `MIN`.
pub open spec fn div_result(x: u32, y: u32) -> u32 {
    if y == 0 {
        0xffff_ffff
    } else {
        to_u32(quot_trunc(signed32(x), signed32(y)))
    }
}

/// RV32M `rem`: the dividend on division by zero; `MIN % -1` is 0.
pub open spec fn rem_result(x: u32, y: u32) -> u32 {
    if y == 0 {
        x
    } else {
        to_u32(rem_trunc(signed32(x), signed32(y)))
    }
}

/// RV32M `divu`: all ones on division by zero.
pub open spec fn divu_result(x: u32, y: u32) -> u32 {
    if y == 0 {
        0xffff_ffff
    } else {
        x / y
    }
}

/// RV32M `remu`: the dividend on division by zero.
pub open spec fn remu_result(x: u32, y: u32) -> u32 {
    if y == 0 {
        x
    } else {
        x % y
    }
}

/// Two's-complement `wrapping_abs`: |v| except that the minimum stays negative.
pub open spec fn wrapping_abs32(x: u32) -> int {
    if x == 0x8000_0000 {
        signed32(x)
    } else {
        abs(signed32(x))
    }
}

/// Advice quotient recorded for the signed divide family (`div`, `rem`):
/// `wrapping_abs(x) / wrapping_abs(y)` rounded toward zero, all ones when `y == 0`.
pub open spec fn signed_advice(x: u32, y: u32) -> u32 {
    if y == 0 {
        0xffff_ffff
    } else {
        to_u32(quot_trunc(wrapping_abs32(x), wrapping_abs32(y)))
    }
}

/// Arithmetic right shift of a 32-bit word.
pub open spec fn sra32(x: u32, s: u32) -> u32 {
    ((x as i32) >> s) as u32
}

pub open spec fn bool_word(b: bool) -> u32 {
    if b {
        1
    } else {
        0
    }
}

/// Sign-extend a byte (`b < 256`) to 32 bits.
pub open spec fn sext8(b: u32) -> u32 {
    if b < 0x80 {
        b
    } else {
        (b + 0xffff_ff00) as u32
    }
}

/// Sign-extend a half-word (`h < 65536`) to 32 bits.
pub open spec fn sext16(h: u32) -> u32 {
    if h < 0x8000 {
        h
    } else {
        (h + 0xffff_0000) as u32
    }
}

/// Value written back by a byte/half-word load of word `w` at byte offset `off`.
pub open spec fn load_extract(w: u32, off: u32, funct3: u64) -> u32 {
    let b = (w >> (8 * off) as u32) & 0xff;
    let h = (w >> (16 * (off >> 1)) as u32) & 0xffff;
    if funct3 == 0 {
        sext8(b)
    } else if funct3 == 4 {
        b
    } else if funct3 == 1 {
        sext16(h)
    } else {
        h
    }
}

/// Word after a byte (`funct3 == 0`) or half-word store of `v` into `old` at byte offset `off`.
pub open spec fn store_merge(old: u32, v: u32, off: u32, funct3: u64) -> u32 {
    if funct3 == 0 {
        let shift = (8 * off) as u32;
        (old & !(0xffu32 << shift)) | ((v & 0xff) << shift)
    } else {
        let shift = (16 * (off >> 1)) as u32;
        (old & !(0xffffu32 << shift)) | ((v & 0xffff) << shift)
    }
}

/// Whether a branch with this funct3 is taken on operands `x`, `y`.
pub open spec fn branch_taken(x: u32, y: u32, funct3: u64) -> bool {
    if funct3 == 0 {
        x == y
    } else if funct3 == 1 {
        x != y
    } else if funct3 == 4 {
        signed32(x) < signed32(y)
    } else if funct3 == 5 {
        signed32(x) >= signed32(y)
    } else if funct3 == 6 {
        x < y
    } else if funct3 == 7 {
        x >= y
    } else {
        false
    }
}

/// Result of a base-ISA register-register operation (`funct7 != 1`).
pub open spec fn alu_reg(x: u32, y: u32, funct3: u64, funct7: u64) -> u32 {
    if funct3 == 0 {
        if funct7 == 0x20 {
            x.wrapping_sub(y)
        } else {
            x.wrapping_add(y)
        }
    } else if funct3 == 1 {
        x << (y & 0x1f)
    } else if funct3 == 2 {
        bool_word(signed32(x) < signed32(y))
    } else if funct3 == 3 {
        bool_word(x < y)
    } else if funct3 == 4 {
        x ^ y
    } else if funct3 == 5 {
        if funct7 == 0x20 {
            sra32(x, y & 0x1f)
        } else {
            x >> (y & 0x1f)
        }
    } else if funct3 == 6 {
        x | y
    } else {
        x & y
    }
}

/// Result of an RV32M operation (`funct7 == 1`); funct3 1..3 give 0.
pub open spec fn alu_m(x: u32, y: u32, funct3: u64) -> u32 {
    if funct3 == 0 {
        x.wrapping_mul(y)
    } else if funct3 == 4 {
        div_result(x, y)
    } else if funct3 == 5 {
        divu_result(x, y)
    } else if funct3 == 6 {
        rem_result(x, y)
    } else if funct3 == 7 {
        remu_result(x, y)
    } else {
        0
    }
}

/// Advice quotient recorded for an RV32M cycle (0 outside the divide family).
pub open spec fn m_advice(x: u32, y: u32, funct3: u64) -> u32 {
    if funct3 == 4 || funct3 == 6 {
        signed_advice(x, y)
    } else if funct3 == 5 || funct3 == 7 {
        divu_result(x, y)
    } else {
        0
    }
}

/// Result of a register-immediate operation; `imm` is the sign-extended
/// immediate truncated to 32 bits, `shamt` the 5-bit shift amount, `arith`
/// the arithmetic-shift marker (instruction bit 30).
pub open spec fn alu_imm(x: u32, imm: u32, shamt: u32, funct3: u64, arith: bool) -> u32 {
    if funct3 == 0 {
        x.wrapping_add(imm)
    } else if funct3 == 1 {
        x << shamt
    } else if funct3 == 2 {
        bool_word(signed32(x) < signed32(imm))
    } else if funct3 == 3 {
        bool_word(x < imm)
    } else if funct3 == 4 {
        x ^ imm
    } else if funct3 == 5 {
        if arith {
            sra32(x, shamt)
        } else {
            x >> shamt
        }
    } else if funct3 == 6 {
        x | imm
    } else {
        x & imm
    }
}

pub fn lt_signed(x: u32, y: u32) -> (r: bool)
    ensures
        r == (signed32(x) < signed32(y)),
{
    let xn = x >= 0x8000_0000;
    let yn = y >= 0x8000_0000;
    if xn != yn {
        xn
    } else {
        x < y
    }
}

/// Magnitude of the two's-complement value of `x` (at most 2^31).
fn magnitude(x: u32) -> (r: u64)
    ensures
        r == abs(signed32(x)),
        r <= 0x8000_0000,
{
    if x >= 0x8000_0000 {
        0x1_0000_0000u64 - x as u64
    } else {
        x as u64
    }
}

/// Signed quotient helper: `sign * (mx / my)` reduced to 32 bits.
fn signed_quot(mx: u64, my: u64, negative: bool) -> (r: u32)
    requires
        my > 0,
        mx <= 0x8000_0000,
    ensures
        r == to_u32(if negative {
            -((mx / my) as int)
        } else {
            (mx / my) as int
        }),
{
    let q = mx / my;
    assert(q <= mx) by (nonlinear_arith)
        requires
            my > 0,
            q == mx / my,
    ;
    if negative {
        ((0x1_0000_0000u64 - q) % 0x1_0000_0000) as u32
    } else {
        q as u32
    }
}

pub fn div_signed(x: u32, y: u32) -> (r: u32)
    ensures
        r == div_result(x, y),
{
    if y == 0 {
        return 0xffff_ffff;
    }
    let mx = magnitude(x);
    let my = magnitude(y);
    signed_quot(mx, my, (x >= 0x8000_0000) != (y >= 0x8000_0000))
}

pub fn rem_signed(x: u32, y: u32) -> (r: u32)
    ensures
        r == rem_result(x, y),
{
    if y == 0 {
        return x;
    }
    let mx = magnitude(x);
    let my = magnitude(y);
    let m = mx % my;
    assert(m < my) by (nonlinear_arith)
        requires
            my > 0,
            m == mx % my,
    ;
    if x >= 0x8000_0000 {
        ((0x1_0000_0000u64 - m) % 0x1_0000_0000) as u32
    } else {
        m as u32
    }
}

pub fn advice_signed(x: u32, y: u32) -> (r: u32)
    ensures
        r == signed_advice(x, y),
{
    if y == 0 {
        return 0xffff_ffff;
    }
    let mx = magnitude(x);
    let my = magnitude(y);
    // wrapping_abs leaves only the minimum negative
    signed_quot(mx, my, (x == 0x8000_0000) != (y == 0x8000_0000))
}

pub fn sra_word(x: u32, s: u32) -> (r: u32)
    requires
        s < 32,
    ensures
        r == sra32(x, s),
{
    ((x as i32) >> s) as u32
}

pub fn exec_alu_reg(x: u32, y: u32, funct3: u64, funct7: u64) -> (r: u32)
    requires
        funct3 < 8,
    ensures
        r == alu_reg(x, y, funct3, funct7),
{
    let s = y & 0x1f;
    proof {
        bv_u32(x, y);
    }
    if funct3 == 0 {
        if funct7 == 0x20 {
            x.wrapping_sub(y)
        } else {
            x.wrapping_add(y)
        }
    } else if funct3 == 1 {
        x << s
    } else if funct3 == 2 {
        if lt_signed(x, y) {
            1
        } else {
            0
        }
    } else if funct3 == 3 {
        if x < y {
            1
        } else {
            0
        }
    } else if funct3 == 4 {
        x ^ y
    } else if funct3 == 5 {
        if funct7 == 0x20 {
            sra_word(x, s)
        } else {
            x >> s
        }
    } else if funct3 == 6 {
        x | y
    } else {
        x & y
    }
}

pub fn exec_alu_m(x: u32, y: u32, funct3: u64) -> (r: (u32, u32))
    ensures
        r == (alu_m(x, y, funct3), m_advice(x, y, funct3)),
{
    let q = if funct3 == 4 || funct3 == 6 {
        advice_signed(x, y)
    } else if funct3 == 5 || funct3 == 7 {
        if y == 0 {
            0xffff_ffff
        } else {
            x / y
        }
    } else {
        0
    };
    let v = if funct3 == 0 {
        x.wrapping_mul(y)
    } else if funct3 == 4 {
        div_signed(x, y)
    } else if funct3 == 5 {
        if y == 0 {
            0xffff_ffff
        } else {
            x / y
        }
    } else if funct3 == 6 {
        rem_signed(x, y)
    } else if funct3 == 7 {
        if y == 0 {
            x
        } else {
            x % y
        }
    } else {
        0
    };
    (v, q)
}

pub fn exec_alu_imm(x: u32, imm: u32, shamt: u32, funct3: u64, arith: bool) -> (r: u32)
    requires
        shamt < 32,
        funct3 < 8,
    ensures
        r == alu_imm(x, imm, shamt, funct3, arith),
{
    if funct3 == 0 {
        x.wrapping_add(imm)
    } else if funct3 == 1 {
        x << shamt
    } else if funct3 == 2 {
        if lt_signed(x, imm) {
            1
        } else {
            0
        }
    } else if funct3 == 3 {
        if x < imm {
            1
        } else {
            0
        }
    } else if funct3 == 4 {
        x ^ imm
    } else if funct3 == 5 {
        if arith {
            sra_word(x, shamt)
        } else {
            x >> shamt
        }
    } else if funct3 == 6 {
        x | imm
    } else {
        x & imm
    }
}

pub fn exec_branch_taken(x: u32, y: u32, funct3: u64) -> (r: bool)
    ensures
        r == branch_taken(x, y, funct3),
{
    if funct3 == 0 {
        x == y
    } else if funct3 == 1 {
        x != y
    } else if funct3 == 4 {
        lt_signed(x, y)
    } else if funct3 == 5 {
        !lt_signed(x, y)
    } else if funct3 == 6 {
        x < y
    } else if funct3 == 7 {
        x >= y
    } else {
        false
    }
}

pub fn exec_load_extract(w: u32, off: u32, funct3: u64) -> (r: u32)
    requires
        off < 4,
    ensures
        r == load_extract(w, off, funct3),
{
    proof {
        bv_subwords(off, off);
    }
    let b = (w >> (8 * off)) & 0xff;
    let h = (w >> (16 * (off >> 1))) & 0xffff;
    proof {
        bv_subwords(w, (8 * off) as u32);
        bv_subwords(w, (16 * (off >> 1)) as u32);
    }
    if funct3 == 0 {
        if b < 0x80 {
            b
        } else {
            b + 0xffff_ff00
        }
    } else if funct3 == 4 {
        b
    } else if funct3 == 1 {
        if h < 0x8000 {
            h
        } else {
            h + 0xffff_0000
        }
    } else {
        h
    }
}

pub fn exec_store_merge(old: u32, v: u32, off: u32, funct3: u64) -> (r: u32)
    requires
        off < 4,
    ensures
        r == store_merge(old, v, off, funct3),
{
    if funct3 == 0 {
        let shift = 8 * off;
        (old & !(0xffu32 << shift)) | ((v & 0xff) << shift)
    } else {
        proof {
            bv_subwords(off, off);
        }
        let shift = 16 * (off >> 1);
        (old & !(0xffffu32 << shift)) | ((v & 0xffff) << shift)
    }
}


/// Law (division identity, rounding toward zero): for `b != 0`,
/// `a == b * quot_trunc(a, b) + rem_trunc(a, b)` with `|rem| < |b|`.
pub proof fn lemma_quot_rem_trunc(a: int, b: int)
    requires
        b != 0,
    ensures
        a == b * quot_trunc(a, b) + rem_trunc(a, b),
        abs(rem_trunc(a, b)) < abs(b),
{
    let q = abs(a) / abs(b);
    let r = abs(a) % abs(b);
    lemma_fundamental_div_mod(abs(a), abs(b));
    lemma_mod_bound(abs(a), abs(b));
    assert(abs(a) == abs(b) * q + r);
    if a < 0 {
        if b < 0 {
            assert(a == b * q + (-r)) by (nonlinear_arith)
                requires
                    -a == (-b) * q + r,
            ;
        } else {
            assert(a == b * (-q) + (-r)) by (nonlinear_arith)
                requires
                    -a == b * q + r,
            ;
        }
    } else {
        if b < 0 {
            assert(a == b * (-q) + r) by (nonlinear_arith)
                requires
                    a == (-b) * q + r,
            ;
        }
    }
}

/// Law (unsigned division identity): for `y != 0`, `divu * y + remu == x` and `remu < y`.
pub proof fn lemma_divu_remu(x: u32, y: u32)
    requires
        y != 0,
    ensures
        divu_result(x, y) as int * y as int + remu_result(x, y) as int == x as int,
        remu_result(x, y) < y,
{
    lemma_fundamental_div_mod(x as int, y as int);
    lemma_mod_bound(x as int, y as int);
    assert((x / y) as int * y as int == y as int * (x / y) as int) by (nonlinear_arith);
}

} // verus!
