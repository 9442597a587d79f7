//! Flat inout layout of the word-VM circuit: twenty per-cycle columns of
//! `t_len` words each (column `k` occupies `[k * t_len, (k + 1) * t_len)`),
//! then the 32 initial registers, the 32 final registers, the 64 final RAM
//! versions, and the per-cycle advice quotients.

use vstd::prelude::*;
use crate::vm32::isa::{NREG, NRAM};

verus! {

/// Position of column `k`, cycle `t`.
pub open spec fn io_slot(k: nat, t_len: nat, t: nat) -> nat {
    k * t_len + t
}

/// Number of per-cycle columns.
pub const IO_COLS: usize = 20;

/// Position of the first advice-quotient word.
pub open spec fn io_mq_base(t_len: nat) -> nat {
    IO_COLS as nat * t_len + 2 * NREG as nat + NRAM as nat
}

pub fn io_inst(_t: usize, t: usize) -> (r: usize)
    ensures
        r == io_slot(0, _t as nat, t as nat),
{
    t
}

pub fn io_pc(t_len: usize, t: usize) -> (r: usize)
    requires
        t_len + t <= usize::MAX,
    ensures
        r == io_slot(1, t_len as nat, t as nat),
{
    t_len + t
}

pub fn io_rd1_reg(t_len: usize, t: usize) -> (r: usize)
    requires
        2 * t_len + t <= usize::MAX,
    ensures
        r == io_slot(2, t_len as nat, t as nat),
{
    2 * t_len + t
}

pub fn io_rd1_ver(t_len: usize, t: usize) -> (r: usize)
    requires
        3 * t_len + t <= usize::MAX,
    ensures
        r == io_slot(3, t_len as nat, t as nat),
{
    3 * t_len + t
}

pub fn io_rd1_val(t_len: usize, t: usize) -> (r: usize)
    requires
        4 * t_len + t <= usize::MAX,
    ensures
        r == io_slot(4, t_len as nat, t as nat),
{
    4 * t_len + t
}

pub fn io_rd2_reg(t_len: usize, t: usize) -> (r: usize)
    requires
        5 * t_len + t <= usize::MAX,
    ensures
        r == io_slot(5, t_len as nat, t as nat),
{
    5 * t_len + t
}

pub fn io_rd2_ver(t_len: usize, t: usize) -> (r: usize)
    requires
        6 * t_len + t <= usize::MAX,
    ensures
        r == io_slot(6, t_len as nat, t as nat),
{
    6 * t_len + t
}

pub fn io_rd2_val(t_len: usize, t: usize) -> (r: usize)
    requires
        7 * t_len + t <= usize::MAX,
    ensures
        r == io_slot(7, t_len as nat, t as nat),
{
    7 * t_len + t
}

pub fn io_wr_reg(t_len: usize, t: usize) -> (r: usize)
    requires
        8 * t_len + t <= usize::MAX,
    ensures
        r == io_slot(8, t_len as nat, t as nat),
{
    8 * t_len + t
}

pub fn io_wr_ver(t_len: usize, t: usize) -> (r: usize)
    requires
        9 * t_len + t <= usize::MAX,
    ensures
        r == io_slot(9, t_len as nat, t as nat),
{
    9 * t_len + t
}

pub fn io_wr_val(t_len: usize, t: usize) -> (r: usize)
    requires
        10 * t_len + t <= usize::MAX,
    ensures
        r == io_slot(10, t_len as nat, t as nat),
{
    10 * t_len + t
}

pub fn io_wr_iswrite(t_len: usize, t: usize) -> (r: usize)
    requires
        11 * t_len + t <= usize::MAX,
    ensures
        r == io_slot(11, t_len as nat, t as nat),
{
    11 * t_len + t
}

pub fn io_ld_addr(t_len: usize, t: usize) -> (r: usize)
    requires
        12 * t_len + t <= usize::MAX,
    ensures
        r == io_slot(12, t_len as nat, t as nat),
{
    12 * t_len + t
}

pub fn io_ld_ver(t_len: usize, t: usize) -> (r: usize)
    requires
        13 * t_len + t <= usize::MAX,
    ensures
        r == io_slot(13, t_len as nat, t as nat),
{
    13 * t_len + t
}

pub fn io_ld_val(t_len: usize, t: usize) -> (r: usize)
    requires
        14 * t_len + t <= usize::MAX,
    ensures
        r == io_slot(14, t_len as nat, t as nat),
{
    14 * t_len + t
}

pub fn io_is_load(t_len: usize, t: usize) -> (r: usize)
    requires
        15 * t_len + t <= usize::MAX,
    ensures
        r == io_slot(15, t_len as nat, t as nat),
{
    15 * t_len + t
}

pub fn io_st_addr(t_len: usize, t: usize) -> (r: usize)
    requires
        16 * t_len + t <= usize::MAX,
    ensures
        r == io_slot(16, t_len as nat, t as nat),
{
    16 * t_len + t
}

pub fn io_st_ver(t_len: usize, t: usize) -> (r: usize)
    requires
        17 * t_len + t <= usize::MAX,
    ensures
        r == io_slot(17, t_len as nat, t as nat),
{
    17 * t_len + t
}

pub fn io_st_val(t_len: usize, t: usize) -> (r: usize)
    requires
        18 * t_len + t <= usize::MAX,
    ensures
        r == io_slot(18, t_len as nat, t as nat),
{
    18 * t_len + t
}

pub fn io_is_store(t_len: usize, t: usize) -> (r: usize)
    requires
        19 * t_len + t <= usize::MAX,
    ensures
        r == io_slot(19, t_len as nat, t as nat),
{
    19 * t_len + t
}

/// Distinct (column, cycle) pairs occupy distinct positions.
pub proof fn lemma_io_slots_distinct(k1: nat, t1: nat, k2: nat, t2: nat, t_len: nat)
    requires
        t1 < t_len,
        t2 < t_len,
        (k1, t1) != (k2, t2),
    ensures
        io_slot(k1, t_len, t1) != io_slot(k2, t_len, t2),
{
    if k1 == k2 {
    } else if k1 < k2 {
        assert(k1 * t_len + t_len <= k2 * t_len) by (nonlinear_arith)
            requires
                k1 < k2,
        ;
    } else {
        assert(k2 * t_len + t_len <= k1 * t_len) by (nonlinear_arith)
            requires
                k2 < k1,
        ;
    }
}

} // verus!
