//! Time-ordered tables, slot tables, the AND table and the small loop programs.

use zkvm_slice::slices::combined::{addi_step, program_table};
use zkvm_slice::slices::factorial::{factorial_chain, N as FACT_N, ROUNDS};
use zkvm_slice::slices::full_vm::sum_rounds;
use zkvm_slice::slices::full_vm_store::{rmw_rounds, rmw_trace, ADDR as RMW_ADDR, TS_MAX as RMW_TS};
use zkvm_slice::slices::inst_lookup::{and_lookups, and_table};
use zkvm_slice::slices::mem_arg::{slot_lookups, slot_table};
use zkvm_slice::slices::mem_arg_spice::{spice_trace, stale_claims, ADDR_SPACE, TS_MAX as SPICE_TS};
use zkvm_slice::slices::multi_combined::{self as mc, addi_chain};
use zkvm_slice::slices::multi_inst::{self as mi, enc_xori};
use zkvm_slice::slices::pc_glue::{pc_trace, xori_chain, IMMS, X0};
use zkvm_slice::slices::reg_rw::{run_program, stale_read, NREG, TS_MAX};
use zkvm_slice::slices::time_ordered::{access_lookups, state_table, TimedAccess};

fn hits(table: &[u64], idx: &[Vec<usize>], claims: &[u64]) -> Vec<bool> {
    idx.iter().zip(claims).map(|(i, c)| table[i[0]] == *c).collect()
}

#[test]
fn register_program_trace() {
    let (regs, acc) = run_program();
    assert_eq!(regs, [0, 15, 7, 0, 0, 16, 0, 0]);
    assert_eq!(acc.len(), 11);
    assert_eq!(acc[2], TimedAccess { ts: 2, loc: 1, val: 5, is_write: false });
    assert_eq!(acc[6], TimedAccess { ts: 6, loc: 1, val: 8, is_write: false });
    assert_eq!(acc[9], TimedAccess { ts: 9, loc: 1, val: 15, is_write: false });
    assert_eq!(acc[10], TimedAccess { ts: 10, loc: 5, val: 16, is_write: true });
}

#[test]
fn register_table_and_stale_read() {
    let (_, acc) = run_program();
    let t = state_table(&acc, TS_MAX, NREG);
    assert_eq!(t.len(), 128);
    // x1 at ts 3 is 5, at ts 4 it becomes 8, at ts 8 it becomes 15
    assert_eq!(t[3 * NREG + 1], 5);
    assert_eq!(t[4 * NREG + 1], 8);
    assert_eq!(t[8 * NREG + 1], 15);
    assert_eq!(t[15 * NREG + 5], 16);
    assert_eq!(t[9 * NREG + 5], 0);
    let (idx, claims) = access_lookups(&acc, NREG);
    assert_eq!(idx[9], vec![9 * NREG + 1]);
    assert!(hits(&t, &idx, &claims).iter().all(|h| *h));
    let bad = stale_read(&acc, 1, 15, 5).unwrap();
    assert_eq!(bad[9].val, 5);
    let (bidx, bclaims) = access_lookups(&bad, NREG);
    let h = hits(&t, &bidx, &bclaims);
    assert!(!h[9]);
    assert_eq!(h.iter().filter(|x| !**x).count(), 1);
    assert!(stale_read(&acc, 1, 99, 5).is_none());
    assert!(stale_read(&acc, 5, 16, 0).is_none());
}

#[test]
fn spice_trace_and_stale_load() {
    let trace = spice_trace();
    let t = state_table(&trace, SPICE_TS, ADDR_SPACE);
    assert_eq!(t.len(), 32);
    assert_eq!(&t[0..4], &[0, 0x11, 0, 0]);
    assert_eq!(&t[4..8], &[0, 0x11, 0x55, 0]);
    assert_eq!(&t[16..20], &[0, 0x33, 0x66, 0]);
    assert_eq!(&t[28..32], &[0, 0x33, 0x66, 0]);
    let (idx, claims) = access_lookups(&trace, ADDR_SPACE);
    assert!(hits(&t, &idx, &claims).iter().all(|h| *h));
    let bad = stale_claims(&trace, &claims, 5, 1, 0x11);
    assert_eq!(bad[5], 0x11);
    assert_eq!(&bad[0..5], &claims[0..5]);
    assert_eq!(bad[6], claims[6]);
    let h = hits(&t, &idx, &bad);
    assert!(!h[5]);
}

#[test]
fn later_write_at_same_timestamp_wins() {
    let acc = vec![
        TimedAccess { ts: 1, loc: 0, val: 4, is_write: true },
        TimedAccess { ts: 1, loc: 0, val: 9, is_write: true },
        TimedAccess { ts: 7, loc: 1, val: 3, is_write: true },
    ];
    let t = state_table(&acc, 3, 2);
    assert_eq!(t, vec![0, 0, 9, 0, 9, 0]);
}

#[test]
fn xori_register_trace() {
    let t = xori_chain(X0, &IMMS);
    assert_eq!(t.len(), 4);
    assert_eq!(t[0], X0);
    assert_eq!(t[1], X0 ^ 1);
    assert_eq!(t[2], X0 ^ 1 ^ 3);
    assert_eq!(t[3], 0xa5a5a5a5a5a5a5a5 ^ 7);
    assert_eq!(xori_chain(5, &[]), vec![5]);
}

#[test]
fn combined_step_and_program_table() {
    let (w, pc, x5, pcn, x5n) = addi_step();
    assert_eq!(w, (1u64 << 20) | (5u64 << 15) | (5u64 << 7) | 0x13);
    assert_eq!((pc, x5, pcn, x5n), (0, 0xA5, 4, 0xA6));
    let t = program_table(4, pc, w);
    assert_eq!(t.len(), 16);
    assert_eq!(t[0], w);
    assert!(t[1..].iter().all(|v| *v == 0));
    let t2 = program_table(2, 0x13, 7);
    assert_eq!(t2, vec![0, 0, 0, 7]);
}

#[test]
fn factorial_chain_reaches_five_factorial() {
    let (acc, i) = factorial_chain(FACT_N, ROUNDS);
    assert_eq!(acc, vec![1, 1, 2, 6, 24, 120, 120]);
    assert_eq!(i, vec![1, 2, 3, 4, 5, 6, 6]);
    let (acc0, i0) = factorial_chain(0, 2);
    assert_eq!((acc0, i0), (vec![1, 1, 1], vec![1, 1, 1]));
    let (acc20, _) = factorial_chain(20, 20);
    assert_eq!(acc20[20], 2432902008176640000);
}

#[test]
fn and_table_lookups() {
    let t = and_table(3);
    assert_eq!(t.len(), 64);
    assert_eq!(t[0b111 | (0b011 << 3)], 0b011);
    assert_eq!(t[0b101 | (0b010 << 3)], 0);
    let trace = vec![(0b111u32, 0b011u32), (0b101, 0b010), (0b111, 0b111), (0b110, 0b011)];
    let (idx, claims) = and_lookups(&trace, 3);
    assert_eq!(claims, vec![3, 0, 7, 2]);
    assert_eq!(idx[0], vec![0b011_111]);
    assert!(hits(&t, &idx, &claims).iter().all(|h| *h));
    // operands wider than the table are masked
    let (idx2, claims2) = and_lookups(&[(0xff, 0x0f)], 3);
    assert_eq!((idx2[0][0], claims2[0]), (0b111_111, 7));
}

#[test]
fn store_load_memory_table() {
    let stores = vec![(0x0usize, 0xAAu64), (0x3, 0x0F), (0x5, 0x55), (0xA, 0xFF)];
    let loads = vec![(0x3usize, 0x0Fu64), (0x5, 0x55), (0xA, 0xFF), (0x0, 0xAA)];
    let t = slot_table(&stores, 4);
    assert_eq!(t.len(), 16);
    assert_eq!((t[0], t[3], t[5], t[10], t[1]), (0xAA, 0x0F, 0x55, 0xFF, 0));
    let (sidx, sclaims) = slot_lookups(&stores, 4);
    let (lidx, lclaims) = slot_lookups(&loads, 4);
    assert!(hits(&t, &sidx, &sclaims).iter().all(|h| *h));
    assert!(hits(&t, &lidx, &lclaims).iter().all(|h| *h));
    let mut bad = lclaims.clone();
    bad[0] = 0xEE;
    assert!(!hits(&t, &lidx, &bad)[0]);
    // a later store to the same slot wins; addresses wrap at the table size
    let t2 = slot_table(&[(1, 5), (17, 6)], 4);
    assert_eq!(t2[1], 6);
}

#[test]
fn load_sum_rounds() {
    let m = sum_rounds();
    assert_eq!(m.load_vals, vec![2, 3, 5, 7]);
    assert_eq!(m.x1_chain, vec![0, 2, 5, 10, 17]);
    assert_eq!(m.i_chain, vec![0, 1, 2, 3, 4]);
    assert_eq!(m.pc_chain, vec![0, 4, 8, 12, 16]);
}

#[test]
fn read_modify_write_rounds() {
    let m = rmw_rounds();
    assert_eq!(m.load_vals, vec![2, 2, 4]);
    assert_eq!(m.stores, vec![2, 4, 8]);
    assert_eq!(m.x1_chain, vec![0, 2, 4, 8]);
    let trace = rmw_trace(&m.load_vals, &m.stores);
    assert_eq!(trace.len(), 10);
    let t = state_table(&trace, RMW_TS, RMW_ADDR);
    assert_eq!(&t[0..4], &[2, 2, 2, 2]);
    assert_eq!(t[RMW_ADDR], 2);
    assert_eq!(t[3 * RMW_ADDR], 4);
    assert_eq!(t[7 * RMW_ADDR], 8);
    let (idx, claims) = access_lookups(&trace[RMW_ADDR..], RMW_ADDR);
    assert_eq!(idx.len(), 6);
    assert_eq!(idx[4], vec![4 * RMW_ADDR]);
    assert!(hits(&t, &idx, &claims).iter().all(|h| *h));
}

#[test]
fn straight_line_xori_program() {
    let insts: Vec<u64> = mi::IMMS.iter().map(|&imm| enc_xori(imm)).collect();
    assert_eq!(insts[0], 0x02a2_c293);
    let regs = xori_chain(mi::START_X5, &mi::IMMS);
    assert_eq!(regs, vec![0xA5, 0x8F, 0x80, 0xD3, 0x53]);
    let pcs = pc_trace(mi::START_PC, mi::N, mi::PC_INC);
    assert_eq!(pcs, vec![0x10, 0x14, 0x18, 0x1C, 0x20]);
}

#[test]
fn straight_line_addi_program() {
    let x5 = addi_chain(mc::START_X5, &mc::IMMS);
    assert_eq!(x5, vec![0xA5, 0xA6, 0xA8]);
    assert_eq!(addi_chain(u64::MAX, &[1]), vec![u64::MAX, 0]);
    let pcs = pc_trace(mc::START_PC, mc::N, mc::PC_INC);
    assert_eq!(pcs, vec![0, 4, 8]);
    assert_eq!(pc_trace(0, 4, 1), vec![0, 1, 2, 3, 4]);
}
