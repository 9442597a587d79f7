//! The integrated zkVM trace, the Jolt-shaped rows, and the small slice helpers.

use zkvm_slice::encode::{
    enc_add, enc_addi, enc_beq, enc_lw, enc_sw, word_bimm, word_funct3, word_opcode, word_rs1, word_rs2,
};
use zkvm_slice::slices::full_vm_jolt::{enc, jolt_chains, jolt_fetch_lookups, jolt_program, EXEC_PCS, EXEC_WORDS};
use zkvm_slice::slices::full_vm_multi::{
    data_lookups, fetch_table, log2_ceil, multi_rounds, r_addr, time_table,
};
use zkvm_slice::slices::instr_step::native_xori;
use zkvm_slice::slices::jolt_bridge::{
    accesses_of, lookups_of, memory_tables, Access, JoltTraceRow, RowKind,
};
use zkvm_slice::slices::multi_combined;
use zkvm_slice::slices::multi_inst::enc_xori;
use zkvm_slice::slices::time_ordered::{access_lookups, state_table};
use zkvm_slice::slices::zkvm::{fetch_lookups, mem_accesses, run_program, Op, MEM_AS, TS_MAX};
use zkvm_slice::vm32::bench::{micro, same_inst, setup};
use zkvm_slice::vm32::isa::{jal, xori};

#[test]
fn zkvm_trace() {
    let (prog, rows) = run_program();
    assert_eq!(prog.len(), 16);
    assert_eq!(prog[4], enc_add(1, 1, 2));
    assert_eq!(prog[6], enc_sw(0, 1));
    assert_eq!(prog[7], enc_lw(3, 0));
    assert_eq!(prog[8], enc_beq(2, 5, 0));
    assert_eq!(prog[2], enc_addi(4, 5, 0));
    assert_eq!(prog[9], 0);
    assert_eq!(rows.len(), 4 + 4 * 5);
    let last = rows.last().unwrap();
    assert!(last.taken && last.op == Op::Beq && last.res == 1);
    // x1 = 0+1+2+3 = 6, and each load reads the store before it
    let stores: Vec<u64> = rows.iter().filter(|r| r.op == Op::Sw).map(|r| r.mem_store_val).collect();
    let loads: Vec<u64> = rows.iter().filter(|r| r.op == Op::Lw).map(|r| r.load_val).collect();
    assert_eq!(stores, vec![0, 1, 3, 6]);
    assert_eq!(loads, stores);
    assert_eq!(rows.iter().filter(|r| r.taken).count(), 1);
}

#[test]
fn log2_ceil_values() {
    assert_eq!(log2_ceil(0), 0);
    assert_eq!(log2_ceil(1), 0);
    assert_eq!(log2_ceil(2), 1);
    assert_eq!(log2_ceil(3), 2);
    assert_eq!(log2_ceil(64), 6);
    assert_eq!(log2_ceil(65), 7);
    assert_eq!(r_addr(5), 1);
    assert_eq!(r_addr(4), 0);
}

#[test]
fn small_encoders() {
    assert_eq!(native_xori(0b1100, 0b1010), 0b0110);
    assert_eq!(enc_xori(0x7ff), xori(5, 5, 0x7ff));
    assert_eq!(enc_xori(0x123), 0x1232_c293);
    assert_eq!(multi_combined::enc_addi(1), 0x0012_8293);
    assert_eq!(enc(1, 5), 0x45);
    assert_eq!(enc(2, 4), 0x84);
    assert_eq!(enc(1, 0x41), 0x41);
}

fn jolt_trace() -> Vec<JoltTraceRow> {
    vec![
        JoltTraceRow { kind: RowKind::Store, rs1_value: 0, rs2_value_or_load_addr: 0x22, rd_pre_or_store_pre: 0x11, rd_post_or_store_addr: 3 },
        JoltTraceRow { kind: RowKind::Store, rs1_value: 0, rs2_value_or_load_addr: 0x2A, rd_pre_or_store_pre: 0x22, rd_post_or_store_addr: 3 },
        JoltTraceRow { kind: RowKind::Load, rs1_value: 0, rs2_value_or_load_addr: 3, rd_pre_or_store_pre: 0x2A, rd_post_or_store_addr: 0x2A },
        JoltTraceRow { kind: RowKind::Store, rs1_value: 0, rs2_value_or_load_addr: 0x55, rd_pre_or_store_pre: 0, rd_post_or_store_addr: 5 },
        JoltTraceRow { kind: RowKind::Load, rs1_value: 0, rs2_value_or_load_addr: 5, rd_pre_or_store_pre: 0x55, rd_post_or_store_addr: 0x55 },
    ]
}

#[test]
fn jolt_rows_and_accesses() {
    let tr = jolt_trace();
    assert_eq!(tr[0].ram_address(), 3);
    assert_eq!(tr[0].ram_write_value(), 0x22);
    assert_eq!(tr[0].ram_read_value(), 0x11);
    assert_eq!(tr[0].rd_write_value(), 0);
    assert_eq!(tr[0].rs2_value(), 0x22);
    assert_eq!(tr[2].rs2_value(), 0);
    assert_eq!(tr[2].ram_address(), 3);
    assert_eq!(tr[2].ram_read_value(), 0x2A);
    assert_eq!(tr[2].rd_pre_value(), 0x2A);
    assert_eq!(tr[2].rs1_value(), 0);
    let nm = JoltTraceRow { kind: RowKind::NonMemory, rs1_value: 9, rs2_value_or_load_addr: 8, rd_pre_or_store_pre: 7, rd_post_or_store_addr: 6 };
    assert_eq!((nm.ram_address(), nm.ram_read_value(), nm.ram_write_value()), (0, 0, 0));
    assert_eq!(nm.rd_write_value(), 6);
    let acc = accesses_of(&tr);
    assert_eq!(
        acc,
        vec![
            Access::Write { addr: 3, ver: 0, value: 0x22 },
            Access::Write { addr: 3, ver: 1, value: 0x2A },
            Access::Read { addr: 3, value: 0x2A },
            Access::Write { addr: 5, ver: 0, value: 0x55 },
            Access::Read { addr: 5, value: 0x55 },
        ]
    );
    let (w, t) = memory_tables(&acc, 8, 2);
    assert_eq!(w.len(), 16);
    assert_eq!(w[3 * 2], 0x22);
    assert_eq!(w[3 * 2 + 1], 0x2A);
    assert_eq!(w[5 * 2], 0x55);
    assert_eq!(t, vec![0, 0, 0, 0x2A, 0, 0x55, 0, 0]);
    let (si, sv, li, lv) = lookups_of(&acc, 8, 2);
    assert_eq!(si, vec![vec![6], vec![7], vec![10]]);
    assert_eq!(sv, vec![0x22, 0x2A, 0x55]);
    assert_eq!(li, vec![vec![3], vec![5]]);
    assert_eq!(lv, vec![0x2A, 0x55]);
    // every load reads the read state
    for (i, v) in li.iter().zip(lv.iter()) {
        assert_eq!(t[i[0]], *v);
    }
}

#[test]
fn bench_micro_programs() {
    let s = setup();
    assert_eq!(s.len(), 5);
    assert_eq!(s[4].0, 0x10);
    let m = micro(s.clone());
    assert_eq!(m.len(), 6);
    assert_eq!(m[5], (0x14, jal(0, 0xc4 - 0x14)));
    let p = same_inst(|a| xori(3, 1, a & 0xff));
    assert_eq!(p.len(), 5 + 16 + 1);
    assert_eq!(p[5], (0x14, xori(3, 1, 0x14)));
    assert_eq!(p[20].0, 0x50);
    assert_eq!(p[21], (0x54, jal(0, 0x70)));
}

#[test]
fn multi_address_rounds() {
    let m = multi_rounds();
    assert_eq!(m.load_vals, vec![1, 5, 2, 7]);
    assert_eq!(m.store_vals, vec![2, 7, 9, 16]);
    assert_eq!(m.x1_chain, vec![0, 1, 6, 8, 15]);
    assert_eq!(m.i_chain, vec![0, 1, 2, 3, 4]);
    assert_eq!(m.pc_chain, vec![0, 4, 8, 12, 16]);
    let p = fetch_table();
    assert_eq!(p.len(), 64);
    assert_eq!((p[0], p[4], p[8], p[12], p[16], p[1]), (1, 2, 3, 4, 0, 0));
    let t = time_table(&m.store_vals);
    assert_eq!(t.len(), 32);
    assert_eq!(&t[0..4], &[1, 5, 0, 0]);
    assert_eq!(&t[4..8], &[2, 5, 0, 0]);
    assert_eq!(&t[12..16], &[2, 7, 0, 0]);
    assert_eq!(&t[28..32], &[9, 16, 0, 0]);
    let (idx, claims) = data_lookups(&m.load_vals, &m.store_vals);
    assert_eq!(idx.len(), 8);
    // every lookup finds its value in the state table (loads see the latest write)
    for (i, c) in idx.iter().zip(claims.iter()) {
        assert_eq!(t[i[0]], *c);
    }
    assert_eq!(idx[4], vec![16]);
    assert_eq!(claims[4], 2);
}

#[test]
fn zkvm_memory_accesses_and_fetch_lookups() {
    let (prog, rows) = run_program();
    let acc = mem_accesses(&rows);
    assert_eq!(acc.len(), 8);
    let stores: Vec<u64> = acc.iter().filter(|a| a.is_write).map(|a| a.val).collect();
    assert_eq!(stores, vec![0, 1, 3, 6]);
    for (k, a) in acc.iter().enumerate() {
        assert_eq!(a.ts, k);
        assert_eq!(a.loc, 0);
        assert_eq!(a.is_write, k % 2 == 0);
    }
    let t = state_table(&acc, TS_MAX, MEM_AS);
    let (idx, vals) = access_lookups(&acc, MEM_AS);
    for (i, v) in idx.iter().zip(vals.iter()) {
        assert_eq!(t[i[0]], *v);
    }
    let (fidx, fvals) = fetch_lookups(&prog, &rows);
    assert_eq!(fidx.len(), rows.len());
    assert_eq!(fidx[4], vec![4]);
    assert_eq!(fvals[4], enc_add(1, 1, 2));
    assert_eq!(fvals[rows.len() - 1], enc_beq(2, 5, 0));
}

#[test]
fn jolt_dispatch_skips_the_branched_over_word() {
    let (x1, pc) = jolt_chains(&EXEC_WORDS);
    assert_eq!(x1, vec![0, 5, 5, 6]);
    assert_eq!(pc, vec![0x0, 0x4, 0x10, 0x14]);
    assert_eq!(&pc[..3], &EXEC_PCS[..]);
    let prog = jolt_program();
    assert_eq!(prog.len(), 64);
    assert_eq!(prog[0x8], 0x64);
    let (idx, claims) = jolt_fetch_lookups(&EXEC_PCS, &EXEC_WORDS);
    assert_eq!(idx, vec![0, 4, 16]);
    for c in 0..3 {
        assert_eq!(prog[idx[c]], claims[c]);
    }
    let (_, bad) = jolt_fetch_lookups(&EXEC_PCS, &[0x45, 0x84, enc(1, 200)]);
    assert_ne!(prog[idx[2]], bad[2]);
}

#[test]
fn jolt_branch_not_taken_and_unknown_opcode() {
    let (x1, pc) = jolt_chains(&[0x84]);
    assert_eq!(x1, vec![0, 0]);
    assert_eq!(pc, vec![0, 4]);
    let (x1, pc) = jolt_chains(&[0xC0, 0x41]);
    assert_eq!(x1, vec![0, 1]);
    assert_eq!(pc, vec![0, 4]);
}

#[test]
fn beq_fields_sit_in_their_rv32i_slots() {
    let w = enc_beq(2, 1, 3);
    assert_eq!(word_opcode(w), 0x63);
    assert_eq!(word_funct3(w), 0);
    assert_eq!(word_rs1(w), 2);
    assert_eq!(word_rs2(w), 1);
    assert_eq!(word_bimm(w), 3);
    assert_eq!(w, 0x0611_0063);
}
