//! The small word VMs: the loop programs, write logs, claims and checks.

use zkvm_slice::slices::lookup_claims::{claims_by_columns, slots_fit_check};
use zkvm_slice::slices::word_vm;
use zkvm_slice::slices::word_vm_ram;

#[test]
fn word_vm_loop_program() {
    let init: [u64; 8] = [0, 0, 0, 0, 2, 0, 0, 0];
    let t = word_vm::run_program(init, &[]);
    assert_eq!(t.cycles.len(), 10);
    assert_eq!(t.final_regs[1], 2);
    assert_eq!(t.final_regs[2], 3);
    assert_eq!(t.final_regs[3], 2);
    assert_eq!(t.cycles.last().unwrap().pc, word_vm::HALT_ADDR);
    // x1 is written at versions 1 and 2
    let w1: Vec<(usize, usize, u64)> = t
        .cycles
        .iter()
        .filter_map(|c| c.write.filter(|w| w.reg == 1).map(|w| (w.reg, w.ver, w.val)))
        .collect();
    assert_eq!(w1, vec![(1, 1, 1), (1, 2, 2)]);
    let log = word_vm::build_write_log(&init, &t);
    assert_eq!(log.len(), 32);
    assert_eq!(log[4 * 4], 2); // x4 initial
    assert_eq!(log[4 + 1], 1);
    assert_eq!(log[4 + 2], 2);
    assert_eq!(log[2 * 4 + 2], 3);
    // every read finds its value in the write log
    for c in &t.cycles {
        for r in &c.reads {
            assert_eq!(log[r.reg * 4 + r.ver], r.val);
        }
    }
}

#[test]
fn word_vm_encoders_and_helpers() {
    assert_eq!(word_vm::enc_addi(1, 1, 1), 0x0200_8093);
    assert_eq!(word_vm::enc_add(2, 2, 1), 0x0011_0133);
    assert_eq!(word_vm::enc_beq(5, 5, 0x70), 0xe052_8063);
    assert_eq!(word_vm::sgn7(0x70), -16);
    assert_eq!(word_vm::sgn7(8), 8);
    assert_eq!(word_vm::sgn7(0x7f), -1);
    assert_eq!(word_vm::decode_fields(word_vm::enc_addi(3, 3, 1)), (0x13, 3, 3, 0, 1));
    let prog = word_vm::build_fetch_prog();
    assert_eq!(prog.len(), 32);
    assert_eq!(prog[0x0c], word_vm::enc_beq(3, 4, 8));
    assert_eq!(prog[0x14], word_vm::enc_addi(0, 0, 0));
    assert_eq!(prog[1], 0);
    assert_eq!(word_vm::fetch_word(0x30), 0);
    assert_eq!(word_vm::io_final(10, 1), 129);
}

#[test]
fn word_vm_override_changes_program() {
    let init: [u64; 8] = [0, 0, 0, 0, 2, 0, 0, 0];
    // addi x1,x1,2 at 0: x1 counts by two
    let t = word_vm::run_program(init, &[(0x00, word_vm::enc_addi(1, 1, 2))]);
    assert_eq!(t.final_regs[1], 4);
    assert_eq!(t.final_regs[2], 6);
}

#[test]
fn word_vm_cycle_sum_and_claims() {
    let init: [u64; 8] = [0, 0, 0, 0, 2, 0, 0, 0];
    let t = word_vm::run_program(init, &[]);
    let tl = t.cycles.len();
    // the beq at 0x0c adds x3 + x4
    let c = &t.cycles[3];
    assert_eq!(c.pc, 0x0c);
    assert_eq!(word_vm::cycle_sum(c), 1 + 2);
    // a 12-column inout: inst, pc, rs1 (reg, ver, val), rs2, write (reg, ver, val), flag
    let mut io = vec![0u64; 12 * tl + 16];
    for (k, c) in t.cycles.iter().enumerate() {
        io[k] = c.inst;
        io[tl + k] = c.pc;
        io[2 * tl + k] = c.reads[0].reg as u64;
        io[3 * tl + k] = c.reads[0].ver as u64;
        io[4 * tl + k] = c.reads[0].val;
        io[5 * tl + k] = c.reads[1].reg as u64;
        io[6 * tl + k] = c.reads[1].ver as u64;
        io[7 * tl + k] = c.reads[1].val;
        if let Some(w) = c.write {
            io[8 * tl + k] = w.reg as u64;
            io[9 * tl + k] = w.ver as u64;
            io[10 * tl + k] = w.val;
            io[11 * tl + k] = 1;
        }
    }
    let (fi, fc, ri, rc) = word_vm::claims_from_inout(&io, tl);
    assert_eq!(fi.len(), tl);
    assert_eq!(fi[3], vec![0x0c]);
    assert_eq!(fc[3], word_vm::fetch_word(0x0c));
    let n_writes = t.cycles.iter().filter(|c| c.write.is_some()).count();
    assert_eq!(ri.len(), 2 * tl + n_writes);
    assert_eq!(rc.len(), ri.len());
    let log = word_vm::build_write_log(&init, &t);
    for (i, v) in ri.iter().zip(rc.iter()) {
        assert_eq!(log[i[0]], *v);
    }
    // the stale-read tamper hits the first x2 read at version >= 1
    let (bad, at) = word_vm::tamper_read_val(&io, tl, false);
    assert_eq!(io[2 * tl + at], 2);
    assert!(io[3 * tl + at] >= 1);
    assert_eq!(bad[4 * tl + at], 0);
    assert_ne!(io[4 * tl + at], 0);
    let (_, _, ri2, _, ram_i, ram_c) = claims_by_columns(&io, tl, 4, false);
    assert_eq!(ri2, ri);
    assert!(ram_i.is_empty() && ram_c.is_empty());
}

fn ram_init() -> ([u64; 8], [u64; 64]) {
    let mut init = [0u64; 8];
    init[4] = 3; // loop limit
    init[7] = 20; // base
    let mut mem = [0u64; 64];
    mem[20] = 5;
    mem[21] = 7;
    (init, mem)
}

#[test]
fn word_vm_ram_loop_program() {
    let (init, mem) = ram_init();
    let t = word_vm_ram::run_program(init, &mem, &[], &[]);
    // x6 counts mem[base] up, x1 accumulates mem[base] + mem[base+1] per round
    assert_eq!(t.final_regs[3], 3);
    assert_eq!(t.final_regs[1], (5 + 7) + (6 + 7) + (7 + 7));
    assert_eq!(t.cycles.last().unwrap().pc, word_vm_ram::HALT_ADDR);
    let out = t.cycles.iter().rev().find_map(|c| c.store).unwrap();
    assert_eq!(out.addr, 22);
    assert_eq!(out.val, t.final_regs[1]);
    assert_eq!(t.final_ramver[20], 3);
    assert_eq!(t.final_ramver[22], 1);
    let reg_log = word_vm_ram::build_reg_wlog(&init, &t);
    let ram_log = word_vm_ram::build_ram_wlog(&mem, &t);
    assert_eq!(reg_log.len(), 64);
    assert_eq!(ram_log.len(), 512);
    for c in &t.cycles {
        for r in &c.reads {
            assert_eq!(reg_log[r.reg * 8 + r.ver], r.val);
        }
        if let Some(l) = c.load {
            assert_eq!(ram_log[l.addr * 8 + l.ver], l.val);
        }
    }
    assert!(word_vm_ram::check_init(&ram_log, &mem));
    let mut other = mem;
    other[0] = 1;
    assert!(!word_vm_ram::check_init(&ram_log, &other));
    assert!(word_vm_ram::check_final_output(&ram_log, &t.final_ramver, 22, t.final_regs[1]));
    assert!(!word_vm_ram::check_final_output(&ram_log, &t.final_ramver, 22, 0));
}

#[test]
fn word_vm_ram_load_override() {
    let (init, mem) = ram_init();
    // cycle 0 is `lw x6, 0(x7)`: make it read 100 instead of 5
    let t = word_vm_ram::run_program(init, &mem, &[], &[(0, 1), (0, 100)]);
    assert_eq!(t.cycles[0].load.unwrap().val, 100);
    assert_eq!(t.cycles[3].store.unwrap().val, 101);
}

#[test]
fn word_vm_ram_encoders_and_sums() {
    assert_eq!(word_vm_ram::enc_lw(6, 7, 0), 0x0003_a303);
    assert_eq!(word_vm_ram::enc_sw(6, 7, 0), 0x0063_a023);
    assert_eq!(word_vm_ram::enc_sw(1, 7, 2), 0x0413_a023);
    assert_eq!(word_vm_ram::fetch_word(0x28), word_vm_ram::enc_addi(0, 0, 0));
    let prog = word_vm_ram::build_fetch_prog();
    assert_eq!(prog.len(), 64);
    assert_eq!(prog[0x24], word_vm_ram::enc_sw(1, 7, 2));
    assert_eq!(word_vm_ram::io_fin_ver(10, 3), 219);
    let (init, mem) = ram_init();
    let t = word_vm_ram::run_program(init, &mem, &[], &[]);
    // cycle 2 is `addi x6, x6, 1`
    assert_eq!(word_vm_ram::cycle_alu_sum(&t.cycles[2]), 6);
}

#[test]
fn word_vm_bounded_runs_and_cycle_inout() {
    let init: [u64; 8] = [0, 0, 0, 0, 2, 0, 0, 0];
    let t = word_vm::try_run_program(init, &[]).unwrap();
    let u = word_vm::run_program(init, &[]);
    assert_eq!(t.cycles.len(), u.cycles.len());
    assert_eq!(t.final_regs, u.final_regs);
    // `beq x5, x5, 0` at 0x10 spins forever
    assert!(word_vm::try_run_program(init, &[(0x10, word_vm::enc_beq(5, 5, 0))]).is_none());
    // a write to x9 names no register of this machine
    assert!(word_vm::try_run_program(init, &[(0x00, word_vm::enc_addi(9, 1, 1))]).is_none());
    // cycle 0 is `addi x1, x1, 1`: x1 goes from version 0 to 1
    let v = word_vm::cycle_inout(&t.cycles[0]);
    assert_eq!(v.len(), 12);
    assert_eq!(v[0], word_vm::enc_addi(1, 1, 1));
    assert_eq!(v[1], 0);
    assert_eq!((v[2], v[3], v[4]), (1, 0, 0));
    assert_eq!((v[8], v[9], v[10], v[11]), (1, 1, 1, 1));
    // cycle 3 is the untaken `beq x3, x4, 8`: no write, rd field 0 at its current version
    let b = word_vm::cycle_inout(&t.cycles[3]);
    assert_eq!((b[8], b[11]), (0, 0));
    assert_eq!(b[10], word_vm::cycle_sum(&t.cycles[3]));
}

#[test]
fn word_vm_ram_bounded_runs_and_cycle_inout() {
    let (init, mem) = ram_init();
    let t = word_vm_ram::try_run_program(init, &mem, &[], &[]).unwrap();
    let u = word_vm_ram::run_program(init, &mem, &[], &[]);
    assert_eq!(t.cycles.len(), u.cycles.len());
    assert_eq!(t.final_regs, u.final_regs);
    assert_eq!(t.final_ramver, u.final_ramver);
    assert!(word_vm_ram::try_run_program(init, &mem, &[(0x00, word_vm::enc_beq(5, 5, 0))], &[]).is_none());
    // cycle 0 is `lw x6, 0(x7)`: a load of word 20 at version 0
    let v = word_vm_ram::cycle_inout(&t.cycles[0]);
    assert_eq!(v.len(), 20);
    assert_eq!((v[12], v[13], v[14], v[15]), (20, 0, 5, 1));
    assert_eq!(v[19], 0);
    assert_eq!(v[18], t.cycles[0].reads[1].val);
    let s = t.cycles.iter().position(|c| c.store.is_some()).unwrap();
    let w = word_vm_ram::cycle_inout(&t.cycles[s]);
    assert_eq!(w[19], 1);
    assert_eq!(w[16], t.cycles[s].store.unwrap().addr as u64);
    assert_eq!(w[15], 0);
}

#[test]
fn run_time_log_and_index_checks() {
    let init: [u64; 8] = [0, 0, 0, 0, 2, 0, 0, 0];
    let mut t = word_vm::run_program(init, &[]);
    assert!(word_vm::writes_fit_check(&t));
    let k = t.cycles.iter().position(|c| c.write.is_some()).unwrap();
    t.cycles[k].write.as_mut().unwrap().ver = word_vm::NREG * word_vm::VER_MAX;
    assert!(!word_vm::writes_fit_check(&t));

    let (rinit, mem) = ram_init();
    let mut r = word_vm_ram::run_program(rinit, &mem, &[], &[]);
    assert!(word_vm_ram::logs_fit_check(&r));
    let k = r.cycles.iter().position(|c| c.store.is_some()).unwrap();
    r.cycles[k].store.as_mut().unwrap().addr = word_vm_ram::NRAM;
    assert!(!word_vm_ram::logs_fit_check(&r));

    let io = vec![0u64; 12 * 2];
    assert!(slots_fit_check(&io, 2, 4, false));
    assert!(!slots_fit_check(&io[..23], 2, 4, false));
    assert!(!slots_fit_check(&io, 2, 4, true));
    let mut big = io.clone();
    big[2 * 2 + 1] = u64::MAX; // rs1 register column, cycle 1
    assert!(!slots_fit_check(&big, 2, 4, false));
    assert!(slots_fit_check(&big, 2, 1, false));
}
