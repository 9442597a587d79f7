//! Native runs of the word-VM program images.

use zkvm_slice::slices::word_vm32::{bubble_words, fetch_word};
use zkvm_slice::vm32::interp::{run_program, try_run_program};
use zkvm_slice::vm32::pipeline::{
    build_fetch_prog, build_ram_wlog, build_reg_wlog, claim_slots_fit_check, inout_from_trace, trace_fits_logs,
};
use zkvm_slice::vm32::isa::jal;
use zkvm_slice::vm32::isa::{NRAM, VER_MAX};

#[test]
fn word_vm32_native() {
    let mut init = [0u32; NRAM];
    init[24] = 0xdeadbeef;
    let t = run_program(&init, &[], &[], fetch_word);
    println!(
        "cycles={} final x1={:08x} x2={:08x} x3={:08x} x4={:08x} x5={:08x} x6={:08x} x7={:08x} x8={:08x} x9={:08x} x10={:08x}",
        t.cycles.len(),
        t.final_regs[1],
        t.final_regs[2],
        t.final_regs[3],
        t.final_regs[4],
        t.final_regs[5],
        t.final_regs[6],
        t.final_regs[7],
        t.final_regs[8],
        t.final_regs[9],
        t.final_regs[10]
    );
}

#[test]
fn word_vm32_bubble_native() {
    let mut init = [0u32; NRAM];
    let data = [0x80000000u32, 5, 5, 0xffffffff, 3, 3, 0x80000000, 1];
    for (i, &v) in data.iter().enumerate() {
        init[i] = v;
    }
    let mut exp: Vec<u32> = data.to_vec();
    exp.sort();
    let nt = run_program(&init, &bubble_words(), &[], fetch_word);
    let got: Vec<u32> = nt.final_mem[0..8].to_vec();
    assert_eq!(got, exp, "native bubblesort must produce the sorted array");
    // the RAM write log's top row of each word is the sorted value
    let w = build_ram_wlog(&init, &nt);
    for a in 0..NRAM {
        assert_eq!(w[a * VER_MAX] as u32, init[a]);
        assert_eq!(w[a * VER_MAX + nt.final_ramver[a]] as u32, nt.final_mem[a]);
    }
    for a in 0..8 {
        assert_eq!(w[a * VER_MAX + nt.final_ramver[a]] as u32, exp[a], "ram_wlog top row addr {a}");
    }
}

#[test]
fn bounded_run_stops_on_a_loop() {
    let init = [0u32; NRAM];
    // `jal x0, 0` at every address never reaches the halt address
    let looping = |_pc: u64| -> u64 { jal(0, 0) };
    assert!(try_run_program(&init, &[], &[], looping).is_none());
    let t = try_run_program(&init, &[], &[], fetch_word).unwrap();
    let u = run_program(&init, &[], &[], fetch_word);
    assert_eq!(t.cycles.len(), u.cycles.len());
    assert_eq!(t.final_regs, u.final_regs);
}

#[test]
fn fetch_table_keeps_the_executed_override() {
    let p = build_fetch_prog(|pc: u64| pc + 1000, &[(0, 1), (0, 2), (0x30, 9)]);
    assert_eq!(p.len(), 256);
    assert_eq!(p[0], 1);
    assert_eq!(p[0x30], 9);
    assert_eq!(p[4], 1004);
    assert_eq!(p[0xc4], 0xc4 + 1000);
    assert_eq!(p[0xc8], 0);
    assert_eq!(p[5], 0);
}

#[test]
fn run_time_trace_and_index_checks() {
    let mut init = [0u32; NRAM];
    init[24] = 0xdeadbeef;
    let mut t = run_program(&init, &[], &[], fetch_word);
    assert!(trace_fits_logs(&t));
    let regs = [0u32; 32];
    let io = inout_from_trace(&regs, &t);
    assert!(claim_slots_fit_check(&io, t.cycles.len()));
    assert!(!claim_slots_fit_check(&io[..20 * t.cycles.len() - 1], t.cycles.len()));
    // the register write log keeps every write at its slot; x0's row stays zero
    let w = build_reg_wlog(&regs, &t);
    for c in &t.cycles {
        if let Some(wr) = &c.write {
            assert_eq!(w[wr.reg * VER_MAX + wr.ver], wr.val as u64);
        }
    }
    assert!(w[0..VER_MAX].iter().all(|&v| v == 0));
    let k = t.cycles.iter().position(|c| c.write.is_some()).unwrap();
    t.cycles[k].write.as_mut().unwrap().ver = 32 * VER_MAX;
    assert!(!trace_fits_logs(&t));
}
