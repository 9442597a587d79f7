//! The big-RAM word VM: encoders, the built-in sorting program, event rows.

use zkvm_slice::slices::ram_sort::{Visit, K_FINAL, K_INIT, K_READ, K_WRITE};
use zkvm_slice::slices::vm_ram_sort::{
    add, addi, and, bge, bgeu, blt, bltu, build_sorted, cycle_columns, event_rows, jal, lui, lw, or, prog_fetch, prog_image,
    r_enc, run_program_big, try_run_program_big, sll, srl, sub, sw, words_sorted, xor, BASE, K, N, OUT_ADDR, PAD_ADDR,
};

#[test]
fn encoders_match_riscv() {
    assert_eq!(addi(1, 2, -1), 0xfff1_0093);
    assert_eq!(addi(15, 15, 0x7ff), 0x7ff7_8793);
    assert_eq!(lui(15, 0x12345), 0x1234_57b7);
    assert_eq!(lw(17, 16, 0), 0x0008_2883);
    assert_eq!(lw(18, 16, 1), 0x0018_2903);
    assert_eq!(sw(18, 16, 0), 0x0128_2023);
    assert_eq!(sw(17, 16, 1), 0x0118_20a3);
    assert_eq!(add(16, 16, 14), 0x00e8_0833);
    assert_eq!(sub(15, 15, 12), 0x40c7_87b3);
    assert_eq!(sll(1, 2, 3), 0x0031_10b3);
    assert_eq!(srl(1, 2, 3), 0x0031_50b3);
    assert_eq!(xor(1, 2, 3), 0x0031_40b3);
    assert_eq!(or(1, 2, 3), 0x0031_60b3);
    assert_eq!(and(1, 2, 3), 0x0031_70b3);
    assert_eq!(r_enc(0, 0x20, 1, 2, 3), 0x4031_00b3);
    assert_eq!(blt(1, 2, 8), 0x0020_c463);
    assert_eq!(bge(1, 2, 8), 0x0020_d463);
    assert_eq!(bltu(1, 2, 8), 0x0020_e463);
    assert_eq!(bgeu(12, 15, 72), 0x04f6_7463);
    assert_eq!(jal(0, -52), 0xfcdf_f06f);
    assert_eq!(jal(1, 8), 0x0080_00ef);
}

#[test]
fn program_layout() {
    // data segment: 5 words per element, then the 22-word sort loop
    assert_eq!(prog_fetch(0), lui(15, 0));
    assert_eq!(prog_fetch(4), addi(15, 15, 13));
    assert_eq!(prog_fetch(8), lui(16, 1));
    assert_eq!(prog_fetch(12), addi(16, 16, 0));
    assert_eq!(prog_fetch(16), sw(15, 16, 0));
    // element 1: 7932 = 0x1efc -> lui 2, addi -260
    assert_eq!(prog_fetch(20), lui(15, 2));
    assert_eq!(prog_fetch(24), addi(15, 15, 0xefc - 0x1000));
    let w = 5 * N as u64;
    assert_eq!(prog_fetch(4 * w), lui(12, 0));
    assert_eq!(prog_fetch(4 * (w + 21)), 0x73);
    assert_eq!(prog_fetch(4 * (w + 22)), 0x73);
    assert_eq!(prog_fetch(0xffff_fff0), 0x73);
}

fn data(n: usize) -> Vec<u32> {
    (0..n).map(|i| ((i as u64 * 7919 + 13) % 9973) as u32).collect()
}

#[test]
fn builtin_program_sorts() {
    let t = run_program_big(&vec![0u32; K], &[], prog_fetch);
    let got: Vec<u32> = t.final_mem[BASE as usize..BASE as usize + N].to_vec();
    let mut exp = data(N);
    exp.sort();
    assert_eq!(got, exp);
    assert!(got.windows(2).all(|w| w[0] <= w[1]));
    assert_eq!(t.final_mem[OUT_ADDR as usize], exp[0]);
    let last = t.cycles.last().unwrap();
    assert_eq!(last.inst & 0x7f, 0x73);
    assert_eq!(t.final_regs[0], 0);
    println!("cycles = {}", t.cycles.len());
}

#[test]
fn word_overrides_take_precedence() {
    // replace the first data word's lui by `addi x15, x0, 5`: element 0 becomes 5 + 13
    let t = run_program_big(&vec![0u32; K], &[(0, addi(15, 0, 5))], prog_fetch);
    let mut exp = data(N);
    exp[0] = 5 + 13;
    exp.sort();
    assert_eq!(t.final_mem[BASE as usize..BASE as usize + N].to_vec(), exp);
}

#[test]
fn small_program_semantics() {
    // x1 = 7; mem[3] = x1; x2 = mem[3]; x3 = x1 - x2; jal x4, +8 (skips one word); ecall
    let prog = vec![
        addi(1, 0, 7),
        sw(1, 0, 3),
        lw(2, 0, 3),
        sub(3, 1, 2),
        jal(4, 8),
        addi(5, 0, 1),
        0x73,
    ];
    let fetch = move |pc: u64| -> u64 {
        let i = (pc >> 2) as usize;
        if i < prog.len() { prog[i] } else { 0x73 }
    };
    let t = run_program_big(&vec![0u32; K], &[], fetch);
    assert_eq!(t.cycles.len(), 6);
    assert_eq!(t.final_regs[1], 7);
    assert_eq!(t.final_regs[2], 7);
    assert_eq!(t.final_regs[3], 0);
    assert_eq!(t.final_regs[4], 20);
    assert_eq!(t.final_regs[5], 0);
    assert_eq!(t.final_mem[3], 7);
    let st = t.cycles[1].store.unwrap();
    assert_eq!((st.addr, st.ver, st.val), (3, 1, 7));
    let ld = t.cycles[2].load.unwrap();
    assert_eq!((ld.addr, ld.ver, ld.val), (3, 1, 7));
    // the write record carries the version before the write
    let wr = t.cycles[0].write.as_ref().unwrap();
    assert_eq!((wr.reg, wr.ver, wr.val), (1, 0, 7));
}

#[test]
fn event_rows_and_sorted_stream() {
    let t = run_program_big(&vec![0u32; K], &[], prog_fetch);
    let (rows, side) = event_rows(&t);
    assert_eq!(rows.len(), t.cycles.len());
    for (i, r) in rows.iter().enumerate() {
        assert_eq!(r.ts, i as u64);
        let c = &t.cycles[i];
        match (c.load, c.store) {
            (Some(l), _) => assert_eq!(*r, Visit { addr: l.addr as u64, ts: i as u64, val: l.val as u64, kind: K_READ }),
            (None, Some(s)) => assert_eq!(*r, Visit { addr: s.addr as u64, ts: i as u64, val: s.val as u64, kind: K_WRITE }),
            (None, None) => assert_eq!(*r, Visit { addr: PAD_ADDR, ts: i as u64, val: 0, kind: K_INIT }),
        }
    }
    let sorted = build_sorted(&rows);
    assert_eq!(sorted.len(), side.len());
    let mut a: Vec<(u64, u64, u64, u64)> = sorted.iter().map(|x| (x.addr, x.ts, x.val, x.kind)).collect();
    let mut b: Vec<(u64, u64, u64, u64)> = side.iter().map(|x| (x.addr, x.ts, x.val, x.kind)).collect();
    a.sort();
    b.sort();
    assert_eq!(a, b);
    // the honest stream passes the circuit's checks
    assert_eq!(sorted[0].kind, K_INIT);
    for w in sorted.windows(2) {
        let (x, y) = (w[0], w[1]);
        assert!(x.addr <= y.addr);
        if x.addr == y.addr {
            assert!(x.ts < y.ts);
            if y.kind == K_READ || y.kind == K_FINAL {
                assert_eq!(x.val, y.val);
            }
        } else {
            assert_eq!(y.kind, K_INIT);
        }
    }
    // the final row at OUT_ADDR carries the smallest sorted word
    let fin = sorted.iter().find(|x| x.addr == OUT_ADDR && x.kind == K_FINAL).unwrap();
    assert_eq!(fin.val, t.final_mem[OUT_ADDR as usize] as u64);
    assert_eq!(fin.ts, t.cycles.len() as u64 + 1);
}

#[test]
fn build_sorted_small() {
    let rows = vec![
        Visit { addr: PAD_ADDR, ts: 0, val: 0, kind: K_INIT },
        Visit { addr: 7, ts: 1, val: 3, kind: K_WRITE },
        Visit { addr: 7, ts: 2, val: 3, kind: K_READ },
    ];
    let s = build_sorted(&rows);
    assert_eq!(
        s,
        vec![
            Visit { addr: 7, ts: 0, val: 0, kind: K_INIT },
            Visit { addr: 7, ts: 1, val: 3, kind: K_WRITE },
            Visit { addr: 7, ts: 2, val: 3, kind: K_READ },
            Visit { addr: 7, ts: 4, val: 3, kind: K_FINAL },
            Visit { addr: PAD_ADDR, ts: 0, val: 0, kind: K_INIT },
            Visit { addr: PAD_ADDR, ts: 4, val: 0, kind: K_FINAL },
        ]
    );
}

#[test]
fn cycle_columns_and_output_check() {
    let t = run_program_big(&vec![0u32; K], &[], prog_fetch);
    // cycle 4 of the data segment is `sw x15, 0(x16)`
    let c = &t.cycles[4];
    let v = cycle_columns(c);
    assert_eq!(v.len(), 15);
    assert_eq!(v[0], c.inst);
    assert_eq!(v[1], 16);
    assert_eq!(v[12], BASE);
    assert_eq!(v[13], 13);
    assert_eq!(v[14], 1);
    assert_eq!(v[11], 0);
    assert_eq!(v[8], 0);
    // cycle 0 is `lui x15, 0`: writes x15 with 0
    let v0 = cycle_columns(&t.cycles[0]);
    assert_eq!((v0[6], v0[7], v0[8]), (15, 0, 1));
    assert!(words_sorted(&t.final_mem, BASE as usize, N));
    assert!(!words_sorted(&[3, 1], 0, 2));
    assert!(words_sorted(&[3], 0, 1));
}

#[test]
fn bounded_big_run_stops_on_a_loop() {
    // `jal x0, 0` at every address never reaches a system instruction
    let looping = |_pc: u64| -> u64 { jal(0, 0) };
    assert!(try_run_program_big(&vec![0u32; K], &[], looping).is_none());
    let t = try_run_program_big(&vec![0u32; K], &[], prog_fetch).unwrap();
    let u = run_program_big(&vec![0u32; K], &[], prog_fetch);
    assert_eq!(t.cycles.len(), u.cycles.len());
    assert_eq!(t.final_mem, u.final_mem);
}

#[test]
fn program_image_for_other_sizes() {
    // the built-in program is the image for `N` words
    for slot in 0..200usize {
        assert_eq!(prog_image(slot, N), prog_fetch((slot as u64) << 2));
    }
    // sorting 2 words: a shorter data segment, `ecall` past the end
    let t = run_program_big(&vec![0u32; K], &[], |pc: u64| prog_image((pc >> 2) as usize, 2));
    assert!(t.final_mem[BASE as usize] <= t.final_mem[BASE as usize + 1]);
    assert_eq!(prog_image(100_000, 2), 0x73);
}
