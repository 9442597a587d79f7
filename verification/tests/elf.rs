//! ELF32 loading: images, tail padding, section words, and every error.

use zkvm_slice::slices::vm_ram_sort::{addi, lw, run_program_big, sw, K};
use zkvm_slice::vm32::elf::{elf_fetch, elf_word_at, parse_elf32};

fn put16(b: &mut Vec<u8>, at: usize, v: u16) {
    b[at..at + 2].copy_from_slice(&v.to_le_bytes());
}

fn put32(b: &mut Vec<u8>, at: usize, v: u32) {
    b[at..at + 4].copy_from_slice(&v.to_le_bytes());
}

/// ELF header + program headers for `segs` = (vaddr, bytes, flags), data after.
fn build_elf(entry: u32, segs: &[(u32, Vec<u8>, u32)]) -> Vec<u8> {
    let phoff = 52usize;
    let data_off = phoff + 32 * segs.len();
    let mut b = vec![0u8; data_off];
    b[0..4].copy_from_slice(&[0x7f, b'E', b'L', b'F']);
    b[4] = 1;
    b[5] = 1;
    b[6] = 1;
    put16(&mut b, 16, 2);
    put16(&mut b, 18, 0xf3);
    put32(&mut b, 20, 1);
    put32(&mut b, 24, entry);
    put32(&mut b, 28, phoff as u32);
    put32(&mut b, 32, 0);
    put16(&mut b, 40, 52);
    put16(&mut b, 42, 32);
    put16(&mut b, 44, segs.len() as u16);
    put16(&mut b, 46, 40);
    put16(&mut b, 48, 0);
    let mut off = data_off;
    for (i, (vaddr, bytes, flags)) in segs.iter().enumerate() {
        let p = phoff + 32 * i;
        put32(&mut b, p, 1);
        put32(&mut b, p + 4, off as u32);
        put32(&mut b, p + 8, *vaddr);
        put32(&mut b, p + 16, bytes.len() as u32);
        put32(&mut b, p + 20, bytes.len() as u32);
        put32(&mut b, p + 24, *flags);
        off += bytes.len();
    }
    for (_, bytes, _) in segs {
        b.extend_from_slice(bytes);
    }
    b
}

fn words_le(ws: &[u32]) -> Vec<u8> {
    ws.iter().flat_map(|w| w.to_le_bytes()).collect()
}

#[test]
fn loads_segments_with_tail_padding() {
    let code = [addi(1, 0, 7) as u32, 0x73];
    let mut text_bytes = words_le(&code);
    text_bytes.extend_from_slice(&[0xaa, 0xbb]);
    let data_bytes = words_le(&[0x1234_5678]);
    let elf = build_elf(0, &[(0, text_bytes, 5), (0x100, data_bytes, 6)]);
    let img = parse_elf32(&elf).unwrap();
    assert_eq!(img.entry, 0);
    assert_eq!(img.text, vec![code[0], 0x73, 0xbbaa]);
    assert_eq!(img.init_words, vec![(0, code[0]), (1, 0x73), (2, 0xbbaa), (0x40, 0x1234_5678)]);
}

#[test]
fn entry_extends_image() {
    let elf = build_elf(0x40, &[(0, words_le(&[1, 2]), 5)]);
    let img = parse_elf32(&elf).unwrap();
    assert_eq!(img.entry, 0x40);
    assert_eq!(img.text.len(), 0x11);
    assert_eq!(img.text[0], 1);
    assert_eq!(img.text[1], 2);
    assert!(img.text[2..].iter().all(|&w| w == 0x73));
    assert_eq!(img.init_words, vec![(0, 1), (1, 2)]);
}

#[test]
fn data_inside_image_overrides_default() {
    // a non-executable segment inside the image range overwrites its words
    let elf = build_elf(0x20, &[(0, words_le(&[1]), 5), (4, words_le(&[9]), 6)]);
    let img = parse_elf32(&elf).unwrap();
    assert_eq!(img.text.len(), 9);
    assert_eq!(img.text[1], 9);
    // the data word below the image end is initial RAM too
    assert_eq!(img.init_words, vec![(0, 1), (1, 9)]);
}

#[test]
fn text_sections_are_loaded() {
    // no executable segment; one allocated executable PROGBITS section at 0x10
    let mut elf = build_elf(0, &[]);
    let sec_data = words_le(&[0xdead_beef, 0x0bad_f00d]);
    let data_off = elf.len();
    elf.extend_from_slice(&sec_data);
    let shoff = elf.len();
    elf.extend_from_slice(&vec![0u8; 40]);
    put32(&mut elf, 32, shoff as u32);
    put16(&mut elf, 48, 1);
    put32(&mut elf, shoff + 4, 1);
    put32(&mut elf, shoff + 8, 0x6);
    put32(&mut elf, shoff + 12, 0x10);
    put32(&mut elf, shoff + 16, data_off as u32);
    put32(&mut elf, shoff + 20, 8);
    let img = parse_elf32(&elf).unwrap();
    assert_eq!(img.text.len(), 6);
    assert_eq!(img.text[4], 0xdead_beef);
    assert_eq!(img.text[5], 0x0bad_f00d);
    assert_eq!(img.text[0], 0x73);
}

#[test]
fn errors() {
    assert_eq!(parse_elf32(&[]).err().unwrap(), "elf: truncated");
    assert_eq!(parse_elf32(&[0x7f, b'E', b'L']).err().unwrap(), "elf: truncated");
    assert_eq!(parse_elf32(&[0x7f, b'E', b'L', b'G', 1, 1]).err().unwrap(), "elf: bad magic");
    assert_eq!(parse_elf32(&[0x7f, b'E', b'L', b'F']).err().unwrap(), "elf: truncated");
    assert_eq!(parse_elf32(&[0x7f, b'E', b'L', b'F', 2, 1]).err().unwrap(), "elf: not ELF32");
    assert_eq!(parse_elf32(&[0x7f, b'E', b'L', b'F', 1]).err().unwrap(), "elf: truncated");
    assert_eq!(parse_elf32(&[0x7f, b'E', b'L', b'F', 1, 2]).err().unwrap(), "elf: not little-endian");
    let elf = build_elf(0, &[(0, words_le(&[1, 2]), 5)]);
    assert_eq!(parse_elf32(&elf[..40]).err().unwrap(), "elf: truncated");
    // program header present, segment bytes cut off
    assert_eq!(parse_elf32(&elf[..elf.len() - 1]).err().unwrap(), "elf: truncated");
    // program header itself cut off
    assert_eq!(parse_elf32(&elf[..60]).err().unwrap(), "elf: truncated");
}

#[test]
fn elf_program_runs() {
    let code = [
        addi(1, 0, 7) as u32,
        sw(1, 0, 3) as u32,
        lw(2, 0, 3) as u32,
        0x73,
    ];
    let elf = build_elf(0, &[(0, words_le(&code), 5)]);
    let img = parse_elf32(&elf).unwrap();
    let f = elf_fetch(&img);
    assert_eq!(f(0), code[0] as u64);
    assert_eq!(f(0x1000), 0x73);
    assert_eq!(elf_word_at(&img, 4), code[1] as u64);
    assert_eq!(elf_word_at(&img, 0x1000), 0x73);
    let t = run_program_big(&vec![0u32; K], &[], f);
    assert_eq!(t.cycles.len(), 4);
    assert_eq!(t.final_regs[2], 7);
    assert_eq!(t.final_mem[3], 7);
}
