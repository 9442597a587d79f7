//! Minimal little-endian ELF32 loader for RV32 programs.
//!
//! Reads the ELF header and the program headers, folds every `PT_LOAD`
//! segment with a non-zero file size into word-addressed memory (4-byte
//! chunks, the tail zero-padded), then folds the allocated executable
//! `PROGBITS` sections the same way (when the section table lies inside the
//! file). Executable words form the fetch image `text` (indexed by
//! `byte_addr >> 2`, `ecall` where nothing was loaded); the remaining words
//! become the initial RAM contents.

use vstd::prelude::*;

verus! {

/// A loaded program.
pub struct ElfImage {
    /// Entry point (byte address).
    pub entry: u64,
    /// Word-addressed fetch image, indexed by `byte_addr >> 2`, long enough
    /// to cover the highest executable word and the entry point.
    pub text: Vec<u32>,
    /// Initial RAM contents: `(word_index, value)` for every word of the
    /// loaded `PT_LOAD` segments (`.data` included), in load order. Unlisted
    /// words stay 0.
    pub init_words: Vec<(usize, u32)>,
}

pub const PT_LOAD: u32 = 1;
pub const SHT_PROGBITS: u32 = 1;
pub const SHF_EXECINSTR: u32 = 0x4;
pub const SHF_ALLOC: u32 = 0x2;
/// The word the fetch image holds where nothing was loaded (`ecall`).
pub const HALT_WORD: u32 = 0x0000_0073;

// ---------------------------------------------------------------------------
// The format
// ---------------------------------------------------------------------------

pub open spec fn le16(b: Seq<u8>, p: int) -> int {
    b[p] + 256 * b[p + 1]
}

pub open spec fn le32(b: Seq<u8>, p: int) -> int {
    le16(b, p) + 65536 * le16(b, p + 2)
}

pub open spec fn hdr_entry(b: Seq<u8>) -> int {
    le32(b, 24)
}

pub open spec fn hdr_phoff(b: Seq<u8>) -> int {
    le32(b, 28)
}

pub open spec fn hdr_shoff(b: Seq<u8>) -> int {
    le32(b, 32)
}

pub open spec fn hdr_phentsize(b: Seq<u8>) -> int {
    le16(b, 42)
}

pub open spec fn hdr_phnum(b: Seq<u8>) -> int {
    le16(b, 44)
}

pub open spec fn hdr_shentsize(b: Seq<u8>) -> int {
    le16(b, 46)
}

pub open spec fn hdr_shnum(b: Seq<u8>) -> int {
    le16(b, 48)
}

/// Offset of program header `i`.
pub open spec fn ph_at(b: Seq<u8>, i: int) -> int {
    hdr_phoff(b) + i * hdr_phentsize(b)
}

pub open spec fn p_type(b: Seq<u8>, i: int) -> int {
    le32(b, ph_at(b, i))
}

pub open spec fn p_offset(b: Seq<u8>, i: int) -> int {
    le32(b, ph_at(b, i) + 4)
}

pub open spec fn p_vaddr(b: Seq<u8>, i: int) -> int {
    le32(b, ph_at(b, i) + 8)
}

pub open spec fn p_filesz(b: Seq<u8>, i: int) -> int {
    le32(b, ph_at(b, i) + 16)
}

pub open spec fn p_flags(b: Seq<u8>, i: int) -> int {
    le32(b, ph_at(b, i) + 24)
}

/// Program header `i` describes a segment that is loaded.
pub open spec fn ph_loaded(b: Seq<u8>, i: int) -> bool {
    p_type(b, i) == PT_LOAD && p_filesz(b, i) != 0
}

/// A loaded segment marked executable (`PF_X`).
pub open spec fn ph_exec(b: Seq<u8>, i: int) -> bool {
    (p_flags(b, i) as u32) & 1 != 0
}

/// Program header `i` lies in the file, and so does its segment when loaded.
pub open spec fn ph_ok(b: Seq<u8>, i: int) -> bool {
    &&& ph_at(b, i) + 28 <= b.len()
    &&& ph_loaded(b, i) ==> p_offset(b, i) + p_filesz(b, i) <= b.len()
}

/// Offset of section header `i`.
pub open spec fn sh_at(b: Seq<u8>, i: int) -> int {
    hdr_shoff(b) + i * hdr_shentsize(b)
}

pub open spec fn sh_type(b: Seq<u8>, i: int) -> int {
    le32(b, sh_at(b, i) + 4)
}

pub open spec fn sh_flags(b: Seq<u8>, i: int) -> int {
    le32(b, sh_at(b, i) + 8)
}

pub open spec fn sh_addr(b: Seq<u8>, i: int) -> int {
    le32(b, sh_at(b, i) + 12)
}

pub open spec fn sh_offset(b: Seq<u8>, i: int) -> int {
    le32(b, sh_at(b, i) + 16)
}

pub open spec fn sh_size(b: Seq<u8>, i: int) -> int {
    le32(b, sh_at(b, i) + 20)
}

/// Section `i` is allocated executable `PROGBITS`.
pub open spec fn sh_text(b: Seq<u8>, i: int) -> bool {
    &&& sh_type(b, i) == SHT_PROGBITS
    &&& (sh_flags(b, i) as u32) & SHF_EXECINSTR != 0
    &&& (sh_flags(b, i) as u32) & SHF_ALLOC != 0
}

/// The section table is read: it is non-empty and lies in the file.
pub open spec fn sections_read(b: Seq<u8>) -> bool {
    hdr_shnum(b) > 0 && hdr_shoff(b) + hdr_shnum(b) * hdr_shentsize(b) <= b.len()
}

/// Section header `i` lies in the file, and so do the bytes of a text section.
pub open spec fn sh_ok(b: Seq<u8>, i: int) -> bool {
    &&& sh_at(b, i) + 24 <= b.len()
    &&& sh_text(b, i) ==> sh_offset(b, i) + sh_size(b, i) <= b.len()
}

/// The file is long enough for everything the loader reads.
pub open spec fn elf_complete(b: Seq<u8>) -> bool {
    &&& b.len() >= 52
    &&& forall|i: int| 0 <= i < hdr_phnum(b) ==> ph_ok(b, i)
    &&& sections_read(b) ==> forall|i: int| 0 <= i < hdr_shnum(b) ==> sh_ok(b, i)
}

/// The error the loader reports for `b`, or `None` when it loads.
pub open spec fn elf_error(b: Seq<u8>) -> Option<Seq<char>> {
    if b.len() < 4 {
        Some("elf: truncated"@)
    } else if b[0] != 0x7f || b[1] != 0x45 || b[2] != 0x4c || b[3] != 0x46 {
        Some("elf: bad magic"@)
    } else if b.len() < 5 {
        Some("elf: truncated"@)
    } else if b[4] != 1 {
        Some("elf: not ELF32"@)
    } else if b.len() < 6 {
        Some("elf: truncated"@)
    } else if b[5] != 1 {
        Some("elf: not little-endian"@)
    } else if !elf_complete(b) {
        Some("elf: truncated"@)
    } else {
        None
    }
}

/// Byte `i` of a region of `size` bytes at file offset `off`; 0 past its end.
pub open spec fn region_byte(b: Seq<u8>, off: int, size: int, i: int) -> int {
    if i < size {
        b[off + i] as int
    } else {
        0
    }
}

/// Little-endian word of the chunk at region offset `i`.
pub open spec fn chunk_word(b: Seq<u8>, off: int, size: int, i: int) -> int {
    region_byte(b, off, size, i) + 256 * region_byte(b, off, size, i + 1) + 65536 * region_byte(
        b,
        off,
        size,
        i + 2,
    ) + 16777216 * region_byte(b, off, size, i + 3)
}

/// The `(word_index, value)` chunks of a region loaded at byte address `addr`.
pub open spec fn region_words(b: Seq<u8>, addr: int, off: int, size: int) -> Seq<(usize, u32)> {
    Seq::new(
        ((size + 3) / 4) as nat,
        |j: int| (((addr + 4 * j) / 4) as usize, chunk_word(b, off, size, 4 * j) as u32),
    )
}

/// One past the word index of the last chunk of a region (0 when it is empty).
pub open spec fn region_end(addr: int, size: int) -> int {
    if size > 0 {
        (addr + 4 * ((size + 3) / 4 - 1)) / 4 + 1
    } else {
        0
    }
}

pub open spec fn max(x: int, y: int) -> int {
    if x >= y {
        x
    } else {
        y
    }
}

/// Chunks of the loaded segments of the first `n` program headers.
pub open spec fn ph_words(b: Seq<u8>, n: int) -> Seq<(usize, u32)>
    decreases n,
{
    if n <= 0 {
        seq![]
    } else if ph_loaded(b, n - 1) {
        ph_words(b, n - 1) + region_words(b, p_vaddr(b, n - 1), p_offset(b, n - 1), p_filesz(b, n - 1))
    } else {
        ph_words(b, n - 1)
    }
}

/// End of the executable words among the first `n` program headers.
pub open spec fn ph_end(b: Seq<u8>, n: int) -> int
    decreases n,
{
    if n <= 0 {
        0
    } else if ph_loaded(b, n - 1) && ph_exec(b, n - 1) {
        max(ph_end(b, n - 1), region_end(p_vaddr(b, n - 1), p_filesz(b, n - 1)))
    } else {
        ph_end(b, n - 1)
    }
}

/// Chunks of the text sections among the first `n` section headers.
pub open spec fn sh_words(b: Seq<u8>, n: int) -> Seq<(usize, u32)>
    decreases n,
{
    if n <= 0 {
        seq![]
    } else if sh_text(b, n - 1) {
        sh_words(b, n - 1) + region_words(b, sh_addr(b, n - 1), sh_offset(b, n - 1), sh_size(b, n - 1))
    } else {
        sh_words(b, n - 1)
    }
}

/// End of the words of the text sections among the first `n` section headers.
pub open spec fn sh_end(b: Seq<u8>, n: int) -> int
    decreases n,
{
    if n <= 0 {
        0
    } else if sh_text(b, n - 1) {
        max(sh_end(b, n - 1), region_end(sh_addr(b, n - 1), sh_size(b, n - 1)))
    } else {
        sh_end(b, n - 1)
    }
}

/// Every loaded chunk, in load order.
pub open spec fn loaded_words(b: Seq<u8>) -> Seq<(usize, u32)> {
    if sections_read(b) {
        ph_words(b, hdr_phnum(b)) + sh_words(b, hdr_shnum(b))
    } else {
        ph_words(b, hdr_phnum(b))
    }
}

/// Length of the fetch image.
pub open spec fn text_len(b: Seq<u8>) -> int {
    let exec_end = if sections_read(b) {
        max(ph_end(b, hdr_phnum(b)), sh_end(b, hdr_shnum(b)))
    } else {
        ph_end(b, hdr_phnum(b))
    };
    max(exec_end, hdr_entry(b) / 4 + 1)
}

/// Value of word `j` after loading `ws` in order (`HALT_WORD` when none names it).
pub open spec fn word_after(ws: Seq<(usize, u32)>, j: int) -> u32
    decreases ws.len(),
{
    if ws.len() == 0 {
        HALT_WORD
    } else if ws.last().0 == j {
        ws.last().1
    } else {
        word_after(ws.drop_last(), j)
    }
}

/// The fetch image of a loadable file.
pub open spec fn text_image(b: Seq<u8>) -> Seq<u32> {
    Seq::new(text_len(b) as nat, |j: int| word_after(loaded_words(b), j))
}

// ---------------------------------------------------------------------------
// Reading
// ---------------------------------------------------------------------------

struct Reader<'a> {
    buf: &'a [u8],
    pos: u64,
}

impl<'a> Reader<'a> {
    fn new(buf: &'a [u8]) -> (r: Self)
        ensures
            r.buf@ == buf@,
            r.pos == 0,
    {
        Reader { buf, pos: 0 }
    }

    fn u8(&mut self) -> (r: Result<u8, String>)
        ensures
            final(self).buf@ == old(self).buf@,
            match r {
                Ok(v) => old(self).pos < old(self).buf@.len() && v == old(self).buf@[old(
                    self,
                ).pos as int] && final(self).pos == old(self).pos + 1,
                Err(e) => old(self).pos >= old(self).buf@.len() && e@ == "elf: truncated"@,
            },
    {
        if self.pos < self.buf.len() as u64 {
            let v = self.buf[self.pos as usize];
            self.pos = self.pos + 1;
            Ok(v)
        } else {
            Err("elf: truncated".to_owned())
        }
    }

    fn u16(&mut self) -> (r: Result<u16, String>)
        ensures
            final(self).buf@ == old(self).buf@,
            match r {
                Ok(v) => old(self).pos + 2 <= old(self).buf@.len() && v == le16(
                    old(self).buf@,
                    old(self).pos as int,
                ) && final(self).pos == old(self).pos + 2,
                Err(e) => old(self).pos + 2 > old(self).buf@.len() && e@ == "elf: truncated"@,
            },
    {
        let b0 = self.u8()?;
        let b1 = self.u8()?;
        Ok(b0 as u16 + 256 * b1 as u16)
    }

    fn u32(&mut self) -> (r: Result<u32, String>)
        ensures
            final(self).buf@ == old(self).buf@,
            match r {
                Ok(v) => old(self).pos + 4 <= old(self).buf@.len() && v == le32(
                    old(self).buf@,
                    old(self).pos as int,
                ) && final(self).pos == old(self).pos + 4,
                Err(e) => old(self).pos + 4 > old(self).buf@.len() && e@ == "elf: truncated"@,
            },
    {
        let h0 = self.u16()?;
        let h1 = self.u16()?;
        Ok(h0 as u32 + 65536 * h1 as u32)
    }

    /// Skip `n` bytes, returning where they start.
    fn bytes(&mut self, n: u64) -> (r: Result<u64, String>)
        requires
            old(self).pos <= u64::MAX - n,
        ensures
            final(self).buf@ == old(self).buf@,
            match r {
                Ok(start) => start == old(self).pos && old(self).pos + n <= old(self).buf@.len()
                    && final(self).pos == old(self).pos + n,
                Err(e) => old(self).pos + n > old(self).buf@.len() && e@ == "elf: truncated"@,
            },
    {
        if self.pos + n > self.buf.len() as u64 {
            return Err("elf: truncated".to_owned());
        }
        let s = self.pos;
        self.pos = self.pos + n;
        Ok(s)
    }
}

/// Byte `i` of the region of `size` bytes at file offset `off`; 0 past its end.
fn region_byte_at(bytes: &[u8], off: u64, size: u64, i: u64) -> (v: u64)
    requires
        off + size <= bytes@.len(),
    ensures
        v == region_byte(bytes@, off as int, size as int, i as int),
        v < 256,
{
    if i < size {
        let n = bytes.len();
        assert(off + i < n);
        let idx = (off + i) as usize;
        bytes[idx] as u64
    } else {
        0
    }
}

/// The little-endian word at region offset `i` (zero-padded past the region).
fn chunk_at(bytes: &[u8], off: u64, size: u64, i: u64) -> (w: u32)
    requires
        off + size <= bytes@.len(),
        i <= u64::MAX - 3,
    ensures
        w == chunk_word(bytes@, off as int, size as int, i as int),
{
    let b0 = region_byte_at(bytes, off, size, i);
    let b1 = region_byte_at(bytes, off, size, i + 1);
    let b2 = region_byte_at(bytes, off, size, i + 2);
    let b3 = region_byte_at(bytes, off, size, i + 3);
    (b0 + 256 * b1 + 65536 * b2 + 16777216 * b3) as u32
}

/// Append the chunks of the region of `size` bytes at file offset `off`,
/// loaded at byte address `addr`; returns the new end of executable words
/// (`end` unchanged when `exec` is false).
fn load_region(
    words: &mut Vec<(usize, u32)>,
    bytes: &[u8],
    addr: u64,
    off: u64,
    size: u64,
    exec: bool,
    end: u64,
) -> (e: u64)
    requires
        off + size <= bytes@.len(),
        addr < 0x1_0000_0000,
        size < 0x1_0000_0000,
        end <= 0x8000_0001,
    ensures
        final(words)@ == old(words)@ + region_words(bytes@, addr as int, off as int, size as int),
        e == (if exec {
            max(end as int, region_end(addr as int, size as int))
        } else {
            end as int
        }),
        e <= 0x8000_0001,
{
    let ghost w0 = words@;
    let ghost rw = region_words(bytes@, addr as int, off as int, size as int);
    let mut e = end;
    let mut o: u64 = 0;
    while o < size
        invariant
            off + size <= bytes@.len(),
            addr < 0x1_0000_0000,
            size < 0x1_0000_0000,
            end <= 0x8000_0001,
            o % 4 == 0,
            o <= size + 3,
            rw == region_words(bytes@, addr as int, off as int, size as int),
            words@ == w0 + rw.take(o as int / 4),
            e == (if exec && o > 0 {
                max(end as int, (addr + o - 4) / 4 + 1)
            } else {
                end as int
            }),
            e <= 0x8000_0001,
        decreases size + 3 - o,
    {
        let k = (addr + o) / 4;
        let w = chunk_at(bytes, off, size, o);
        words.push((k as usize, w));
        proof {
            assert(rw.take(o as int / 4 + 1) =~= rw.take(o as int / 4).push(rw[o as int / 4]));
            assert(4 * (o as int / 4) == o);
        }
        if exec && e < k + 1 {
            e = k + 1;
        }
        o = o + 4;
    }
    proof {
        assert(o as int / 4 == (size + 3) / 4);
        assert(rw.take(o as int / 4) =~= rw);
        if size > 0 {
            assert(4 * ((size + 3) / 4 - 1) == o - 4);
        }
    }
    e
}

/// Parse a little-endian ELF32 file into a loadable image.
pub fn parse_elf32(bytes: &[u8]) -> (r: Result<ElfImage, String>)
    ensures
        match r {
            Ok(img) => {
                &&& elf_error(bytes@) is None
                &&& img.entry == hdr_entry(bytes@)
                &&& img.text@ == text_image(bytes@)
                &&& img.init_words@ == ph_words(bytes@, hdr_phnum(bytes@))
            },
            Err(e) => elf_error(bytes@) == Some(e@),
        },
{
    let ghost b = bytes@;
    let mut r = Reader::new(bytes);
    // ELF header (52 bytes)
    r.bytes(4)?;
    if !(bytes[0] == 0x7f && bytes[1] == 0x45 && bytes[2] == 0x4c && bytes[3] == 0x46) {
        return Err("elf: bad magic".to_owned());
    }
    let ei_class = r.u8()?;
    if ei_class != 1 {
        return Err("elf: not ELF32".to_owned());
    }
    let ei_data = r.u8()?;
    if ei_data != 1 {
        return Err("elf: not little-endian".to_owned());
    }
    r.bytes(10)?;
    let _e_type = r.u16()?;
    let _e_machine = r.u16()?;
    let _e_version = r.u32()?;
    let entry = r.u32()? as u64;
    let e_phoff = r.u32()? as u64;
    let e_shoff = r.u32()? as u64;
    let _e_flags = r.u32()?;
    let _e_ehsize = r.u16()?;
    let e_phentsize = r.u16()? as u64;
    let e_phnum = r.u16()? as u64;
    let e_shentsize = r.u16()? as u64;
    let e_shnum = r.u16()? as u64;
    let _e_shstrndx = r.u16()?;
    assert(r.pos == 52);
    // program headers: PT_LOAD segments
    let mut init_words: Vec<(usize, u32)> = Vec::new();
    let mut max_exec_word: u64 = 0;
    let mut i: u64 = 0;
    while i < e_phnum
        invariant
            r.buf@ == b,
            b == bytes@,
            b.len() >= 52,
            b[0] == 0x7f && b[1] == 0x45 && b[2] == 0x4c && b[3] == 0x46 && b[4] == 1 && b[5] == 1,
            entry == hdr_entry(b),
            e_phoff == hdr_phoff(b),
            e_shoff == hdr_shoff(b),
            e_phentsize == hdr_phentsize(b),
            e_phnum == hdr_phnum(b),
            e_shentsize == hdr_shentsize(b),
            e_shnum == hdr_shnum(b),
            e_phoff < 0x1_0000_0000 && e_shoff < 0x1_0000_0000,
            e_phentsize < 0x1_0000 && e_phnum < 0x1_0000,
            e_shentsize < 0x1_0000 && e_shnum < 0x1_0000,
            i <= e_phnum,
            forall|k: int| 0 <= k < i ==> ph_ok(b, k),
            init_words@ == ph_words(b, i as int),
            max_exec_word == ph_end(b, i as int),
            max_exec_word <= 0x8000_0001,
        decreases e_phnum - i,
    {
        proof {
            assert(i * e_phentsize <= 0xffff * 0xffff) by (nonlinear_arith)
                requires
                    i < 0x10000,
                    e_phentsize < 0x10000,
            ;
            assert(!ph_ok(b, i as int) ==> elf_error(b) == Some("elf: truncated"@));
        }
        r.pos = e_phoff + i * e_phentsize;
        let p_type = r.u32()?;
        let p_offset = r.u32()? as u64;
        let p_vaddr = r.u32()? as u64;
        let _p_paddr = r.u32()?;
        let p_filesz = r.u32()? as u64;
        let _p_memsz = r.u32()?;
        let p_flags = r.u32()?;
        if p_type == PT_LOAD && p_filesz != 0 {
            let executable = p_flags & 0x1 != 0;
            r.pos = p_offset;
            r.bytes(p_filesz)?;
            max_exec_word = load_region(
                &mut init_words,
                bytes,
                p_vaddr,
                p_offset,
                p_filesz,
                executable,
                max_exec_word,
            );
        }
        assert(ph_ok(b, i as int));
        i = i + 1;
    }
    // section headers: executable words of the text sections
    let ghost ph_all = init_words@;
    let n_ph = init_words.len();
    assert(ph_all == ph_words(b, hdr_phnum(b)));
    let sh0 = e_shoff;
    proof {
        assert(e_shnum * e_shentsize <= 0xffff * 0xffff) by (nonlinear_arith)
            requires
                e_shnum < 0x10000,
                e_shentsize < 0x10000,
        ;
    }
    let read_sections = e_shnum > 0 && sh0 + e_shnum * e_shentsize <= bytes.len() as u64;
    if read_sections {
        let mut i: u64 = 0;
        while i < e_shnum
            invariant
                r.buf@ == b,
                b == bytes@,
                b.len() >= 52,
                b[0] == 0x7f && b[1] == 0x45 && b[2] == 0x4c && b[3] == 0x46 && b[4] == 1 && b[5]
                    == 1,
                entry == hdr_entry(b),
                e_phnum == hdr_phnum(b),
                sh0 == hdr_shoff(b),
                e_shentsize == hdr_shentsize(b),
                e_shnum == hdr_shnum(b),
                sh0 < 0x1_0000_0000,
                e_shentsize < 0x1_0000 && e_shnum < 0x1_0000,
                sections_read(b),
                forall|k: int| 0 <= k < e_phnum ==> ph_ok(b, k),
                i <= e_shnum,
                forall|k: int| 0 <= k < i ==> sh_ok(b, k),
                ph_all == ph_words(b, hdr_phnum(b)),
                init_words@ == ph_all + sh_words(b, i as int),
                max_exec_word == max(ph_end(b, hdr_phnum(b)), sh_end(b, i as int)),
                max_exec_word <= 0x8000_0001,
            decreases e_shnum - i,
        {
            proof {
                assert(i * e_shentsize <= 0xffff * 0xffff) by (nonlinear_arith)
                    requires
                        i < 0x10000,
                        e_shentsize < 0x10000,
                ;
                assert(!sh_ok(b, i as int) ==> elf_error(b) == Some("elf: truncated"@));
            }
            r.pos = sh0 + i * e_shentsize;
            let _sh_name = r.u32()?;
            let sh_type = r.u32()?;
            let sh_flags = r.u32()?;
            let sh_addr = r.u32()? as u64;
            let sh_offset = r.u32()? as u64;
            let sh_size = r.u32()? as u64;
            if sh_type == SHT_PROGBITS && (sh_flags & SHF_EXECINSTR) != 0 && (sh_flags & SHF_ALLOC)
                != 0 {
                r.pos = sh_offset;
                r.bytes(sh_size)?;
                let ghost before = init_words@;
                max_exec_word = load_region(
                    &mut init_words,
                    bytes,
                    sh_addr,
                    sh_offset,
                    sh_size,
                    true,
                    max_exec_word,
                );
                assert(init_words@ =~= ph_all + sh_words(b, i + 1));
            }
            assert(sh_ok(b, i as int));
            i = i + 1;
        }
    } else {
        assert(init_words@ =~= loaded_words(b));
    }
    assert(elf_complete(b));
    assert(init_words@ =~= loaded_words(b));
    // fetch image: executable words override the halt default
    let e4 = entry / 4 + 1;
    let text_len_w: u64 = if max_exec_word >= e4 {
        max_exec_word
    } else {
        e4
    };
    assert(text_len_w == text_len(b));
    let tl = text_len_w as usize;
    let ghost ws = init_words@;
    let mut text_vals: Vec<u32> = Vec::new();
    let mut j: usize = 0;
    while j < tl
        invariant
            j <= tl,
            text_vals@.len() == j,
            forall|q: int| 0 <= q < j ==> text_vals@[q] == HALT_WORD,
        decreases tl - j,
    {
        text_vals.push(HALT_WORD);
        j = j + 1;
    }
    let mut q: usize = 0;
    while q < init_words.len()
        invariant
            ws == init_words@,
            q <= ws.len(),
            text_vals@.len() == tl,
            forall|x: int| 0 <= x < tl ==> text_vals@[x] == word_after(ws.take(q as int), x),
        decreases init_words.len() - q,
    {
        let (k, w) = init_words[q];
        assert(ws.take(q + 1).drop_last() =~= ws.take(q as int));
        if k < tl {
            text_vals.set(k, w);
        }
        q = q + 1;
    }
    assert(ws.take(q as int) =~= ws);
    assert(text_vals@ =~= text_image(b));
    // every segment word is initial RAM; the section words only fill the image
    let mut rest = init_words;
    rest.truncate(n_ph);
    assert(rest@ =~= ph_all);
    Ok(ElfImage { entry, text: text_vals, init_words: rest })
}

/// Word of the fetch image at byte address `pc` (`ecall` off the image).
pub open spec fn elf_word(text: Seq<u32>, pc: u64) -> u64 {
    let slot = (pc >> 2) as usize;
    if slot < text.len() {
        text[slot as int] as u64
    } else {
        HALT_WORD as u64
    }
}

/// Law (only `PT_LOAD` segments load): a program header whose type is not
/// `PT_LOAD` adds no word to the loaded words (the initial RAM words of
/// `parse_elf32`) and does not extend the executable part of the image; a
/// `PT_LOAD` header with a nonzero file size appends its segment's words,
/// one per 4-byte chunk, and so always adds at least one word.
pub proof fn lemma_only_load_segments(b: Seq<u8>, i: int)
    requires
        0 <= i,
    ensures
        p_type(b, i) != PT_LOAD ==> ph_words(b, i + 1) == ph_words(b, i) && ph_end(b, i + 1)
            == ph_end(b, i),
        p_type(b, i) == PT_LOAD && p_filesz(b, i) > 0 ==> ph_words(b, i + 1).len() == ph_words(
            b,
            i,
        ).len() + (p_filesz(b, i) + 3) / 4 && ph_words(b, i + 1).len() > ph_words(b, i).len()
            && ph_words(b, i + 1).subrange(0, ph_words(b, i).len() as int) == ph_words(b, i),
{
    if p_type(b, i) == PT_LOAD && p_filesz(b, i) > 0 {
        let pre = ph_words(b, i);
        let post = ph_words(b, i + 1);
        assert(post == pre + region_words(b, p_vaddr(b, i), p_offset(b, i), p_filesz(b, i)));
        assert(post.subrange(0, pre.len() as int) =~= pre);
    }
}

/// Word of the image of `img` at byte address `pc` (`ecall` off the image).
pub fn elf_word_at(img: &ElfImage, pc: u64) -> (w: u64)
    ensures
        w == elf_word(img.text@, pc),
{
    let slot = (pc >> 2) as usize;
    if slot < img.text.len() {
        img.text[slot] as u64
    } else {
        HALT_WORD as u64
    }
}

/// Fetch function over the image of `img`, for `run_program_big`.
pub fn elf_fetch(img: &ElfImage) -> (f: impl Fn(u64) -> u64 + '_)
    ensures
        forall|pc: u64| #[trigger] f.requires((pc,)),
        forall|pc: u64, w: u64| f.ensures((pc,), w) ==> w == elf_word(img.text@, pc),
{
    move |pc: u64| -> (w: u64)
        ensures
            w == elf_word(img.text@, pc),
        { elf_word_at(img, pc) }
}

} // verus!
