//! The `object` crate's PE writer, as the rebuild drives it: its bookkeeping
//! and the bytes it has written as a mathematical state, and each method it
//! calls behind a wrapper whose `requires` rules out the method's panics
//! (arithmetic overflow, out-of-range indexing and debug assertions) on that
//! state and whose `ensures` says what the method reserves or writes.

use vstd::prelude::*;
use crate::bytes::{le_n, le_u16, le_u32, pow256, u32_le_bytes};
use crate::pe::{SectionView, nt_directory, section_view_at};
use object::pe::{DllFlags, FileFlags, Machine, Subsystem};
use object::write::pe::NtHeaders;

verus! {

#[verifier::external_type_specification]
#[verifier::external_body]
pub struct ExPeWriter<'a>(object::write::pe::Writer<'a>);

#[verifier::external_type_specification]
#[verifier::external_body]
pub struct ExWriteError(object::write::Error);

/// `object::write::util::align`: `offset` rounded up to a multiple of `size`
/// (a power of two), computed on 64 bits.
pub open spec fn align64(offset: int, size: int) -> int {
    (((offset + size - 1) as u64) & !((size - 1) as u64)) as int
}

/// `object::write::util::align_u32`: the same on 32 bits.
pub open spec fn align32(offset: int, size: int) -> int {
    (((offset + size - 1) as u32) & !((size - 1) as u32)) as int
}

/// `a` is a power of two that fits in 32 bits.
pub open spec fn is_pow2(a: int) -> bool {
    1 <= a <= 0x8000_0000 && ((a as u32) & ((a - 1) as u32)) == 0
}

/// A power of two, as a 32-bit value.
pub fn pow2_u32(a: u32) -> (r: bool)
    ensures
        r == is_pow2(a as int),
{
    a != 0 && a <= 0x8000_0000 && (a & (a - 1)) == 0
}

/// `align64`, computed.
pub fn align_u64(offset: u64, size: u64) -> (r: u64)
    requires
        1 <= size,
        offset + size - 1 <= u64::MAX,
    ensures
        r == align64(offset as int, size as int),
{
    (offset + (size - 1)) & !(size - 1)
}

/// `align32`, computed.
pub fn align_u32(offset: u32, size: u32) -> (r: u32)
    requires
        1 <= size,
        offset + size - 1 <= u32::MAX,
    ensures
        r == align32(offset as int, size as int),
{
    (offset + (size - 1)) & !(size - 1)
}

/// Rounding up to a power of two neither lowers a value nor raises it by a
/// whole step.
pub proof fn lemma_align64(x: u64, a: u64)
    requires
        1 <= a <= 0x8000_0000,
        (a & ((a - 1) as u64)) == 0,
        x <= 0x1_0000_0000_0000,
    ensures
        x <= align64(x as int, a as int) <= x + a - 1,
{
    assert(x <= (((x + a - 1) as u64) & !((a - 1) as u64)) <= x + a - 1) by (bit_vector)
        requires
            1 <= a <= 0x8000_0000,
            (a & ((a - 1) as u64)) == 0,
            x <= 0x1_0000_0000_0000;
}

/// The bookkeeping of an `object::write::pe::Writer` (64-bit), field by field
/// as its source keeps it (`len` is `reserved`), with the sections it has
/// reserved as the headers it will write.
pub struct WriterLayout {
    pub section_alignment: int,
    pub file_alignment: int,
    /// File length reserved so far.
    pub reserved: int,
    /// Virtual address range reserved so far.
    pub virtual_len: int,
    pub code_len: int,
    pub data_len: int,
    pub bss_len: int,
    pub nt_headers_offset: int,
    /// The data directories, as (virtual address, size).
    pub directories: Seq<(int, int)>,
    pub section_header_num: int,
    /// The reserved sections, as the section headers they become.
    pub sections: Seq<SectionView>,
    /// The base relocation blocks, as (page address, number of entries).
    pub reloc_blocks: Seq<(int, int)>,
    /// The base relocation entries of all blocks, in order.
    pub reloc_entries: Seq<u16>,
    pub reloc_offset: int,
    /// The size of the headers (the file length once the section headers are
    /// reserved, cut to 32 bits).
    pub headers_len: int,
    /// The address of the first code section, 0 before one is reserved.
    pub code_address: int,
}

/// A writer: its bookkeeping, the bytes it has written to its buffer, and the
/// bytes that buffer holds once the writer is done with it (the final value
/// of the mutable borrow the writer keeps).
pub struct WriterState {
    pub layout: WriterLayout,
    pub buffer: Seq<u8>,
    pub buffer_final: Seq<u8>,
}

/// The state of the writer `w`.
pub uninterp spec fn writer_state(w: object::write::pe::Writer) -> WriterState;

/// `n` zero bytes.
pub open spec fn zeros(n: int) -> Seq<u8> {
    Seq::new(n as nat, |i: int| 0u8)
}

/// The `w` bytes of the little-endian encoding of `v` (its low `8 * w` bits).
pub open spec fn le_bytes(v: int, w: nat) -> Seq<u8> {
    Seq::new(w, |i: int| ((v / pow256(i as nat)) % 256) as u8)
}

/// The DOS header and stub that `Writer::write_dos_header_and_stub` writes: the
/// fixed header fields, the NT headers offset at byte 60, and the fixed stub
/// that prints "This program cannot be run in DOS mode.".
pub open spec fn dos_header_and_stub_bytes(nt_headers_offset: int) -> Seq<u8> {
    seq![0x4du8, 0x5a, 0x90, 0, 3, 0, 0, 0, 4, 0, 0, 0, 0xff, 0xff, 0, 0, 0xb8, 0, 0, 0, 0, 0, 0, 0, 0x40, 0]
        + zeros(34) + le_bytes(nt_headers_offset, 4)
        + seq![0x0eu8, 0x1f, 0xba, 0x0e, 0x00, 0xb4, 0x09, 0xcd, 0x21, 0xb8, 0x01, 0x4c, 0xcd, 0x21, 0x54, 0x68,
            0x69, 0x73, 0x20, 0x70, 0x72, 0x6f, 0x67, 0x72, 0x61, 0x6d, 0x20, 0x63, 0x61, 0x6e, 0x6e, 0x6f,
            0x74, 0x20, 0x62, 0x65, 0x20, 0x72, 0x75, 0x6e, 0x20, 0x69, 0x6e, 0x20, 0x44, 0x4f, 0x53, 0x20,
            0x6d, 0x6f, 0x64, 0x65, 0x2e, 0x0d, 0x0d, 0x0a, 0x24, 0x00, 0x00, 0x00, 0x00, 0x00, 0x00, 0x00]
}

/// The data directories as `Writer::write_nt_headers` writes them: address,
/// then size, 8 bytes each.
pub open spec fn directories_bytes(d: Seq<(int, int)>) -> Seq<u8>
    decreases d.len(),
{
    if d.len() == 0 {
        Seq::empty()
    } else {
        directories_bytes(d.drop_last()) + le_bytes(d.last().0, 4) + le_bytes(d.last().1, 4)
    }
}

/// The NT headers that `Writer::write_nt_headers` writes for the layout `l`
/// and the fields `f` (in the order of `nt_written_fields`): the signature,
/// the file header (no symbol table), the 64-bit optional header with the
/// sizes, base of code, image size and header size that the writer keeps,
/// and the data directories.
pub open spec fn nt_headers_bytes(l: WriterLayout, f: Seq<u64>) -> Seq<u8> {
    let n = l.directories.len() as int;
    le_bytes(0x4550, 4) + le_bytes(f[0] as int, 2) + le_bytes(l.section_header_num, 2) + le_bytes(f[1] as int, 4)
        + zeros(8) + le_bytes(112 + 8 * n, 2) + le_bytes(f[2] as int, 2)
        + le_bytes(0x20b, 2) + le_bytes(f[3] as int, 1) + le_bytes(f[4] as int, 1)
        + le_bytes(l.code_len, 4) + le_bytes(l.data_len, 4) + le_bytes(l.bss_len, 4)
        + le_bytes(f[5] as int, 4) + le_bytes(l.code_address, 4) + le_bytes(f[6] as int, 8)
        + le_bytes(l.section_alignment, 4) + le_bytes(l.file_alignment, 4)
        + le_bytes(f[7] as int, 2) + le_bytes(f[8] as int, 2) + le_bytes(f[9] as int, 2) + le_bytes(f[10] as int, 2)
        + le_bytes(f[11] as int, 2) + le_bytes(f[12] as int, 2) + zeros(4)
        + le_bytes(l.virtual_len, 4) + le_bytes(l.headers_len, 4) + zeros(4)
        + le_bytes(f[13] as int, 2) + le_bytes(f[14] as int, 2)
        + le_bytes(f[15] as int, 8) + le_bytes(f[16] as int, 8) + le_bytes(f[17] as int, 8) + le_bytes(f[18] as int, 8)
        + zeros(4) + le_bytes(n, 4) + directories_bytes(l.directories)
}

/// The 40-byte section header that `Writer::write_section_headers` writes for
/// `h`: its name, sizes, address and file offset, no relocations or line
/// numbers, and its characteristics.
pub open spec fn section_header_bytes(h: SectionView) -> Seq<u8> {
    h.name + le_bytes(h.virtual_size as int, 4) + le_bytes(h.virtual_address as int, 4)
        + le_bytes(h.size_of_raw_data as int, 4) + le_bytes(h.pointer_to_raw_data as int, 4) + zeros(12)
        + le_bytes(h.characteristics as int, 4)
}

/// The section headers of `hs`, in order.
pub open spec fn section_headers_bytes(hs: Seq<SectionView>) -> Seq<u8>
    decreases hs.len(),
{
    if hs.len() == 0 {
        Seq::empty()
    } else {
        section_headers_bytes(hs.drop_last()) + section_header_bytes(hs.last())
    }
}

/// The layout of a new writer.
pub open spec fn initial_layout(section_alignment: int, file_alignment: int) -> WriterLayout {
    WriterLayout {
        section_alignment, file_alignment, reserved: 0, virtual_len: 0, code_len: 0, data_len: 0, bss_len: 0,
        nt_headers_offset: 0, directories: Seq::empty(), section_header_num: 0, sections: Seq::empty(),
        reloc_blocks: Seq::empty(), reloc_entries: Seq::empty(), reloc_offset: 0, headers_len: 0, code_address: 0,
    }
}

/// `Writer::reserve`: the reserved length after reserving `len` bytes at the
/// next multiple of `align`; unchanged for `len` 0.
pub open spec fn reserved_after(reserved: int, len: int, align: int) -> int {
    if len == 0 { reserved } else { align64(reserved, align) + len }
}

/// `Writer::reserve` neither subtracts past zero nor overflows 64 bits.
pub open spec fn reserve_ok(reserved: int, len: int, align: int) -> bool {
    len == 0 || (1 <= align && reserved + align + len <= u64::MAX)
}

/// The layout after `Writer::reserve`.
pub open spec fn after_reserve(l: WriterLayout, len: int, align: int) -> WriterLayout {
    WriterLayout { reserved: reserved_after(l.reserved, len, align), ..l }
}

/// The layout after `Writer::reserve_nt_headers`: the 136-byte NT headers at
/// the next multiple of 8 (the offset cut to 32 bits), then `num` zeroed data
/// directories of 8 bytes.
pub open spec fn after_reserve_nt_headers(l: WriterLayout, num: int) -> WriterLayout {
    WriterLayout {
        nt_headers_offset: align64(l.reserved, 8) % 0x1_0000_0000,
        reserved: align64(l.reserved, 8) + 136 + 8 * num,
        directories: Seq::new(num as nat, |i: int| (0int, 0int)),
        ..l
    }
}

/// The conditions of `Writer::reserve_nt_headers`.
pub open spec fn reserve_nt_headers_ok(l: WriterLayout, num: int) -> bool {
    l.nt_headers_offset == 0 && 0 <= num && 8 * num <= u32::MAX && l.reserved + 8 + 136 + 8 * num <= u64::MAX
}

/// The layout after `Writer::reserve_section_headers`: `n` headers of 40 bytes,
/// padding to the file alignment, and the headers' virtual range (the file
/// length cut to 32 bits, rounded up to the section alignment).
pub open spec fn after_reserve_section_headers(l: WriterLayout, n: int) -> WriterLayout {
    let r = align64(l.reserved + 40 * n, l.file_alignment);
    WriterLayout {
        section_header_num: n,
        reserved: r,
        headers_len: r % 0x1_0000_0000,
        virtual_len: align32(l.virtual_len + r % 0x1_0000_0000, l.section_alignment),
        ..l
    }
}

/// The conditions of `Writer::reserve_section_headers`.
pub open spec fn reserve_section_headers_ok(l: WriterLayout, n: int) -> bool {
    &&& l.section_header_num == 0
    &&& is_pow2(l.file_alignment) && is_pow2(l.section_alignment)
    &&& 0 <= n <= 0xffff
    &&& l.reserved + 40 * n + l.file_alignment <= u64::MAX
    &&& l.virtual_len + align64(l.reserved + 40 * n, l.file_alignment) % 0x1_0000_0000 + l.section_alignment <= u32::MAX
}

/// The file size that `Writer::reserve_section` gives a section of `data_size` bytes.
pub open spec fn section_file_size(l: WriterLayout, data_size: int) -> int {
    align32(data_size, l.file_alignment)
}

/// The file offset that `Writer::reserve_section` gives a section of `data_size`
/// bytes: the reserved length rounded up to the file alignment, cut to 32
/// bits; 0 for an empty file range.
pub open spec fn section_file_offset(l: WriterLayout, data_size: int) -> int {
    if section_file_size(l, data_size) != 0 { align64(l.reserved, l.file_alignment) % 0x1_0000_0000 } else { 0 }
}

/// The code, data or uninitialized data total that a section with these
/// characteristics adds to (`SectionFlags::contains`), in that order of
/// precedence; none for 3.
pub open spec fn section_kind(characteristics: u32) -> int {
    if characteristics & 0x20u32 == 0x20u32 {
        0
    } else if characteristics & 0x40u32 == 0x40u32 {
        1
    } else if characteristics & 0x80u32 == 0x80u32 {
        2
    } else {
        3
    }
}

/// The total that a section with these characteristics adds to.
pub open spec fn section_total(l: WriterLayout, characteristics: u32) -> int {
    if section_kind(characteristics) == 0 {
        l.code_len
    } else if section_kind(characteristics) == 1 {
        l.data_len
    } else if section_kind(characteristics) == 2 {
        l.bss_len
    } else {
        0
    }
}

/// The conditions of `Writer::reserve_section`.
pub open spec fn reserve_section_ok(l: WriterLayout, characteristics: u32, virtual_size: int, data_size: int) -> bool {
    &&& is_pow2(l.file_alignment) && is_pow2(l.section_alignment)
    &&& 0 <= virtual_size && 0 <= data_size
    &&& l.virtual_len + virtual_size + l.section_alignment <= u32::MAX
    &&& data_size + l.file_alignment <= u32::MAX
    &&& virtual_size + l.file_alignment <= u32::MAX
    &&& reserve_ok(l.reserved, section_file_size(l, data_size), l.file_alignment)
    &&& section_total(l, characteristics) + align32(virtual_size, l.file_alignment) <= u32::MAX
}

/// The layout after `Writer::reserve_section`.
pub open spec fn after_reserve_section(l: WriterLayout, name: Seq<u8>, characteristics: u32, virtual_size: int, data_size: int)
    -> WriterLayout
{
    let avs = align32(virtual_size, l.file_alignment);
    let kind = section_kind(characteristics);
    WriterLayout {
        virtual_len: align32(l.virtual_len + virtual_size, l.section_alignment),
        reserved: reserved_after(l.reserved, section_file_size(l, data_size), l.file_alignment),
        code_len: if kind == 0 { l.code_len + avs } else { l.code_len },
        data_len: if kind == 1 { l.data_len + avs } else { l.data_len },
        bss_len: if kind == 2 { l.bss_len + avs } else { l.bss_len },
        code_address: if kind == 0 && l.code_address == 0 { l.virtual_len } else { l.code_address },
        sections: l.sections.push(SectionView {
            name,
            virtual_size: virtual_size as u32,
            virtual_address: l.virtual_len as u32,
            size_of_raw_data: section_file_size(l, data_size) as u32,
            pointer_to_raw_data: section_file_offset(l, data_size) as u32,
            characteristics,
        }),
        ..l
    }
}

/// The page (4 KiB-aligned address) that a base relocation at `virtual_address` belongs to.
pub open spec fn reloc_page(virtual_address: u32) -> int {
    (virtual_address & !0xfffu32) as int
}

/// The 16-bit entry of a base relocation: its type above its offset in the page.
pub open spec fn reloc_entry(virtual_address: u32, typ: u16) -> u16 {
    ((typ << 12u16) | ((virtual_address & 0xfffu32) as u16)) as u16
}

/// The conditions of `Writer::add_reloc`: pages ascend (its debug assertion)
/// and no count leaves 32 bits.
pub open spec fn add_reloc_ok(l: WriterLayout, virtual_address: u32) -> bool {
    l.reloc_blocks.len() > 0 ==> {
        &&& l.reloc_blocks.last().0 <= reloc_page(virtual_address)
        &&& l.reloc_blocks.last().1 + 1 <= u32::MAX
    }
}

/// The layout after `Writer::add_reloc`: the entry joins the last block when it
/// is for the same page; otherwise the last block is padded to an even count
/// with a zero entry and a new block starts.
pub open spec fn after_add_reloc(l: WriterLayout, virtual_address: u32, typ: u16) -> WriterLayout {
    let page = reloc_page(virtual_address);
    let e = reloc_entry(virtual_address, typ);
    let b = l.reloc_blocks;
    if b.len() > 0 && b.last().0 == page {
        WriterLayout {
            reloc_blocks: b.update(b.len() - 1, (page, b.last().1 + 1)),
            reloc_entries: l.reloc_entries.push(e),
            ..l
        }
    } else if b.len() > 0 && b.last().1 % 2 == 1 {
        WriterLayout {
            reloc_blocks: b.update(b.len() - 1, (b.last().0, b.last().1 + 1)).push((page, 1int)),
            reloc_entries: l.reloc_entries.push(0u16).push(e),
            ..l
        }
    } else {
        WriterLayout { reloc_blocks: b.push((page, 1int)), reloc_entries: l.reloc_entries.push(e), ..l }
    }
}

/// Total size of the base relocation blocks: an 8-byte header and 2 bytes per
/// entry each.
pub open spec fn reloc_blocks_size(blocks: Seq<(int, int)>) -> int
    decreases blocks.len(),
{
    if blocks.len() == 0 {
        0
    } else {
        reloc_blocks_size(blocks.drop_last()) + 8 + 2 * blocks.last().1
    }
}

/// Number of entries of the base relocation blocks.
pub open spec fn reloc_blocks_count(blocks: Seq<(int, int)>) -> int
    decreases blocks.len(),
{
    if blocks.len() == 0 {
        0
    } else {
        reloc_blocks_count(blocks.drop_last()) + blocks.last().1
    }
}

/// The layout once the last relocation block is padded to an even count.
pub open spec fn padded_relocs(l: WriterLayout) -> WriterLayout {
    let b = l.reloc_blocks;
    if b.len() > 0 && b.last().1 % 2 == 1 {
        WriterLayout {
            reloc_blocks: b.update(b.len() - 1, (b.last().0, b.last().1 + 1)),
            reloc_entries: l.reloc_entries.push(0u16),
            ..l
        }
    } else {
        l
    }
}

/// Name of the recreated relocation section: ".reloc" padded with NUL bytes.
pub open spec fn reloc_section_name() -> Seq<u8> {
    seq![46u8, 114u8, 101u8, 108u8, 111u8, 99u8, 0u8, 0u8]
}

/// Characteristics of the recreated relocation section: initialized data,
/// discardable, readable.
pub open spec fn reloc_section_characteristics() -> u32 {
    0x4200_0040u32
}

/// The conditions of `Writer::reserve_reloc_section`: the padding and the size
/// sum stay within 32 bits, the base relocation directory (index 5) exists and
/// is unset (its debug assertion), and the section can be reserved.
pub open spec fn reserve_reloc_section_ok(l: WriterLayout) -> bool {
    let p = padded_relocs(l);
    let size = reloc_blocks_size(p.reloc_blocks);
    &&& l.reloc_blocks.len() > 0 ==> l.reloc_blocks.last().1 + 1 <= u32::MAX
    &&& size <= u32::MAX
    &&& l.directories.len() > 5 && l.directories[5].0 == 0
    &&& reserve_section_ok(p, reloc_section_characteristics(), size, size)
}

/// The layout after `Writer::reserve_reloc_section`.
pub open spec fn after_reserve_reloc_section(l: WriterLayout) -> WriterLayout {
    let p = padded_relocs(l);
    let size = reloc_blocks_size(p.reloc_blocks);
    let s = after_reserve_section(p, reloc_section_name(), reloc_section_characteristics(), size, size);
    WriterLayout {
        directories: s.directories.update(5, (p.virtual_len, size)),
        reloc_offset: section_file_offset(p, size),
        ..s
    }
}

/// The conditions of `Writer::reserve_certificate_table`.
pub open spec fn reserve_certificate_table_ok(l: WriterLayout, size: int) -> bool {
    &&& 0 <= size && size + 7 <= u32::MAX
    &&& l.directories.len() > 4 && l.directories[4].0 == 0
    &&& reserve_ok(l.reserved, align32(size, 8), 8)
}

/// The layout after `Writer::reserve_certificate_table`: the size rounded up to
/// 8, reserved at the next multiple of 8 (the offset cut to 32 bits, and not
/// rounded for an empty table), and the certificate directory set to that range.
pub open spec fn after_reserve_certificate_table(l: WriterLayout, size: int) -> WriterLayout {
    let n = align32(size, 8);
    let offset = if n == 0 { l.reserved % 0x1_0000_0000 } else { align64(l.reserved, 8) % 0x1_0000_0000 };
    WriterLayout {
        reserved: reserved_after(l.reserved, n, 8),
        directories: l.directories.update(4, (offset, n)),
        ..l
    }
}

/// The little-endian bytes of 16-bit entries.
pub open spec fn u16s_le(e: Seq<u16>) -> Seq<u8> {
    Seq::new(2 * e.len(), |i: int| if i % 2 == 0 { (e[i / 2] % 256) as u8 } else { (e[i / 2] / 256) as u8 })
}

/// The bytes of base relocation blocks: per block its page and size as 32-bit
/// little-endian values, then its entries.
pub open spec fn reloc_table_bytes(blocks: Seq<(int, int)>, entries: Seq<u16>) -> Seq<u8>
    decreases blocks.len(),
{
    if blocks.len() == 0 {
        Seq::empty()
    } else {
        let (page, count) = blocks[0];
        u32_le_bytes(page as u32) + u32_le_bytes((8 + 2 * count) as u32) + u16s_le(entries.take(count))
            + reloc_table_bytes(blocks.drop_first(), entries.skip(count))
    }
}

/// The NT header fields handed to `Writer::write_nt_headers`, as (offset from
/// the NT headers, width in bytes): machine, time stamp, characteristics,
/// linker versions, entry point, image base, OS, image and subsystem
/// versions, subsystem, DLL characteristics, stack and heap sizes.
pub open spec fn nt_written_fields() -> Seq<(int, int)> {
    seq![(4int, 2int), (8, 4), (22, 2), (26, 1), (27, 1), (40, 4), (48, 8), (64, 2), (66, 2), (68, 2), (70, 2),
        (72, 2), (74, 2), (92, 2), (94, 2), (96, 8), (104, 8), (112, 8), (120, 8)]
}

/// What `Writer::write_nt_headers` writes at `o` in `b`: the signature, the
/// given fields, the section count, the optional header size (cut to 16
/// bits), the 64-bit magic, the alignments, the directory count and the data
/// directories, 136 bytes plus 8 per directory.
pub open spec fn nt_headers_at(b: Seq<u8>, o: int, l: WriterLayout, fields: Seq<u64>) -> bool {
    let n = l.directories.len() as int;
    &&& o + 136 + 8 * n <= b.len()
    &&& le_u32(b, o) == 0x4550
    &&& forall|k: int| 0 <= k < nt_written_fields().len() ==>
        le_n(b, o + (#[trigger] nt_written_fields()[k]).0, nt_written_fields()[k].1 as nat) == fields[k]
    &&& le_u16(b, o + 6) == l.section_header_num
    &&& le_u16(b, o + 20) == (112 + 8 * n) % 0x1_0000
    &&& le_u16(b, o + 24) == 0x20b
    &&& le_u32(b, o + 56) == l.section_alignment
    &&& le_u32(b, o + 60) == l.file_alignment
    &&& le_u32(b, o + 132) == n
    &&& forall|i: int| 0 <= i < n ==> (#[trigger] nt_directory(b, o, i)).0 == l.directories[i].0
        && nt_directory(b, o, i).1 == l.directories[i].1
}

/// What `Writer::write_nt_headers` leaves: `a` before, `b` after.
pub open spec fn nt_headers_written(a: WriterState, b: WriterState, f: Seq<u64>) -> bool {
    let o = a.layout.nt_headers_offset;
    &&& b.buffer.len() == o + 136 + 8 * a.layout.directories.len()
    &&& b.buffer.take(o) == a.buffer + zeros(o - a.buffer.len())
    &&& nt_headers_at(b.buffer, o, a.layout, f)
}

/// What `Writer::write_section_headers` leaves: `a` before, `b` after.
pub open spec fn section_headers_written(a: WriterState, b: WriterState) -> bool {
    let o = a.buffer.len() as int;
    &&& b.buffer.len() == o + 40 * a.layout.sections.len()
    &&& b.buffer.take(o) == a.buffer
    &&& forall|k: int| 0 <= k < a.layout.sections.len() ==>
        #[trigger] section_view_at(b.buffer, o + 40 * k) == a.layout.sections[k]
}

/// `Writer::new` for a 64-bit image on an empty buffer, with the alignments
/// that its documentation asks for (powers of two): nothing reserved, the
/// buffer's bytes are the writer's, and what the buffer finally holds is what
/// the borrow given to the writer ends with.
#[verifier::external_body]
pub(crate) fn writer_new<'a>(section_alignment: u32, file_alignment: u32, out: &'a mut Vec<u8>)
    -> (r: object::write::pe::Writer<'a>)
    requires
        is_pow2(section_alignment as int),
        is_pow2(file_alignment as int),
        old(out)@.len() == 0,
    ensures
        writer_state(r).layout == initial_layout(section_alignment as int, file_alignment as int),
        writer_state(r).buffer == old(out)@,
        writer_state(r).buffer_final == final(out)@,
{
    object::write::pe::Writer::new(true, section_alignment, file_alignment, out)
}

/// `Writer::len`, consuming the writer: the number of bytes written; the
/// writer's borrow of the buffer ends here, with the bytes written.
#[verifier::external_body]
pub(crate) fn writer_finish(w: object::write::pe::Writer<'_>) -> (r: u64)
    ensures
        r == writer_state(w).buffer.len(),
        writer_state(w).buffer_final == writer_state(w).buffer.take(r as int),
{
    w.len()
}

/// `Writer::reserved_len`: the file length reserved so far.
#[verifier::external_body]
pub(crate) fn writer_reserved_len(w: &object::write::pe::Writer<'_>) -> (r: u64)
    ensures
        r == writer_state(*w).layout.reserved,
{
    w.reserved_len()
}

/// `Writer::virtual_len`: the virtual address range reserved so far.
#[verifier::external_body]
pub(crate) fn writer_virtual_len(w: &object::write::pe::Writer<'_>) -> (r: u32)
    ensures
        r == writer_state(*w).layout.virtual_len,
{
    w.virtual_len()
}

/// `Writer::len`: the number of bytes written so far.
#[verifier::external_body]
pub(crate) fn writer_len(w: &object::write::pe::Writer<'_>) -> (r: u64)
    ensures
        r == writer_state(*w).buffer.len(),
{
    w.len()
}

/// `Writer::nt_headers_offset`: where the NT headers were reserved.
#[verifier::external_body]
pub(crate) fn writer_nt_headers_offset(w: &object::write::pe::Writer<'_>) -> (r: u32)
    ensures
        r == writer_state(*w).layout.nt_headers_offset,
{
    w.nt_headers_offset()
}

/// `Writer::reserve_dos_header_and_stub`: the 64-byte DOS header (its debug
/// assertion asks that nothing was reserved before) and the 64-byte stub.
#[verifier::external_body]
pub(crate) fn writer_reserve_dos_header_and_stub(w: &mut object::write::pe::Writer<'_>)
    requires
        writer_state(*old(w)).layout.reserved == 0,
    ensures
        writer_state(*final(w)) == (WriterState {
            layout: WriterLayout { reserved: 128, ..writer_state(*old(w)).layout },
            ..writer_state(*old(w))
        }),
{
    w.reserve_dos_header_and_stub()
}

/// `Writer::reserve`: `len` bytes at the next multiple of `align_start`.
#[verifier::external_body]
pub(crate) fn writer_reserve(w: &mut object::write::pe::Writer<'_>, len: u32, align_start: u32)
    requires
        reserve_ok(writer_state(*old(w)).layout.reserved, len as int, align_start as int),
    ensures
        writer_state(*final(w)) == (WriterState {
            layout: after_reserve(writer_state(*old(w)).layout, len as int, align_start as int),
            ..writer_state(*old(w))
        }),
{
    w.reserve(len, align_start);
}

/// `Writer::reserve_nt_headers` (its debug assertion asks that they were not
/// reserved before; the directories' size is computed on 32 bits).
#[verifier::external_body]
pub(crate) fn writer_reserve_nt_headers(w: &mut object::write::pe::Writer<'_>, data_directory_num: usize)
    requires
        reserve_nt_headers_ok(writer_state(*old(w)).layout, data_directory_num as int),
    ensures
        writer_state(*final(w)) == (WriterState {
            layout: after_reserve_nt_headers(writer_state(*old(w)).layout, data_directory_num as int),
            ..writer_state(*old(w))
        }),
{
    w.reserve_nt_headers(data_directory_num)
}

/// `Writer::set_data_directory`: the data directory at `index`, which must exist.
#[verifier::external_body]
pub(crate) fn writer_set_data_directory(w: &mut object::write::pe::Writer<'_>, index: usize, virtual_address: u32, size: u32)
    requires
        index < writer_state(*old(w)).layout.directories.len(),
    ensures
        writer_state(*final(w)) == (WriterState {
            layout: WriterLayout {
                directories: writer_state(*old(w)).layout.directories.update(index as int, (virtual_address as int, size as int)),
                ..writer_state(*old(w)).layout
            },
            ..writer_state(*old(w))
        }),
{
    w.set_data_directory(index, virtual_address, size)
}

/// `Writer::reserve_section_headers` (its debug assertion asks that none were
/// reserved before).
#[verifier::external_body]
pub(crate) fn writer_reserve_section_headers(w: &mut object::write::pe::Writer<'_>, section_header_num: u16)
    requires
        reserve_section_headers_ok(writer_state(*old(w)).layout, section_header_num as int),
    ensures
        writer_state(*final(w)) == (WriterState {
            layout: after_reserve_section_headers(writer_state(*old(w)).layout, section_header_num as int),
            ..writer_state(*old(w))
        }),
{
    w.reserve_section_headers(section_header_num)
}

/// `Writer::reserve_section`: gives the reserved virtual address, file offset
/// and file size.
#[verifier::external_body]
pub(crate) fn writer_reserve_section(w: &mut object::write::pe::Writer<'_>, name: [u8; 8], characteristics: u32, virtual_size: u32, data_size: u32)
    -> (r: (u32, u32, u32))
    requires
        reserve_section_ok(writer_state(*old(w)).layout, characteristics, virtual_size as int, data_size as int),
    ensures
        writer_state(*final(w)) == (WriterState {
            layout: after_reserve_section(writer_state(*old(w)).layout, name@, characteristics, virtual_size as int, data_size as int),
            ..writer_state(*old(w))
        }),
        r.0 == writer_state(*old(w)).layout.virtual_len,
        r.1 == section_file_offset(writer_state(*old(w)).layout, data_size as int),
        r.2 == section_file_size(writer_state(*old(w)).layout, data_size as int),
{
    let range = w.reserve_section(name, object::pe::SectionFlags(characteristics), virtual_size, data_size);
    (range.virtual_address, range.file_offset, range.file_size)
}

/// `Writer::add_reloc`.
#[verifier::external_body]
pub(crate) fn writer_add_reloc(w: &mut object::write::pe::Writer<'_>, virtual_address: u32, typ: u16)
    requires
        add_reloc_ok(writer_state(*old(w)).layout, virtual_address),
    ensures
        writer_state(*final(w)) == (WriterState {
            layout: after_add_reloc(writer_state(*old(w)).layout, virtual_address, typ),
            ..writer_state(*old(w))
        }),
{
    w.add_reloc(virtual_address, object::pe::BaseRelocationType(typ))
}

/// `Writer::reserve_reloc_section`: gives the section's file offset.
#[verifier::external_body]
pub(crate) fn writer_reserve_reloc_section(w: &mut object::write::pe::Writer<'_>) -> (r: u32)
    requires
        reserve_reloc_section_ok(writer_state(*old(w)).layout),
    ensures
        writer_state(*final(w)) == (WriterState {
            layout: after_reserve_reloc_section(writer_state(*old(w)).layout),
            ..writer_state(*old(w))
        }),
        r == writer_state(*final(w)).layout.reloc_offset,
{
    w.reserve_reloc_section().file_offset
}

/// `Writer::reserve_certificate_table` (its debug assertion asks that the
/// directory, which must exist, is unset).
#[verifier::external_body]
pub(crate) fn writer_reserve_certificate_table(w: &mut object::write::pe::Writer<'_>, size: u32)
    requires
        reserve_certificate_table_ok(writer_state(*old(w)).layout, size as int),
    ensures
        writer_state(*final(w)) == (WriterState {
            layout: after_reserve_certificate_table(writer_state(*old(w)).layout, size as int),
            ..writer_state(*old(w))
        }),
{
    w.reserve_certificate_table(size)
}

/// `Writer::write_dos_header_and_stub`: reserves room in the buffer for the
/// whole reserved length (`Vec::reserve`: its debug assertion asks for an empty
/// buffer, and it panics beyond `isize::MAX` bytes; the length fits `usize`
/// there, so it succeeds), then writes the 64-byte DOS header, "MZ" first and
/// the NT headers offset at byte 60, and the 64-byte stub.
#[verifier::external_body]
pub(crate) fn writer_write_dos_header_and_stub(w: &mut object::write::pe::Writer<'_>) -> (r: Result<(), object::write::Error>)
    requires
        writer_state(*old(w)).buffer.len() == 0,
        writer_state(*old(w)).layout.reserved <= isize::MAX,
    ensures
        r is Ok,
        writer_state(*final(w)).layout == writer_state(*old(w)).layout,
        writer_state(*final(w)).buffer_final == writer_state(*old(w)).buffer_final,
        writer_state(*final(w)).buffer.len() == 128,
        le_u16(writer_state(*final(w)).buffer, 0) == 0x5a4d,
        le_u32(writer_state(*final(w)).buffer, 60) == writer_state(*old(w)).layout.nt_headers_offset,
        writer_state(*final(w)).buffer == dos_header_and_stub_bytes(writer_state(*old(w)).layout.nt_headers_offset),
{
    w.write_dos_header_and_stub()
}

/// `Writer::write_align`: zeros up to the next multiple of `align_start`.
#[verifier::external_body]
pub(crate) fn writer_write_align(w: &mut object::write::pe::Writer<'_>, align_start: u32)
    requires
        is_pow2(align_start as int),
        writer_state(*old(w)).buffer.len() + align_start <= u64::MAX,
    ensures
        writer_state(*final(w)) == (WriterState {
            buffer: writer_state(*old(w)).buffer + zeros(align64(writer_state(*old(w)).buffer.len() as int, align_start as int)
                - writer_state(*old(w)).buffer.len()),
            ..writer_state(*old(w))
        }),
{
    w.write_align(align_start)
}

/// `Writer::write`: appends the bytes.
#[verifier::external_body]
pub(crate) fn writer_write(w: &mut object::write::pe::Writer<'_>, data: &[u8])
    requires
        writer_state(*old(w)).buffer.len() + data@.len() <= u64::MAX,
    ensures
        writer_state(*final(w)) == (WriterState { buffer: writer_state(*old(w)).buffer + data@, ..writer_state(*old(w)) }),
{
    w.write(data)
}

/// `Writer::write_nt_headers`, given the fields of `nt_written_fields` in that
/// order: pads with zeros to the reserved offset (its debug assertion asks that
/// nothing was written past it) and writes the headers and data directories
/// (their size computed on 32 bits), as `nt_headers_bytes` spells out; the
/// sizes, base of code and header size come from the writer's bookkeeping, and
/// the symbol table fields are zero (no wrapper here reserves a symbol table).
#[verifier::external_body]
pub(crate) fn writer_write_nt_headers(w: &mut object::write::pe::Writer<'_>, f: &Vec<u64>)
    requires
        writer_state(*old(w)).buffer.len() <= writer_state(*old(w)).layout.nt_headers_offset,
        112 + 8 * writer_state(*old(w)).layout.directories.len() <= u32::MAX,
        f@.len() == nt_written_fields().len(),
        forall|k: int| 0 <= k < f@.len() ==> f@[k] < pow256(nt_written_fields()[k].1 as nat),
    ensures
        writer_state(*final(w)).layout == writer_state(*old(w)).layout,
        writer_state(*final(w)).buffer_final == writer_state(*old(w)).buffer_final,
        nt_headers_written(writer_state(*old(w)), writer_state(*final(w)), f@),
        writer_state(*final(w)).buffer == writer_state(*old(w)).buffer
            + zeros(writer_state(*old(w)).layout.nt_headers_offset - writer_state(*old(w)).buffer.len())
            + nt_headers_bytes(writer_state(*old(w)).layout, f@),
{
    let x = f.as_slice();
    w.write_nt_headers(NtHeaders { machine: Machine(x[0] as u16), time_date_stamp: x[1] as u32,
        characteristics: FileFlags(x[2] as u16), major_linker_version: x[3] as u8, minor_linker_version: x[4] as u8,
        address_of_entry_point: x[5] as u32, image_base: x[6], major_operating_system_version: x[7] as u16,
        minor_operating_system_version: x[8] as u16, major_image_version: x[9] as u16, minor_image_version: x[10] as u16,
        major_subsystem_version: x[11] as u16, minor_subsystem_version: x[12] as u16, subsystem: Subsystem(x[13] as u16),
        dll_characteristics: DllFlags(x[14] as u16), size_of_stack_reserve: x[15], size_of_stack_commit: x[16],
        size_of_heap_reserve: x[17], size_of_heap_commit: x[18] });
}

/// `Writer::write_section_headers`: a 40-byte header per reserved section (its
/// debug assertion asks that as many were reserved as announced).
#[verifier::external_body]
pub(crate) fn writer_write_section_headers(w: &mut object::write::pe::Writer<'_>)
    requires
        writer_state(*old(w)).layout.section_header_num == writer_state(*old(w)).layout.sections.len(),
        writer_state(*old(w)).buffer.len() + 40 * writer_state(*old(w)).layout.sections.len() <= u64::MAX,
    ensures
        writer_state(*final(w)).layout == writer_state(*old(w)).layout,
        writer_state(*final(w)).buffer_final == writer_state(*old(w)).buffer_final,
        section_headers_written(writer_state(*old(w)), writer_state(*final(w))),
        writer_state(*final(w)).buffer == writer_state(*old(w)).buffer + section_headers_bytes(writer_state(*old(w)).layout.sections),
{
    w.write_section_headers()
}

/// `Writer::write_section`: nothing for empty data; otherwise pads with zeros
/// to `offset` (its debug assertion asks that nothing was written past it),
/// writes the data and pads with zeros to the file alignment.
#[verifier::external_body]
pub(crate) fn writer_write_section(w: &mut object::write::pe::Writer<'_>, offset: u32, data: &[u8])
    requires
        data@.len() > 0 ==> writer_state(*old(w)).buffer.len() <= offset,
        data@.len() <= u32::MAX,
        is_pow2(writer_state(*old(w)).layout.file_alignment),
    ensures
        writer_state(*final(w)) == (WriterState {
            buffer: if data@.len() == 0 {
                writer_state(*old(w)).buffer
            } else {
                writer_state(*old(w)).buffer + zeros(offset - writer_state(*old(w)).buffer.len()) + data@
                    + zeros(align64(offset + data@.len(), writer_state(*old(w)).layout.file_alignment) - (offset + data@.len()))
            },
            ..writer_state(*old(w))
        }),
{
    w.write_section(offset, data)
}

/// `Writer::write_reloc_section`: nothing when no `.reloc` file range was
/// reserved; otherwise pads with zeros to it (its debug assertion asks that
/// nothing was written past it), writes the blocks (their entries, which
/// number as the blocks count, its other debug assertion) and pads with zeros
/// to the file alignment. Each block's count is a `u32` field of the writer.
#[verifier::external_body]
pub(crate) fn writer_write_reloc_section(w: &mut object::write::pe::Writer<'_>)
    requires
        ({
            let a = writer_state(*old(w));
            &&& a.layout.reloc_offset != 0 ==> a.buffer.len() <= a.layout.reloc_offset
            &&& reloc_blocks_size(a.layout.reloc_blocks) <= u32::MAX
            &&& reloc_blocks_count(a.layout.reloc_blocks) == a.layout.reloc_entries.len()
            &&& is_pow2(a.layout.file_alignment)
        }),
    ensures
        ({
            let (a, b) = (writer_state(*old(w)), writer_state(*final(w)));
            let t = reloc_table_bytes(a.layout.reloc_blocks, a.layout.reloc_entries);
            let ro = a.layout.reloc_offset;
            b == WriterState {
                buffer: if ro == 0 {
                    a.buffer
                } else {
                    a.buffer + zeros(ro - a.buffer.len()) + t + zeros(align64(ro + t.len(), a.layout.file_alignment) - (ro + t.len()))
                },
                ..a
            }
        }),
        forall|i: int| 0 <= i < writer_state(*final(w)).layout.reloc_blocks.len() ==>
            0 <= (#[trigger] writer_state(*final(w)).layout.reloc_blocks[i]).1 <= u32::MAX,
{
    w.write_reloc_section()
}

/// `Writer::write_certificate_table`: pads with zeros to the certificate
/// directory's address, writes the data and pads with zeros to the end of the
/// directory's range (its debug assertions ask that nothing was written past
/// the address and that the data fits; the end is computed on 32 bits).
#[verifier::external_body]
pub(crate) fn writer_write_certificate_table(w: &mut object::write::pe::Writer<'_>, data: &[u8])
    requires
        ({
            let a = writer_state(*old(w));
            &&& a.layout.directories.len() > 4
            &&& a.buffer.len() <= a.layout.directories[4].0
            &&& a.layout.directories[4].0 + a.layout.directories[4].1 <= u32::MAX
            &&& data@.len() <= a.layout.directories[4].1
        }),
    ensures
        ({
            let (a, b) = (writer_state(*old(w)), writer_state(*final(w)));
            let (va, n) = a.layout.directories[4];
            b == WriterState {
                buffer: a.buffer + zeros(va - a.buffer.len()) + data@ + zeros(n - data@.len()),
                ..a
            }
        }),
{
    w.write_certificate_table(data)
}

/// The size and count of relocation blocks, taken from the first block on.
pub proof fn lemma_reloc_blocks_first(b: Seq<(int, int)>)
    requires
        b.len() > 0,
    ensures
        reloc_blocks_size(b) == 8 + 2 * b[0].1 + reloc_blocks_size(b.drop_first()),
        reloc_blocks_count(b) == b[0].1 + reloc_blocks_count(b.drop_first()),
    decreases b.len(),
{
    if b.len() == 1 {
        assert(b.drop_last() =~= Seq::<(int, int)>::empty());
        assert(b.drop_first() =~= Seq::<(int, int)>::empty());
    } else {
        lemma_reloc_blocks_first(b.drop_last());
        assert(b.drop_last().drop_first() =~= b.drop_first().drop_last());
    }
}

/// Blocks with counts of zero or more have a size and count of zero or more.
pub proof fn lemma_reloc_blocks_nonneg(b: Seq<(int, int)>)
    requires
        forall|i: int| 0 <= i < b.len() ==> 0 <= (#[trigger] b[i]).1,
    ensures
        reloc_blocks_count(b) >= 0,
        reloc_blocks_size(b) >= 0,
    decreases b.len(),
{
    if b.len() > 0 {
        lemma_reloc_blocks_nonneg(b.drop_last());
    }
}

/// The relocation blocks' bytes are as long as the blocks' size.
pub proof fn lemma_reloc_table_len(b: Seq<(int, int)>, e: Seq<u16>)
    requires
        forall|i: int| 0 <= i < b.len() ==> 0 <= (#[trigger] b[i]).1,
        reloc_blocks_count(b) == e.len(),
    ensures
        reloc_table_bytes(b, e).len() == reloc_blocks_size(b),
    decreases b.len(),
{
    if b.len() > 0 {
        lemma_reloc_blocks_first(b);
        let rest = b.drop_first();
        lemma_reloc_blocks_nonneg(rest);
        let c = b[0].1;
        assert(e.take(c).len() == c);
        assert(e.skip(c).len() == reloc_blocks_count(rest));
        lemma_reloc_table_len(rest, e.skip(c));
    }
}

/// Adding an entry to the last block adds 2 bytes and one entry.
pub proof fn lemma_reloc_blocks_bump(b: Seq<(int, int)>, p: int)
    requires
        b.len() > 0,
    ensures
        reloc_blocks_size(b.update(b.len() - 1, (p, b.last().1 + 1))) == reloc_blocks_size(b) + 2,
        reloc_blocks_count(b.update(b.len() - 1, (p, b.last().1 + 1))) == reloc_blocks_count(b) + 1,
{
    let c = b.update(b.len() - 1, (p, b.last().1 + 1));
    assert(c.drop_last() =~= b.drop_last());
}

/// A new block adds its header and entries.
pub proof fn lemma_reloc_blocks_push(b: Seq<(int, int)>, x: (int, int))
    ensures
        reloc_blocks_size(b.push(x)) == reloc_blocks_size(b) + 8 + 2 * x.1,
        reloc_blocks_count(b.push(x)) == reloc_blocks_count(b) + x.1,
{
    assert(b.push(x).drop_last() =~= b);
}

} // verus!
