//! The parts of a 64-bit PE image that the patcher reads, as plain values,
//! and the reads themselves, which the `object` crate performs.

use vstd::prelude::*;
use crate::bytes::{le_u16, le_u32};
use object::LittleEndian as LE;
use object::read::pe::{ImageNtHeaders, ImageOptionalHeader};

verus! {

/// `object`'s error for a malformed image: a static message, nothing else.
#[verifier::external_type_specification]
#[verifier::external_body]
pub struct ExObjectError(object::read::Error);

/// A section header of a PE image, as stored in its section table.
#[derive(Clone, Copy, Debug)]
pub struct SectionHeader {
    pub name: [u8; 8],
    pub virtual_size: u32,
    pub virtual_address: u32,
    pub size_of_raw_data: u32,
    pub pointer_to_raw_data: u32,
    pub characteristics: u32,
}

/// The mathematical content of a section header.
pub struct SectionView {
    pub name: Seq<u8>,
    pub virtual_size: u32,
    pub virtual_address: u32,
    pub size_of_raw_data: u32,
    pub pointer_to_raw_data: u32,
    pub characteristics: u32,
}

impl View for SectionHeader {
    type V = SectionView;

    open spec fn view(&self) -> SectionView {
        SectionView {
            name: self.name@,
            virtual_size: self.virtual_size,
            virtual_address: self.virtual_address,
            size_of_raw_data: self.size_of_raw_data,
            pointer_to_raw_data: self.pointer_to_raw_data,
            characteristics: self.characteristics,
        }
    }
}

/// An entry of the data directory table: where a table lives in memory.
#[derive(Clone, Copy, Debug)]
pub struct DataDirectory {
    pub virtual_address: u32,
    pub size: u32,
}

/// What the NT headers of a 64-bit image say about the rest of it.
pub struct NtSummary {
    /// File offset of the section table (just after the optional header).
    pub section_table_offset: u64,
    pub number_of_sections: u16,
    pub section_alignment: u32,
    pub file_alignment: u32,
    pub data_directories: Vec<DataDirectory>,
}

/// The "MZ" signature that opens the DOS header.
pub const DOS_SIGNATURE: u16 = 0x5A4D;
/// The "PE\0\0" signature that opens the NT headers.
pub const NT_SIGNATURE: u32 = 0x4550;
/// Optional header magic of a 64-bit image.
pub const OPTIONAL_HEADER64_MAGIC: u16 = 0x20b;
/// Size of the NT headers of a 64-bit image without the data directories.
pub const NT_HEADERS64_SIZE: u64 = 136;
/// Size of the fixed part of the 64-bit optional header.
pub const OPTIONAL_HEADER64_SIZE: u64 = 112;
/// Size of a section header.
pub const SECTION_HEADER_SIZE: u64 = 40;

/// The DOS header is present and carries its signature.
pub open spec fn dos_header_ok(s: Seq<u8>) -> bool {
    s.len() >= 64 && le_u16(s, 0) == DOS_SIGNATURE
}

/// File offset of the NT headers, as the DOS header gives it.
pub open spec fn dos_nt_offset(s: Seq<u8>) -> int {
    le_u32(s, 60)
}

/// `size_of_optional_header` of the file header of the NT headers at `o`.
pub open spec fn nt_optional_size(s: Seq<u8>, o: int) -> int {
    le_u16(s, o + 20)
}

/// `number_of_rva_and_sizes` of the 64-bit optional header of the NT headers at `o`.
pub open spec fn nt_directory_count(s: Seq<u8>, o: int) -> int {
    le_u32(s, o + 132)
}

/// The 64-bit NT headers at `o`, their data directories included, are well formed.
pub open spec fn nt64_ok(s: Seq<u8>, o: int) -> bool {
    &&& o + NT_HEADERS64_SIZE <= s.len()
    &&& le_u32(s, o) == NT_SIGNATURE
    &&& le_u16(s, o + 24) == OPTIONAL_HEADER64_MAGIC
    &&& nt_optional_size(s, o) >= OPTIONAL_HEADER64_SIZE
    &&& (nt_optional_size(s, o) == OPTIONAL_HEADER64_SIZE || o + 24 + nt_optional_size(s, o) <= s.len())
    &&& 8 * nt_directory_count(s, o) <= nt_optional_size(s, o) - OPTIONAL_HEADER64_SIZE
}

/// File offset of the section table that follows the NT headers at `o`.
pub open spec fn nt_section_table_offset(s: Seq<u8>, o: int) -> int {
    o + 24 + nt_optional_size(s, o)
}

/// Number of sections that the file header of the NT headers at `o` declares.
pub open spec fn nt_section_count(s: Seq<u8>, o: int) -> int {
    le_u16(s, o + 6)
}

/// The data directory entry `i` of the NT headers at `o`.
pub open spec fn nt_directory(s: Seq<u8>, o: int, i: int) -> (int, int) {
    (le_u32(s, o + 136 + 8 * i), le_u32(s, o + 140 + 8 * i))
}

/// The section header stored at `off`.
pub open spec fn section_view_at(s: Seq<u8>, off: int) -> SectionView {
    SectionView {
        name: s.subrange(off, off + 8),
        virtual_size: le_u32(s, off + 8) as u32,
        virtual_address: le_u32(s, off + 12) as u32,
        size_of_raw_data: le_u32(s, off + 16) as u32,
        pointer_to_raw_data: le_u32(s, off + 20) as u32,
        characteristics: le_u32(s, off + 36) as u32,
    }
}

/// A table of `count` section headers at `off` lies within the image.
pub open spec fn section_table_fits(s: Seq<u8>, off: int, count: int) -> bool {
    count == 0 || off + SECTION_HEADER_SIZE * count <= s.len()
}

/// The section table of a 64-bit PE image, or `None` where its headers are malformed.
pub open spec fn pe_sections(s: Seq<u8>) -> Option<Seq<SectionView>> {
    let o = dos_nt_offset(s);
    if dos_header_ok(s) && nt64_ok(s, o)
        && section_table_fits(s, nt_section_table_offset(s, o), nt_section_count(s, o)) {
        Some(Seq::new(nt_section_count(s, o) as nat,
            |i: int| section_view_at(s, nt_section_table_offset(s, o) + SECTION_HEADER_SIZE * i)))
    } else {
        None
    }
}

/// `object::pe::ImageDosHeader::parse` followed by `nt_headers_offset`: the parse
/// succeeds exactly when the 64-byte DOS header is present and starts with "MZ",
/// and the offset is the `e_lfanew` field (a little-endian `u32` at byte 60).
#[verifier::external_body]
pub fn dos_nt_headers_offset(data: &[u8]) -> (r: Result<u32, object::read::Error>)
    ensures
        r is Ok <==> dos_header_ok(data@),
        r matches Ok(o) ==> o == dos_nt_offset(data@),
{
    match object::pe::ImageDosHeader::parse(data) {
        Ok(h) => Ok(h.nt_headers_offset()),
        Err(e) => Err(e),
    }
}

/// `object::read::pe::ImageNtHeaders::parse` for `ImageNtHeaders64`: it reads the
/// 136 bytes of the NT headers at `nt_offset`, checks the "PE\0\0" signature and
/// the 64-bit optional header magic, then reads the rest of the optional header
/// (`size_of_optional_header` less 112 bytes) and the data directories it holds.
/// The summary gives the offset after the optional header (where the section
/// table starts), the section count, the alignments and the data directories,
/// each as stored in the bytes. The parsed headers and data directory table
/// are handed out as they are.
#[verifier::external_body]
pub fn parse_nt_headers64<'a>(data: &'a [u8], nt_offset: u32)
    -> (r: Result<(&'a object::pe::ImageNtHeaders64, object::read::pe::DataDirectories<'a>, NtSummary), object::read::Error>)
    ensures
        r is Ok <==> nt64_ok(data@, nt_offset as int),
        r matches Ok((_, _, sum)) ==> {
            &&& sum.section_table_offset == nt_section_table_offset(data@, nt_offset as int)
            &&& sum.number_of_sections == nt_section_count(data@, nt_offset as int)
            &&& sum.section_alignment == le_u32(data@, nt_offset + 56)
            &&& sum.file_alignment == le_u32(data@, nt_offset + 60)
            &&& sum.data_directories@.len() == nt_directory_count(data@, nt_offset as int)
            &&& forall|i: int| 0 <= i < sum.data_directories@.len() ==>
                (#[trigger] sum.data_directories@[i]).virtual_address == nt_directory(data@, nt_offset as int, i).0
                && sum.data_directories@[i].size == nt_directory(data@, nt_offset as int, i).1
        },
{
    let mut offset = u64::from(nt_offset);
    let (nt, dirs) = object::pe::ImageNtHeaders64::parse(data, &mut offset)?;
    let (f, o) = (nt.file_header(), nt.optional_header());
    Ok((nt, dirs, NtSummary {
        section_table_offset: offset, number_of_sections: f.number_of_sections.get(LE),
        section_alignment: o.section_alignment(), file_alignment: o.file_alignment(),
        data_directories: dirs.iter().map(|d| DataDirectory {
            virtual_address: d.virtual_address.get(LE), size: d.size.get(LE) }).collect(),
    }))
}

/// `object::read::ReadRef::read_slice_at` for section headers, the read that
/// `SectionTable::parse` makes: `count` headers of 40 bytes at `offset`, which
/// succeeds when the table lies within the image (or is empty); each header is
/// taken field by field from its bytes.
#[verifier::external_body]
pub fn read_section_headers(data: &[u8], offset: u64, count: u16)
    -> (r: Result<Vec<SectionHeader>, ()>)
    ensures
        r is Ok <==> section_table_fits(data@, offset as int, count as int),
        r matches Ok(hs) ==> hs@.len() == count && forall|i: int| 0 <= i < count ==>
            (#[trigger] hs@[i])@ == section_view_at(data@, offset + SECTION_HEADER_SIZE * i),
{
    let table = object::read::ReadRef::read_slice_at::<object::pe::ImageSectionHeader>(data, offset, count as usize)?;
    Ok(table.iter().map(|h| SectionHeader {
        name: h.name, virtual_size: h.virtual_size.get(LE), virtual_address: h.virtual_address.get(LE),
        size_of_raw_data: h.size_of_raw_data.get(LE), pointer_to_raw_data: h.pointer_to_raw_data.get(LE),
        characteristics: h.characteristics.get(LE).0 }).collect())
}

#[verifier::external_type_specification]
#[verifier::external_body]
pub struct ExImageNtHeaders64(object::pe::ImageNtHeaders64);

#[verifier::external_type_specification]
#[verifier::external_body]
pub struct ExDataDirectories<'a>(object::read::pe::DataDirectories<'a>);

} // verus!
