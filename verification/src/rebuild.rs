//! Rebuilding a 64-bit client executable with one more section, `.rsps`, that
//! holds the strings the patched client loads in place of its own; and the
//! patch as a whole.

use vstd::prelude::*;
use vstd::string::StringSliceAdditionalSpecFns;
use crate::bytes::{le_n, le_u16, le_u32, u32_le_bytes, pow256, read_le, lemma_le_n_bound, lemma_pow256_le};
use crate::pe::{
    DataDirectory, NtSummary, SectionHeader, SectionView, pe_sections, dos_nt_offset, nt_directory_count,
    nt_directory, dos_nt_headers_offset, parse_nt_headers64, read_section_headers, section_view_at, nt64_ok,
    dos_header_ok, nt_section_table_offset, nt_section_count, section_table_fits,
};
use crate::patch::{
    PatchError, try_replace_client_string, spec_replace_client_string, spec_find_string, spec_get_section, matches_at,
};
use crate::patch_laws::law_found_string_occurs;
use crate::file_order::{file_end, files_ordered, lemma_plan_ordered};
use crate::pe_writer::{
    WriterLayout, writer_state, is_pow2, pow2_u32, align_u32, align_u64, align32, align64, initial_layout, lemma_align64,
    after_reserve, reserve_nt_headers_ok, after_reserve_nt_headers, reserve_section_headers_ok,
    after_reserve_section_headers, reserve_section_ok, after_reserve_section, section_file_offset, section_file_size,
    section_kind, section_total, add_reloc_ok, after_add_reloc, reserve_reloc_section_ok, after_reserve_reloc_section,
    reserve_certificate_table_ok, after_reserve_certificate_table, reloc_blocks_size, reloc_blocks_count,
    reloc_table_bytes, reloc_section_name, reloc_section_characteristics, nt_written_fields, nt_headers_at, zeros,
    lemma_reloc_blocks_bump, lemma_reloc_blocks_push, lemma_reloc_table_len, writer_new, writer_finish, writer_reserved_len,
    writer_virtual_len, writer_len, writer_nt_headers_offset, writer_reserve_dos_header_and_stub, writer_reserve,
    writer_reserve_nt_headers, writer_set_data_directory, writer_reserve_section_headers, writer_reserve_section,
    writer_add_reloc, writer_reserve_reloc_section, writer_reserve_certificate_table, writer_write_dos_header_and_stub,
    writer_write_align, writer_write, writer_write_nt_headers, writer_write_section_headers, writer_write_section,
    writer_write_reloc_section, writer_write_certificate_table, dos_header_and_stub_bytes, nt_headers_bytes,
    section_headers_bytes,
};

verus! {



/// Index of the certificate table in the data directories.
pub const IMAGE_DIRECTORY_ENTRY_SECURITY: usize = 4;
/// Index of the base relocation table in the data directories.
pub const IMAGE_DIRECTORY_ENTRY_BASERELOC: usize = 5;
/// Characteristics of `.rsps`: initialized data, readable.
pub const RSPS_CHARACTERISTICS: u32 = 0x4000_0040;
/// Virtual size of `.rsps`.
pub const RSPS_VIRTUAL_SIZE: u32 = 0x1000;
/// File size of `.rsps`.
pub const RSPS_RAW_SIZE: u32 = 0x200;

/// Where the patched client fetches its `jav_config` from.
pub const JAV_CONFIG_URL: &'static str = "https://raw.githubusercontent.com/AlterRSPS/Resources/main/jav_configs/jav_config.ws\0";
/// The domain the patched client accepts in place of its own.
pub const WHITELIST_DOMAIN: &'static str = "raw.githubusercontent.com\0";
/// Where the patched client fetches its world list from.
pub const WORLD_LIST_URL: &'static str = "https://127.0.0.1/slr.ws?order=LPWM\0";
/// The `jav_config` location that the unpatched client loads.
pub const ORIGINAL_JAV_CONFIG_URL: &'static str = "http://oldschool.runescape.com/jav_config.ws?m=0\0";
/// The world list location that the unpatched client loads.
pub const ORIGINAL_WORLD_LIST_URL: &'static str = "https://oldschool.runescape.com/slr.ws?order=LPWM\0";
/// The address prefix that the unpatched client accepts.
pub const ORIGINAL_WHITELIST: &'static str = "192.168.1.\0";

/// Why the image could not be rebuilt.
#[derive(Clone, Copy, Debug, PartialEq, Eq, Structural)]
pub enum RebuildError {
    /// `object` found the headers, the section data or the relocations
    /// malformed, or could not write the new DOS header.
    Malformed,
    /// The rich header or the certificate table runs past the end of the image.
    OutOfBounds,
    /// The length of the rich header does not fit in 32 bits.
    Overflow,
    /// `object`'s writer cannot lay the image out as it is: its alignments
    /// are not powers of two, its sizes overflow the writer's 32-bit or
    /// reserved-length arithmetic, its relocations are not in ascending page
    /// order, or a copied section would move from where the input has it.
    Unsupported,
}

/// The bytes of the `.rsps` section: the `jav_config` URL, the whitelisted
/// domain and the world list URL, each NUL-terminated, in this order.
pub open spec fn spec_rsps_section_data() -> Seq<u8> {
    JAV_CONFIG_URL.spec_bytes() + WHITELIST_DOMAIN.spec_bytes() + WORLD_LIST_URL.spec_bytes()
}

/// Appends the bytes of a string.
fn push_str(out: &mut Vec<u8>, s: &str)
    ensures
        final(out)@ == old(out)@ + s.spec_bytes(),
{
    let b = s.as_bytes();
    let mut i: usize = 0;
    while i < b.len()
        invariant
            i <= b@.len(),
            b@ == s.spec_bytes(),
            out@ == old(out)@ + b@.take(i as int),
        decreases b@.len() - i,
    {
        out.push(b[i]);
        i = i + 1;
        assert(out@ =~= old(out)@ + b@.take(i as int));
    }
    assert(b@.take(b@.len() as int) =~= b@);
}

/// The bytes of the `.rsps` section.
pub fn rsps_section_data() -> (data: Vec<u8>)
    ensures
        data@ == spec_rsps_section_data(),
{
    let mut data: Vec<u8> = Vec::new();
    push_str(&mut data, JAV_CONFIG_URL);
    push_str(&mut data, WHITELIST_DOMAIN);
    push_str(&mut data, WORLD_LIST_URL);
    assert(data@ =~= spec_rsps_section_data());
    data
}

/// The name of the `.rsps` section: ".rsps" padded with NUL bytes to 8 bytes.
pub open spec fn spec_rsps_section_name() -> Seq<u8> {
    ".rsps".spec_bytes() + seq![0u8, 0u8, 0u8]
}

/// The 8-byte name of the `.rsps` section.
pub fn rsps_section_name() -> (name: [u8; 8])
    ensures
        name@ == spec_rsps_section_name(),
{
    let rsps_str = ".rsps";
    proof {
        reveal_strlit(".rsps");
        vstd::string::is_ascii_spec_bytes(rsps_str);
    }
    let bytes = rsps_str.as_bytes();
    assert(bytes@.len() == 5);
    let mut name = [0u8; 8];
    let mut i: usize = 0;
    while i < 5
        invariant
            i <= 5,
            bytes@.len() == 5,
            name@.len() == 8,
            forall|j: int| 0 <= j < i ==> name@[j] == bytes@[j],
            forall|j: int| 5 <= j < 8 ==> name@[j] == 0,
        decreases 5 - i,
    {
        name[i] = bytes[i];
        i = i + 1;
    }
    assert(name@ =~= spec_rsps_section_name());
    name
}

/// The data directory at `index` when it is present and has a non-zero
/// address, as (address, size) (`object`'s `DataDirectories::get` followed by
/// `ImageDataDirectory::address_range`).
pub open spec fn spec_directory_range(dirs: Seq<DataDirectory>, index: int) -> Option<(u32, u32)> {
    if 0 <= index < dirs.len() && dirs[index].virtual_address != 0 {
        Some((dirs[index].virtual_address, dirs[index].size))
    } else {
        None
    }
}

/// The data directory at `index` when present with a non-zero address.
pub fn directory_range(dirs: &Vec<DataDirectory>, index: usize) -> (r: Option<(u32, u32)>)
    ensures
        r == spec_directory_range(dirs@, index as int),
{
    if index < dirs.len() && dirs[index].virtual_address != 0 {
        Some((dirs[index].virtual_address, dirs[index].size))
    } else {
        None
    }
}

/// The data directories that are copied as they are: those with a non-zero
/// address other than the certificate and base relocation tables, which the
/// rebuild recreates.
pub open spec fn is_copied_directory(dirs: Seq<DataDirectory>, i: int) -> bool {
    dirs[i].virtual_address != 0 && i != IMAGE_DIRECTORY_ENTRY_SECURITY && i != IMAGE_DIRECTORY_ENTRY_BASERELOC
}

/// A section is copied unless its address range is the base relocation table,
/// which the rebuild recreates.
pub open spec fn is_copied_section(h: SectionView, reloc_dir: Option<(u32, u32)>) -> bool {
    reloc_dir != Some((h.virtual_address, h.virtual_size))
}

/// The indices, in table order, of the sections among the first `n` of `hs`
/// that the rebuild copies.
pub open spec fn copied_indices(hs: Seq<SectionView>, reloc_dir: Option<(u32, u32)>, n: int) -> Seq<int>
    decreases n,
{
    if n <= 0 {
        Seq::empty()
    } else if is_copied_section(hs[n - 1], reloc_dir) {
        copied_indices(hs, reloc_dir, n - 1).push(n - 1)
    } else {
        copied_indices(hs, reloc_dir, n - 1)
    }
}

/// The copied indices lie in range and ascend.
pub proof fn lemma_copied_indices(hs: Seq<SectionView>, reloc_dir: Option<(u32, u32)>, n: int)
    ensures
        copied_indices(hs, reloc_dir, n).len() <= if n < 0 { 0 } else { n },
        forall|k: int| 0 <= k < copied_indices(hs, reloc_dir, n).len() ==>
            0 <= #[trigger] copied_indices(hs, reloc_dir, n)[k] < n
            && is_copied_section(hs[copied_indices(hs, reloc_dir, n)[k]], reloc_dir),
    decreases n,
{
    if n > 0 {
        lemma_copied_indices(hs, reloc_dir, n - 1);
    }
}

/// The views of the section headers.
pub open spec fn header_views(hs: Seq<SectionHeader>) -> Seq<SectionView> {
    hs.map_values(|h: SectionHeader| h@)
}

/// The indices of the copied sections, in table order.
pub fn copied_sections(sections: &Vec<SectionHeader>, reloc_dir: Option<(u32, u32)>) -> (r: Vec<usize>)
    ensures
        r@.len() == copied_indices(header_views(sections@), reloc_dir, sections@.len() as int).len(),
        forall|k: int| 0 <= k < r@.len() ==>
            #[trigger] r@[k] == copied_indices(header_views(sections@), reloc_dir, sections@.len() as int)[k],
{
    let ghost views = header_views(sections@);
    let mut r: Vec<usize> = Vec::new();
    let mut i: usize = 0;
    while i < sections.len()
        invariant
            i <= sections@.len(),
            views == header_views(sections@),
            r@.len() == copied_indices(views, reloc_dir, i as int).len(),
            forall|k: int| 0 <= k < r@.len() ==> #[trigger] r@[k] == copied_indices(views, reloc_dir, i as int)[k],
        decreases sections@.len() - i,
    {
        let h = sections[i];
        assert(views[i as int] == h@);
        let copied = match reloc_dir {
            Some(d) => !(d.0 == h.virtual_address && d.1 == h.virtual_size),
            None => true,
        };
        if copied {
            r.push(i);
        }
        i = i + 1;
    }
    r
}

/// Number of section headers of the rebuilt image: the copied sections, the
/// recreated relocation section if there is one, and `.rsps`; `None` where
/// that does not fit the 16-bit count of the file header.
pub fn output_section_count(copied: usize, has_relocs: bool) -> (n: Option<u16>)
    ensures
        ({
            let total = copied + (if has_relocs { 1int } else { 0int }) + 1;
            &&& n is Some <==> total <= 0xffff
            &&& n matches Some(c) ==> c == total
        }),
{
    let extra: usize = if has_relocs { 2 } else { 1 };
    if copied > 0xffff - extra {
        None
    } else {
        Some((copied + extra) as u16)
    }
}

/// Every copied section among the first `n` has its index listed.
pub proof fn lemma_copied_index_present(hs: Seq<SectionView>, reloc_dir: Option<(u32, u32)>, n: int, j: int)
    requires
        0 <= j < n,
        is_copied_section(hs[j], reloc_dir),
    ensures
        exists|m: int| 0 <= m < copied_indices(hs, reloc_dir, n).len() && #[trigger] copied_indices(hs, reloc_dir, n)[m] == j,
    decreases n,
{
    let ci = copied_indices(hs, reloc_dir, n);
    if j == n - 1 {
        assert(ci[ci.len() - 1] == j);
    } else {
        lemma_copied_index_present(hs, reloc_dir, n - 1, j);
        let m = choose|m: int| 0 <= m < copied_indices(hs, reloc_dir, n - 1).len()
            && #[trigger] copied_indices(hs, reloc_dir, n - 1)[m] == j;
        assert(ci[m] == j);
    }
}

/// The file range of a section that holds its data: its file offset, and the
/// smaller of its virtual size and file size (`object`'s
/// `ImageSectionHeader::pe_file_range`).
pub open spec fn spec_section_file_range(h: SectionView) -> (u32, u32) {
    (h.pointer_to_raw_data, if h.virtual_size < h.size_of_raw_data { h.virtual_size } else { h.size_of_raw_data })
}

/// The file range of a section that holds its data.
pub fn section_file_range(h: &SectionHeader) -> (r: (u32, u32))
    ensures
        r == spec_section_file_range(h@),
{
    (h.pointer_to_raw_data, if h.virtual_size < h.size_of_raw_data { h.virtual_size } else { h.size_of_raw_data })
}

/// The span `[start, start + len)` of an image of `data_len` bytes, if the image
/// holds it.
pub fn copy_span(start: usize, len: usize, data_len: usize) -> (r: Option<(usize, usize)>)
    ensures
        r is Some <==> start + len <= data_len,
        r matches Some((s, e)) ==> s == start && e == start + len,
{
    if start <= data_len && len <= data_len - start {
        Some((start, start + len))
    } else {
        None
    }
}

/// The length reserved for a rich header of `length` bytes: the length cut to
/// 32 bits, plus 8; `None` where that sum does not fit in 32 bits.
pub fn rich_reserve_length(length: usize) -> (r: Option<u32>)
    ensures
        r is Some <==> (length as int % 0x1_0000_0000) + 8 <= u32::MAX,
        r matches Some(n) ==> n == (length as int % 0x1_0000_0000) + 8,
{
    let cut = (length as u64 % 0x1_0000_0000) as u32;
    if cut <= u32::MAX - 8 {
        Some(cut + 8)
    } else {
        None
    }
}

/// The first offset at or after `off`, in steps of 4, where `d` holds `needle`
/// (`object`'s `memmem` with an alignment of 4).
pub open spec fn aligned_find(d: Seq<u8>, needle: Seq<u8>, off: int) -> Option<int>
    decreases d.len() + 4 - off,
{
    if off < 0 || off + needle.len() > d.len() {
        None
    } else if d.subrange(off, off + needle.len()) == needle {
        Some(off)
    } else {
        aligned_find(d, needle, off + 4)
    }
}

/// The rich header that `object::read::pe::RichHeaderInfo::parse` locates before
/// the NT headers at `nt_offset`, as (offset, length): in the bytes before the
/// NT headers, the first "Rich" marker at a multiple of 4, followed by the
/// 32-bit XOR key; before that marker, the first start sequence at a multiple
/// of 4 ("DanS" and three zeros, each XORed with the key); the length runs
/// from the start sequence to the end of the key. None where the bytes before
/// the NT headers are not all in the image or a part is missing.
pub open spec fn rich_header_span(data: Seq<u8>, nt_offset: u32) -> Option<(usize, usize)> {
    if nt_offset > data.len() {
        None
    } else {
        let d = data.take(nt_offset as int);
        match aligned_find(d, seq![0x52u8, 0x69, 0x63, 0x68], 0) {
            None => None,
            Some(e) => if e + 8 > d.len() {
                None
            } else {
                let key = le_u32(d, e + 4) as u32;
                let start = u32_le_bytes(0x536e_6144u32 ^ key) + u32_le_bytes(key) + u32_le_bytes(key) + u32_le_bytes(key);
                match aligned_find(d.take(e), start, 0) {
                    None => None,
                    Some(st) => Some((st as usize, (e - st + 8) as usize)),
                }
            },
        }
    }
}

/// `object::read::pe::RichHeaderInfo::parse`: locates the rich header between
/// the DOS stub and the NT headers at `nt_offset`, as `rich_header_span`
/// spells out. Where it finds one, the header ends (its "Rich" marker and XOR
/// key included) at or before `nt_offset`, which lies within the image.
#[verifier::external_body]
fn find_rich_header(data: &[u8], nt_offset: u32) -> (r: Option<(usize, usize)>)
    ensures
        r == rich_header_span(data@, nt_offset),
        r matches Some((o, l)) ==> o + l <= nt_offset <= data@.len(),
{
    object::read::pe::RichHeaderInfo::parse(data, u64::from(nt_offset)).map(|h| (h.offset, h.length))
}

/// `object::read::ReadRef::read_bytes_at`: the `size` bytes at `offset`; an
/// empty read always succeeds, any other one when it lies within the image.
#[verifier::external_body]
fn read_bytes(data: &[u8], offset: u64, size: u64) -> (r: Result<&[u8], ()>)
    ensures
        r is Ok <==> (size == 0 || offset + size <= data@.len()),
        r matches Ok(b) ==> b@ == (if size == 0 { Seq::<u8>::empty() } else { data@.subrange(offset as int, offset + size) }),
{
    object::read::ReadRef::read_bytes_at(data, offset, size)
}


/// What `object` reads as the base relocations of the image `data`
/// (`PeFile64::parse`, then `DataDirectories::relocation_blocks` read block by
/// block): each relocation as (virtual address, type), in table order; `None`
/// where the image has no base relocation directory; `Err` where a read fails.
pub uninterp spec fn pe_base_relocations(data: Seq<u8>) -> Result<Option<Seq<(u32, u16)>>, ()>;

/// The view of a list of relocations read from an image.
pub open spec fn relocations_view(r: Result<Option<Vec<(u32, u16)>>, ()>) -> Result<Option<Seq<(u32, u16)>>, ()> {
    match r {
        Ok(Some(v)) => Ok(Some(v@)),
        Ok(None) => Ok(None),
        Err(_) => Err(()),
    }
}

/// `object::read::pe::PeFile64::parse` and `DataDirectories::relocation_blocks`,
/// with the blocks read to the end: the base relocations of the image.
#[verifier::external_body]
fn relocations(data: &[u8]) -> (r: Result<Option<Vec<(u32, u16)>>, ()>)
    ensures
        relocations_view(r) == pe_base_relocations(data@),
{
    let file = object::read::pe::PeFile64::parse(data).map_err(|_| ())?;
    let mut blocks = match file.data_directories().relocation_blocks(data, &file.section_table()).map_err(|_| ())? {
        Some(b) => b,
        None => return Ok(None),
    };
    let mut out = Vec::new();
    while let Some(block) = blocks.next().map_err(|_| ())? {
        out.extend(block.map(|r| (r.virtual_address, r.typ.0)));
    }
    Ok(Some(out))
}

/// The data directories of the image `s`, as its NT headers hold them.
pub open spec fn spec_directories(s: Seq<u8>) -> Seq<DataDirectory> {
    let o = dos_nt_offset(s);
    Seq::new(nt_directory_count(s, o) as nat, |i: int| DataDirectory {
        virtual_address: nt_directory(s, o, i).0 as u32,
        size: nt_directory(s, o, i).1 as u32,
    })
}

/// The base relocation table of the image `s`, as (address, size), if it has one.
pub open spec fn spec_reloc_dir(s: Seq<u8>) -> Option<(u32, u32)> {
    spec_directory_range(spec_directories(s), IMAGE_DIRECTORY_ENTRY_BASERELOC as int)
}

/// The certificate table of the image `s`, as (file offset, size), if it has one.
pub open spec fn spec_cert_dir(s: Seq<u8>) -> Option<(u32, u32)> {
    spec_directory_range(spec_directories(s), IMAGE_DIRECTORY_ENTRY_SECURITY as int)
}

/// The rich header of the image `s`, as `object` locates it.
pub open spec fn spec_rich_header(s: Seq<u8>) -> Option<(usize, usize)> {
    rich_header_span(s, dos_nt_offset(s) as u32)
}

/// The data of section `h` lies within the image `s` (or is empty).
pub open spec fn section_data_fits(s: Seq<u8>, h: SectionView) -> bool {
    spec_section_file_range(h).1 == 0 || spec_section_file_range(h).0 + spec_section_file_range(h).1 <= s.len()
}

/// The checks that decide, before any relocation is read, whether the image
/// can be rebuilt, in the order the rebuild makes them: the headers and the
/// section table must be well formed, the rich header's length (plus 8) must
/// fit in 32 bits, and the data of every copied section must lie in the image.
pub open spec fn rebuild_precheck(s: Seq<u8>) -> Result<(), RebuildError> {
    match pe_sections(s) {
        None => Err(RebuildError::Malformed),
        Some(hs) => {
            if spec_rich_header(s) matches Some((_, l)) && (l as int % 0x1_0000_0000) + 8 > u32::MAX {
                Err(RebuildError::Overflow)
            } else if exists|k: int| 0 <= k < hs.len() && is_copied_section(hs[k], spec_reloc_dir(s))
                && !section_data_fits(s, #[trigger] hs[k]) {
                Err(RebuildError::Malformed)
            } else {
                Ok(())
            }
        },
    }
}

/// An image whose headers are well formed, whose rich header fits, and one of
/// whose copied sections has its data outside the image fails the precheck as
/// malformed.
proof fn lemma_precheck_malformed(s: Seq<u8>, j: int)
    requires
        pe_sections(s) is Some,
        0 <= j < pe_sections(s).unwrap().len(),
        is_copied_section(pe_sections(s).unwrap()[j], spec_reloc_dir(s)),
        !section_data_fits(s, pe_sections(s).unwrap()[j]),
        !(spec_rich_header(s) matches Some((_, l)) && (l as int % 0x1_0000_0000) + 8 > u32::MAX),
    ensures
        rebuild_precheck(s) == Err::<(), RebuildError>(RebuildError::Malformed),
{
    let hs = pe_sections(s).unwrap();
    assert(is_copied_section(hs[j], spec_reloc_dir(s)) && !section_data_fits(s, hs[j]));
}

/// The rich header (with the 8 bytes after it that the rebuild copies too) and
/// the certificate table lie within the image.
pub open spec fn rebuild_spans_fit(s: Seq<u8>) -> bool {
    &&& (spec_rich_header(s) matches Some((o, l)) ==> o + l + 8 <= s.len())
    &&& (spec_cert_dir(s) matches Some((a, n)) ==> a + n <= s.len())
}



/// An image that passes the precheck has well-formed headers and the data of
/// each copied section within it.
proof fn lemma_precheck_fits(s: Seq<u8>)
    requires
        rebuild_precheck(s) is Ok,
    ensures
        pe_sections(s) is Some,
        forall|k: int| 0 <= k < copied_of(s).len() ==> section_data_fits(s, #[trigger] input_sections(s)[copied_of(s)[k]]),
{
    let hs = input_sections(s);
    lemma_copied_indices(hs, spec_reloc_dir(s), hs.len() as int);
    assert forall|k: int| 0 <= k < copied_of(s).len() implies section_data_fits(s, #[trigger] input_sections(s)[copied_of(s)[k]]) by {
        let j = copied_of(s)[k];
        if !section_data_fits(s, hs[j]) {
            assert(is_copied_section(hs[j], spec_reloc_dir(s)) && !section_data_fits(s, hs[j]));
        }
    }
}

/// Section alignment of the image `s`, as its optional header gives it.
pub open spec fn image_section_alignment(s: Seq<u8>) -> int {
    le_u32(s, dos_nt_offset(s) + 56)
}

/// File alignment of the image `s`, as its optional header gives it.
pub open spec fn image_file_alignment(s: Seq<u8>) -> int {
    le_u32(s, dos_nt_offset(s) + 60)
}

/// The sections of `s`, the copied ones and their number.
pub open spec fn input_sections(s: Seq<u8>) -> Seq<SectionView> {
    pe_sections(s).unwrap()
}

/// The indices of the copied sections of `s`.
pub open spec fn copied_of(s: Seq<u8>) -> Seq<int> {
    copied_indices(input_sections(s), spec_reloc_dir(s), input_sections(s).len() as int)
}

/// Number of section headers of the rebuilt image.
pub open spec fn output_count(s: Seq<u8>) -> int {
    copied_of(s).len() + 1 + if spec_reloc_dir(s) is Some { 1int } else { 0int }
}

/// The relocations that the rebuild copies: those `object` reads where the
/// image has a base relocation directory, none otherwise.
pub open spec fn rebuild_relocs(s: Seq<u8>) -> Seq<(u32, u16)> {
    match pe_base_relocations(s) {
        Ok(Some(v)) => if spec_reloc_dir(s) is Some { v } else { Seq::empty() },
        _ => Seq::empty(),
    }
}

/// The image has a base relocation directory whose relocations `object` cannot read.
pub open spec fn relocs_unreadable(s: Seq<u8>) -> bool {
    spec_reloc_dir(s) is Some && !(pe_base_relocations(s) matches Ok(Some(_)))
}

/// The data directories of the rebuilt image before the relocation and
/// certificate tables are placed: the copied ones, (0, 0) for the others.
pub open spec fn copied_directory_values(ds: Seq<DataDirectory>) -> Seq<(int, int)> {
    Seq::new(ds.len(), |i: int| if is_copied_directory(ds, i) { (ds[i].virtual_address as int, ds[i].size as int) } else { (0int, 0int) })
}

/// The writer's layout once the DOS header and stub, the rich header, the NT
/// headers, the copied data directories and the section headers are reserved;
/// `None` where an alignment is not a power of two, the section count does not
/// fit in 16 bits, the rich header's reserved length overflows 32 bits, or a
/// reservation would panic.
#[verifier::opaque]
pub open spec fn plan_headers(s: Seq<u8>) -> Option<WriterLayout> {
    let (sa, fa) = (image_section_alignment(s), image_file_alignment(s));
    let ds = spec_directories(s);
    let l0 = WriterLayout { reserved: 128, ..initial_layout(sa, fa) };
    let l1 = match spec_rich_header(s) {
        Some((_, len)) => if len + 8 <= u32::MAX { Some(after_reserve(l0, len + 8, 4)) } else { None },
        None => Some(l0),
    };
    if !(is_pow2(sa) && is_pow2(fa) && output_count(s) <= 0xffff) || l1 is None
        || !reserve_nt_headers_ok(l1.unwrap(), ds.len() as int) {
        None
    } else {
        let l2 = after_reserve_nt_headers(l1.unwrap(), ds.len() as int);
        let l3 = WriterLayout { directories: copied_directory_values(ds), ..l2 };
        if reserve_section_headers_ok(l3, output_count(s)) {
            Some(after_reserve_section_headers(l3, output_count(s)))
        } else {
            None
        }
    }
}

/// A copied section can be reserved, and the writer places it where the input
/// has it (the rebuild asserts this in debug builds): same virtual address,
/// file offset and file size.
pub open spec fn section_step_ok(p: WriterLayout, h: SectionView) -> bool {
    &&& reserve_section_ok(p, h.characteristics, h.virtual_size as int, h.size_of_raw_data as int)
    &&& p.virtual_len == h.virtual_address
    &&& section_file_offset(p, h.size_of_raw_data as int) == h.pointer_to_raw_data
    &&& section_file_size(p, h.size_of_raw_data as int) == h.size_of_raw_data
}

/// The layout after the first `k` copied sections are reserved from `l`.
pub open spec fn plan_sections(l: WriterLayout, hs: Seq<SectionView>, ci: Seq<int>, k: int) -> Option<WriterLayout>
    decreases k,
{
    if k <= 0 {
        Some(l)
    } else {
        match plan_sections(l, hs, ci, k - 1) {
            None => None,
            Some(p) => {
                let h = hs[ci[k - 1]];
                if section_step_ok(p, h) {
                    Some(after_reserve_section(p, h.name, h.characteristics, h.virtual_size as int, h.size_of_raw_data as int))
                } else {
                    None
                }
            },
        }
    }
}

/// The layout after the first `k` relocations are added from `l`.
pub open spec fn plan_relocs(l: WriterLayout, list: Seq<(u32, u16)>, k: int) -> Option<WriterLayout>
    decreases k,
{
    if k <= 0 {
        Some(l)
    } else {
        match plan_relocs(l, list, k - 1) {
            None => None,
            Some(p) => if add_reloc_ok(p, list[k - 1].0) { Some(after_add_reloc(p, list[k - 1].0, list[k - 1].1)) } else { None },
        }
    }
}

/// The writer's layout once the headers, the copied sections and `.rsps` are
/// reserved; `None` where a reservation would panic or a copied section would
/// move.
#[verifier::opaque]
pub open spec fn plan_to_rsps(s: Seq<u8>) -> Option<WriterLayout> {
    let hs = input_sections(s);
    let ci = copied_of(s);
    match plan_headers(s) {
        None => None,
        Some(l4) => match plan_sections(l4, hs, ci, ci.len() as int) {
            None => None,
            Some(l5) => if reserve_section_ok(l5, RSPS_CHARACTERISTICS, RSPS_VIRTUAL_SIZE as int, RSPS_RAW_SIZE as int) {
                Some(after_reserve_section(l5, spec_rsps_section_name(), RSPS_CHARACTERISTICS,
                    RSPS_VIRTUAL_SIZE as int, RSPS_RAW_SIZE as int))
            } else {
                None
            },
        },
    }
}

/// The layout after `l6` once the relocation section (where the image has a
/// relocation table) and the certificate table (where it has one) are
/// reserved; `None` where a reservation would panic.
#[verifier::opaque]
pub open spec fn plan_tables(s: Seq<u8>, l6: WriterLayout) -> Option<WriterLayout> {
    let l7 = if spec_reloc_dir(s) is Some {
        match plan_relocs(l6, rebuild_relocs(s), rebuild_relocs(s).len() as int) {
            None => None,
            Some(p) => if reserve_reloc_section_ok(p) { Some(after_reserve_reloc_section(p)) } else { None },
        }
    } else {
        Some(l6)
    };
    match l7 {
        None => None,
        Some(l7) => match spec_cert_dir(s) {
            Some((_, n)) => if reserve_certificate_table_ok(l7, n as int) {
                Some(after_reserve_certificate_table(l7, n as int))
            } else {
                None
            },
            None => Some(l7),
        },
    }
}

/// The writer's layout once everything is reserved: the headers, the copied
/// sections, `.rsps`, the relocation section where the image has a
/// relocation table, and the certificate table where it has one; `None` where
/// a reservation would panic or a copied section would move.
#[verifier::opaque]
pub open spec fn rebuild_plan(s: Seq<u8>) -> Option<WriterLayout> {
    match plan_to_rsps(s) {
        None => None,
        Some(l6) => plan_tables(s, l6),
    }
}

/// The arguments that the rebuild hands around, as they stand to the image `s`.
pub open spec fn rebuild_args(s: Seq<u8>, summary: NtSummary, nt_offset: u32, headers: Seq<SectionHeader>,
    copied: Seq<usize>, rich: Option<(usize, usize)>, reloc_dir: Option<(u32, u32)>, cert_dir: Option<(u32, u32)>) -> bool
{
    &&& rebuild_precheck(s) is Ok
    &&& rebuild_spans_fit(s)
    &&& nt_offset == dos_nt_offset(s)
    &&& summary.data_directories@ == spec_directories(s)
    &&& summary.section_alignment == image_section_alignment(s)
    &&& summary.file_alignment == image_file_alignment(s)
    &&& header_views(headers) == input_sections(s)
    &&& copied.len() == copied_of(s).len()
    &&& forall|k: int| 0 <= k < copied.len() ==> #[trigger] copied[k] == copied_of(s)[k]
    &&& rich == spec_rich_header(s)
    &&& reloc_dir == spec_reloc_dir(s)
    &&& cert_dir == spec_cert_dir(s)
}

/// The sections' data writes, in order, as (file offset, length): the copied
/// sections' data, then the `.rsps` data.
pub open spec fn write_items(s: Seq<u8>, l: WriterLayout) -> Seq<(int, int)> {
    let (hs, ci) = (input_sections(s), copied_of(s));
    Seq::new((ci.len() + 1) as nat, |k: int| if k < ci.len() {
        (l.sections[k].pointer_to_raw_data as int, spec_section_file_range(hs[ci[k]]).1 as int)
    } else {
        (l.sections[k].pointer_to_raw_data as int, spec_rsps_section_data().len() as int)
    })
}

/// The written length after the data writes `items` from `w`, where each
/// non-empty write starts at or after what was written (the writer's debug
/// assertion) and pads to the file alignment.
pub open spec fn written_after(items: Seq<(int, int)>, fa: int, w: int) -> Option<int>
    decreases items.len(),
{
    if items.len() == 0 {
        Some(w)
    } else if items[0].1 == 0 {
        written_after(items.drop_first(), fa, w)
    } else if w <= items[0].0 && items[0].1 <= u32::MAX {
        written_after(items.drop_first(), fa, align64(items[0].0 + items[0].1, fa))
    } else {
        None
    }
}

/// The length written before the NT headers: the DOS header and stub, and the
/// rich header (aligned to 4) with its 8 trailing bytes.
pub open spec fn head_written(s: Seq<u8>) -> int {
    match spec_rich_header(s) {
        Some((_, len)) => align64(128, 4) + len + 8,
        None => 128,
    }
}

/// The written length at the end, for the reserved layout `l`; `None` where a
/// write would panic (the buffer reservation beyond `isize::MAX`, or a write
/// starting before what was written).
#[verifier::opaque]
pub open spec fn rebuild_writes(s: Seq<u8>, l: WriterLayout) -> Option<int> {
    let nd = l.directories.len() as int;
    let w1 = l.nt_headers_offset + 136 + 8 * nd + 40 * l.sections.len();
    if !head_fits(s, l) {
        None
    } else {
        match written_after(write_items(s, l), l.file_alignment, w1) {
            None => None,
            Some(w2) => tail_written(s, l, w2),
        }
    }
}

/// The written length after the relocation blocks and the certificate table,
/// from `w2`; `None` where a write would start before what was written or the
/// certificate table does not fit its reserved range.
pub open spec fn tail_written(s: Seq<u8>, l: WriterLayout, w2: int) -> Option<int> {
    let t = reloc_table_bytes(l.reloc_blocks, l.reloc_entries);
    if l.reloc_offset != 0 && w2 > l.reloc_offset {
        None
    } else {
        let w3 = if l.reloc_offset == 0 { w2 } else { align64(l.reloc_offset + t.len(), l.file_alignment) };
        match spec_cert_dir(s) {
            Some((_, n)) => {
                let (va, size) = l.directories[4];
                if w3 <= va && va + size <= u32::MAX && n <= size { Some(va + size) } else { None }
            },
            None => Some(w3),
        }
    }
}

/// `object` can lay the image out as it is and write it without panicking
/// (debug assertions included): the reservations succeed, the
/// copied sections stay where the input has them, the writes follow the
/// reservations, and what is written ends where the reservations end.
pub open spec fn rebuild_layout_ok(s: Seq<u8>) -> bool {
    rebuild_plan(s) matches Some(l) && rebuild_writes(s, l) == Some(l.reserved)
}

/// The `w`-byte value at `o` is the same in `t` and `s` (at `os`).
pub open spec fn same_value(t: Seq<u8>, ot: int, s: Seq<u8>, os: int, w: int) -> bool {
    le_n(t, ot, w as nat) == le_n(s, os, w as nat)
}

/// `t` holds zeros in `[a, b)`.
pub open spec fn zero_span(t: Seq<u8>, a: int, b: int) -> bool {
    0 <= a && b <= t.len() && forall|i: int| a <= i < b ==> t[i] == 0
}

/// `t` holds at `ot` the `n` bytes that `s` holds at `os`.
pub open spec fn same_span(t: Seq<u8>, ot: int, s: Seq<u8>, os: int, n: int) -> bool {
    &&& 0 <= ot && 0 <= os && 0 <= n
    &&& ot + n <= t.len() && os + n <= s.len()
    &&& t.subrange(ot, ot + n) == s.subrange(os, os + n)
}

/// `t` holds at `o` the section data `d`, then zeros up to the file alignment.
pub open spec fn section_data_at(t: Seq<u8>, o: int, d: Seq<u8>, fa: int) -> bool {
    &&& 0 <= o && o + d.len() <= t.len()
    &&& t.subrange(o, o + d.len()) == d
    &&& zero_span(t, o + d.len(), align64(o + d.len(), fa))
}

/// `t` holds the file data of section `h` of `s` (`object`'s `pe_data`: the
/// smaller of its virtual and file size), then zeros up to the file alignment.
pub open spec fn same_section_data(s: Seq<u8>, t: Seq<u8>, h: SectionView, fa: int) -> bool {
    let (o, n) = spec_section_file_range(h);
    n == 0 || (o + n <= s.len() && section_data_at(t, o as int, s.subrange(o as int, o + n), fa))
}

/// The data directory `i` of `t` is (`va`, `size`).
pub open spec fn directory_is(dt: Seq<DataDirectory>, i: int, va: int, size: int) -> bool {
    dt[i].virtual_address == va && dt[i].size == size
}

/// `t` is the image `s` rebuilt with `.rsps`:
/// - its sections are the copied sections of `s`, in order, with the same
///   headers and file data (then zeros to the file alignment);
/// - then `.rsps`: its name, characteristics, virtual size, file size (0x200
///   rounded up to the file alignment), its address right after the previous
///   section, and the replacement strings at the start of its file data (then
///   zeros to the file alignment);
/// - then, where `s` has a relocation table, `.reloc` right after `.rsps`,
///   holding the blocks that `object` builds from the relocations of `s`
///   (`rebuild_plan`), with the base relocation directory pointing at it;
/// - as many data directories as `s`: the copied ones equal, the others (0, 0)
///   but for the relocation and certificate tables;
/// - the NT header fields that the rebuild carries over, the magic and the
///   alignments, equal;
/// - the rich header of `s` (with its 8 trailing bytes) right after the DOS stub;
/// - the certificate table of `s`, its size rounded up to 8, at the
///   certificate directory of `t` (then zeros);
/// - where `t` is smaller than 4 GiB (file offsets are 32-bit), zeros from the
///   end of each copied section's data, and of the `.rsps` data, to the end of
///   that section's file range.
#[verifier::opaque]
pub open spec fn rebuilt_from(s: Seq<u8>, t: Seq<u8>) -> bool {
    let hs = input_sections(s);
    let rd = spec_reloc_dir(s);
    let ci = copied_of(s);
    let m = ci.len() as int;
    let ts = pe_sections(t).unwrap();
    let ds = spec_directories(s);
    let dt = spec_directories(t);
    let (sa, fa) = (image_section_alignment(s), image_file_alignment(s));
    let (os, ot) = (dos_nt_offset(s), dos_nt_offset(t));
    let plan = rebuild_plan(s).unwrap();
    let rsps_end = ts[m].pointer_to_raw_data + spec_rsps_section_data().len();
    &&& pe_sections(t) is Some
    &&& ts.len() == m + 1 + (if rd is Some { 1int } else { 0int })
    &&& forall|k: int| 0 <= k < m ==> #[trigger] ts[k] == hs[ci[k]] && same_section_data(s, t, hs[ci[k]], fa)
    &&& ts[m].name == spec_rsps_section_name()
    &&& ts[m].characteristics == RSPS_CHARACTERISTICS
    &&& ts[m].virtual_size == RSPS_VIRTUAL_SIZE
    &&& ts[m].size_of_raw_data == align32(RSPS_RAW_SIZE as int, fa)
    &&& (m > 0 ==> ts[m].virtual_address == align32(ts[m - 1].virtual_address + ts[m - 1].virtual_size, sa))
    &&& section_data_at(t, ts[m].pointer_to_raw_data as int, spec_rsps_section_data(), fa)
    &&& (rd is Some ==> {
        let r = ts[m + 1];
        let table = reloc_table_bytes(plan.reloc_blocks, plan.reloc_entries);
        &&& r.name == reloc_section_name()
        &&& r.characteristics == reloc_section_characteristics()
        &&& r.virtual_size == reloc_blocks_size(plan.reloc_blocks)
        &&& r.virtual_address == align32(ts[m].virtual_address + ts[m].virtual_size, sa)
        &&& directory_is(dt, 5, r.virtual_address as int, r.virtual_size as int)
        &&& (r.pointer_to_raw_data != 0 ==> section_data_at(t, r.pointer_to_raw_data as int, table, fa))
    })
    &&& dt.len() == ds.len()
    &&& forall|i: int| 0 <= i < ds.len() && i != IMAGE_DIRECTORY_ENTRY_SECURITY && i != IMAGE_DIRECTORY_ENTRY_BASERELOC ==>
        #[trigger] directory_is(dt, i, copied_directory_values(ds)[i].0, copied_directory_values(ds)[i].1)
    &&& (rd is None && ds.len() > 5 ==> directory_is(dt, 5, 0, 0))
    &&& forall|k: int| 0 <= k < nt_written_fields().len() ==>
        same_value(t, ot + (#[trigger] nt_written_fields()[k]).0, s, os + nt_written_fields()[k].0, nt_written_fields()[k].1)
    &&& le_u16(t, ot + 24) == le_u16(s, os + 24)
    &&& le_u32(t, ot + 56) == sa && le_u32(t, ot + 60) == fa
    &&& (spec_rich_header(s) matches Some((o, l)) ==> same_span(t, DOS_STUB_END as int, s, o as int, l + 8))
    &&& (spec_cert_dir(s) matches Some((a, n)) ==> {
        let b = dt[4].virtual_address as int;
        &&& dt[4].size == align32(n as int, 8)
        &&& same_span(t, b, s, a as int, n as int)
        &&& zero_span(t, b + n, b + dt[4].size)
    })
    &&& (spec_cert_dir(s) is None && ds.len() > 4 ==> directory_is(dt, 4, 0, 0))
    &&& t.len() <= u32::MAX ==> {
        &&& forall|k: int| #![trigger ci[k]] 0 <= k < m && spec_section_file_range(hs[ci[k]]).1 > 0 ==> zero_span(t,
            hs[ci[k]].pointer_to_raw_data + spec_section_file_range(hs[ci[k]]).1, file_end(hs[ci[k]]))
        &&& zero_span(t, rsps_end, file_end(ts[m]))
    }
}

/// Where the DOS stub of the rebuilt image ends; the rich header is copied there.
pub const DOS_STUB_END: u64 = 128;

/// Reads the NT header fields that the rebuild hands to the writer, from the
/// NT headers at `o`.
fn read_nt_fields(data: &[u8], o: u32) -> (f: Vec<u64>)
    requires
        o + 136 <= data@.len(),
    ensures
        f@.len() == nt_written_fields().len(),
        forall|k: int| 0 <= k < f@.len() ==> f@[k] == le_n(data@, o + nt_written_fields()[k].0, nt_written_fields()[k].1 as nat)
            && f@[k] < pow256(nt_written_fields()[k].1 as nat),
{
    let spans: Vec<(usize, usize)> = vec![(4, 2), (8, 4), (22, 2), (26, 1), (27, 1), (40, 4), (48, 8), (64, 2), (66, 2),
        (68, 2), (70, 2), (72, 2), (74, 2), (92, 2), (94, 2), (96, 8), (104, 8), (112, 8), (120, 8)];
    assert(spans@.len() == nt_written_fields().len());
    assert(data@.len() == data.len());
    let mut f: Vec<u64> = Vec::new();
    let mut k: usize = 0;
    while k < spans.len()
        invariant
            k <= spans@.len(),
            spans@.len() == nt_written_fields().len(),
            forall|j: int| 0 <= j < spans@.len() ==> spans@[j].0 == nt_written_fields()[j].0 && spans@[j].1 == nt_written_fields()[j].1,
            o + 136 <= data@.len() <= usize::MAX,
            f@.len() == k,
            forall|j: int| 0 <= j < k ==> f@[j] == le_n(data@, o + nt_written_fields()[j].0, nt_written_fields()[j].1 as nat)
                && f@[j] < pow256(nt_written_fields()[j].1 as nat),
        decreases spans@.len() - k,
    {
        let (offset, width) = spans[k];
        assert(offset <= 120 && width <= 8);
        let v = read_le(data, o as usize + offset, width);
        proof {
            lemma_le_n_bound(data@, o + offset, width as nat);
        }
        f.push(v);
        k = k + 1;
    }
    f
}

/// Which total a section with these characteristics adds to (`section_kind`).
fn section_kind_of(characteristics: u32) -> (r: u8)
    ensures
        r == section_kind(characteristics),
{
    if characteristics & 0x20 == 0x20 {
        0
    } else if characteristics & 0x40 == 0x40 {
        1
    } else if characteristics & 0x80 == 0x80 {
        2
    } else {
        3
    }
}

/// Once a step of the section plan fails, the plan fails.
proof fn lemma_plan_sections_none(l: WriterLayout, hs: Seq<SectionView>, ci: Seq<int>, k: int, j: int)
    requires
        k <= j,
        plan_sections(l, hs, ci, k) is None,
    ensures
        plan_sections(l, hs, ci, j) is None,
    decreases j - k,
{
    if k < j {
        lemma_plan_sections_none(l, hs, ci, k, j - 1);
    }
}

/// Once a step of the relocation plan fails, the plan fails.
proof fn lemma_plan_relocs_none(l: WriterLayout, list: Seq<(u32, u16)>, k: int, j: int)
    requires
        k <= j,
        plan_relocs(l, list, k) is None,
    ensures
        plan_relocs(l, list, j) is None,
    decreases j - k,
{
    if k < j {
        lemma_plan_relocs_none(l, list, k, j - 1);
    }
}

/// A data write that fails makes the whole sequence of writes fail.
proof fn lemma_written_after_skip(items: Seq<(int, int)>, fa: int, w: int, k: int)
    requires
        0 <= k < items.len(),
    ensures
        written_after(items.skip(k), fa, w) == if items[k].1 == 0 {
            written_after(items.skip(k + 1), fa, w)
        } else if w <= items[k].0 && items[k].1 <= u32::MAX {
            written_after(items.skip(k + 1), fa, align64(items[k].0 + items[k].1, fa))
        } else {
            None
        },
{
    assert(items.skip(k).drop_first() =~= items.skip(k + 1));
}

/// `a` is a prefix of `b`.
pub open spec fn is_prefix(a: Seq<u8>, b: Seq<u8>) -> bool {
    a.len() <= b.len() && b.take(a.len() as int) == a
}

/// Extending a buffer keeps what it held, and prefixes chain.
proof fn lemma_prefix_extend(a: Seq<u8>, x: Seq<u8>, c: Seq<u8>)
    ensures
        is_prefix(a, a + x),
        is_prefix(a + x, c) ==> is_prefix(a, c),
{
    assert((a + x).take(a.len() as int) =~= a);
    if is_prefix(a + x, c) {
        assert(c.take(a.len() as int) =~= (a + x).take(a.len() as int));
    }
}

/// A prefix agrees with the whole on its bytes.
proof fn lemma_prefix_at(a: Seq<u8>, b: Seq<u8>)
    requires
        is_prefix(a, b),
    ensures
        forall|i: int| 0 <= i < a.len() ==> #[trigger] b[i] == a[i],
{
    assert forall|i: int| 0 <= i < a.len() implies #[trigger] b[i] == a[i] by {
        assert(b.take(a.len() as int)[i] == b[i]);
    }
}

/// Values read inside a prefix read the same in the whole.
proof fn lemma_prefix_le_n(a: Seq<u8>, b: Seq<u8>, o: int, w: nat)
    requires
        is_prefix(a, b),
        0 <= o,
        o + w <= a.len(),
    ensures
        le_n(b, o, w) == le_n(a, o, w),
    decreases w,
{
    if w > 0 {
        lemma_prefix_at(a, b);
        lemma_prefix_le_n(a, b, o + 1, (w - 1) as nat);
    }
}

/// Section headers read inside a prefix read the same in the whole.
proof fn lemma_prefix_section(a: Seq<u8>, b: Seq<u8>, o: int)
    requires
        is_prefix(a, b),
        0 <= o,
        o + 40 <= a.len(),
    ensures
        section_view_at(b, o) == section_view_at(a, o),
{
    lemma_prefix_at(a, b);
    assert(b.subrange(o, o + 8) =~= a.subrange(o, o + 8));
}

/// What the data write of `x` at `o` (with zeros before it and after it up to
/// the file alignment) leaves in the buffer.
proof fn lemma_written_section(a: Seq<u8>, o: int, x: Seq<u8>, e: int)
    requires
        a.len() <= o,
        o + x.len() <= e,
    ensures
        ({
            let b = a + zeros(o - a.len()) + x + zeros(e - (o + x.len()));
            &&& b.len() == e
            &&& is_prefix(a, b)
            &&& b.subrange(o, o + x.len()) == x
            &&& forall|i: int| o + x.len() <= i < e ==> b[i] == 0
            &&& forall|i: int| a.len() <= i < o ==> b[i] == 0
        }),
{
    let b = a + zeros(o - a.len()) + x + zeros(e - (o + x.len()));
    assert(b.take(a.len() as int) =~= a);
    assert(b.subrange(o, o + x.len()) =~= x);
}


/// Prefixes chain.
proof fn lemma_prefix_trans(a: Seq<u8>, b: Seq<u8>, c: Seq<u8>)
    requires
        is_prefix(a, b),
        is_prefix(b, c),
    ensures
        is_prefix(a, c),
{
    lemma_prefix_at(a, b);
    lemma_prefix_at(b, c);
    assert(c.take(a.len() as int) =~= a);
}

/// A buffer whose first `o` bytes are `a` followed by zeros has `a` as a prefix.
proof fn lemma_prefix_take(a: Seq<u8>, b: Seq<u8>, o: int)
    requires
        a.len() <= o <= b.len(),
        b.take(o) == a + zeros(o - a.len()),
    ensures
        is_prefix(a, b),
{
    assert(b.take(a.len() as int) =~= (a + zeros(o - a.len())).take(a.len() as int));
    assert((a + zeros(o - a.len())).take(a.len() as int) =~= a);
}

/// Section data inside a prefix stays in the whole.
proof fn lemma_prefix_data(a: Seq<u8>, b: Seq<u8>, o: int, d: Seq<u8>, fa: int)
    requires
        is_prefix(a, b),
        section_data_at(a, o, d, fa),
    ensures
        section_data_at(b, o, d, fa),
{
    lemma_prefix_at(a, b);
    assert(b.subrange(o, o + d.len()) =~= a.subrange(o, o + d.len()));
}

/// Spans inside a prefix stay in the whole.
proof fn lemma_prefix_same_span(a: Seq<u8>, b: Seq<u8>, o: int, s: Seq<u8>, os: int, n: int)
    requires
        is_prefix(a, b),
        same_span(a, o, s, os, n),
    ensures
        same_span(b, o, s, os, n),
{
    lemma_prefix_at(a, b);
    assert(b.subrange(o, o + n) =~= a.subrange(o, o + n));
}

/// NT headers inside a prefix stay in the whole.
proof fn lemma_prefix_nt(a: Seq<u8>, b: Seq<u8>, o: int, l: WriterLayout, f: Seq<u64>)
    requires
        is_prefix(a, b),
        0 <= o,
        nt_headers_at(a, o, l, f),
    ensures
        nt_headers_at(b, o, l, f),
{
    lemma_prefix_at(a, b);
    assert forall|k: int| 0 <= k < nt_written_fields().len() implies
        le_n(b, o + (#[trigger] nt_written_fields()[k]).0, nt_written_fields()[k].1 as nat) == f[k] by {
        lemma_prefix_le_n(a, b, o + nt_written_fields()[k].0, nt_written_fields()[k].1 as nat);
    }
    let n = l.directories.len() as int;
    assert forall|i: int| 0 <= i < n implies (#[trigger] nt_directory(b, o, i)).0 == l.directories[i].0
        && nt_directory(b, o, i).1 == l.directories[i].1 by {
        assert(nt_directory(b, o, i) == nt_directory(a, o, i));
    }
}
/// The file data of section `h` of `s` that the rebuild copies (`object`'s
/// `pe_data`: the smaller of its virtual and file size).
pub open spec fn section_bytes(s: Seq<u8>, h: SectionView) -> Seq<u8> {
    let (o, n) = spec_section_file_range(h);
    if n == 0 { Seq::empty() } else { s.subrange(o as int, o + n) }
}

/// The data of the copied sections that the rebuild writes, as (file offset,
/// bytes), in order.
pub open spec fn copied_data_ok(s: Seq<u8>, sd: Seq<(u32, &[u8])>) -> bool {
    let (hs, ci) = (input_sections(s), copied_of(s));
    &&& sd.len() == ci.len()
    &&& forall|j: int| 0 <= j < ci.len() ==> (#[trigger] sd[j]).0 == hs[ci[j]].pointer_to_raw_data
        && sd[j].1@ == section_bytes(s, hs[ci[j]])
}

/// Reserves the DOS header and stub, the rich header, the NT headers, the
/// copied data directories and the section headers (see `plan_headers`),
/// checking before each call that it will not panic.
#[verifier::loop_isolation(false)]
#[verifier::rlimit(100)]
#[verifier::spinoff_prover]
fn reserve_headers(
    w: &mut object::write::pe::Writer<'_>,
    s: Ghost<Seq<u8>>,
    summary: &NtSummary,
    rich: Option<(usize, usize)>,
    count: u16,
) -> (r: Result<(), RebuildError>)
    requires
        summary.data_directories@ == spec_directories(s@),
        summary.section_alignment == image_section_alignment(s@),
        summary.file_alignment == image_file_alignment(s@),
        rich == spec_rich_header(s@),
        writer_state(*old(w)).layout == initial_layout(summary.section_alignment as int, summary.file_alignment as int),
        is_pow2(summary.section_alignment as int) && is_pow2(summary.file_alignment as int),
        count == output_count(s@),
    ensures
        writer_state(*final(w)).buffer == writer_state(*old(w)).buffer,
        writer_state(*final(w)).buffer_final == writer_state(*old(w)).buffer_final,
        r is Err ==> r == Err::<(), RebuildError>(RebuildError::Unsupported) && plan_headers(s@) is None,
        r is Ok ==> plan_headers(s@) == Some(writer_state(*final(w)).layout),
        r is Ok ==> {
            let l = writer_state(*final(w)).layout;
            &&& l.reloc_blocks.len() == 0 && l.reloc_entries.len() == 0 && l.reloc_offset == 0
            &&& l.directories == copied_directory_values(spec_directories(s@))
            &&& l.section_header_num == count
            &&& l.section_alignment == summary.section_alignment && l.file_alignment == summary.file_alignment
            &&& l.sections.len() == 0 && l.code_len == 0 && l.data_len == 0 && l.bss_len == 0
        },
{
    proof {
        reveal(plan_headers);
    }
    let (sa, fa) = (summary.section_alignment, summary.file_alignment);
    let nd = summary.data_directories.len();
    let ghost st0 = writer_state(*w);
    writer_reserve_dos_header_and_stub(w);
    if let Some((_, len)) = rich {
        if len as u64 > 0xffff_fff7 {
            return Err(RebuildError::Unsupported);
        }
        writer_reserve(w, (len + 8) as u32, 4);
    }
    let rl = writer_reserved_len(w);
    if nd > 0x1fff_ffff || rl > u64::MAX - 144 - 8 * nd as u64 {
        return Err(RebuildError::Unsupported);
    }
    writer_reserve_nt_headers(w, nd);
    let ghost l2 = writer_state(*w).layout;
    assert(l2.directories =~= Seq::new(nd as nat, |j: int| if j < 0 { copied_directory_values(summary.data_directories@)[j] } else { (0int, 0int) }));
    let mut i: usize = 0;
    while i < nd
        invariant
            i <= nd,
            writer_state(*w).layout == (WriterLayout {
                directories: Seq::new(nd as nat, |j: int| if j < i { copied_directory_values(summary.data_directories@)[j] } else { (0int, 0int) }),
                ..l2
            }),
            writer_state(*w).buffer == st0.buffer,
            writer_state(*w).buffer_final == st0.buffer_final,
        decreases nd - i,
    {
        let d = summary.data_directories[i];
        if d.virtual_address != 0 && i != IMAGE_DIRECTORY_ENTRY_SECURITY && i != IMAGE_DIRECTORY_ENTRY_BASERELOC {
            writer_set_data_directory(w, i, d.virtual_address, d.size);
        }
        assert(writer_state(*w).layout.directories =~= Seq::new(nd as nat, |j: int|
            if j < i + 1 { copied_directory_values(summary.data_directories@)[j] } else { (0int, 0int) }));
        i = i + 1;
    }
    assert(writer_state(*w).layout.directories =~= copied_directory_values(summary.data_directories@));
    let rl = writer_reserved_len(w);
    let vl = writer_virtual_len(w);
    if rl > u64::MAX - 40 * count as u64 - fa as u64 {
        return Err(RebuildError::Unsupported);
    }
    let head = align_u64(rl + 40 * count as u64, fa as u64);
    if vl as u64 + head % 0x1_0000_0000 + sa as u64 > u32::MAX as u64 {
        return Err(RebuildError::Unsupported);
    }
    writer_reserve_section_headers(w, count);
    Ok(())
}

/// Reserves the headers, the copied sections and `.rsps` (see `plan_to_rsps`),
/// checking before each call that it will not panic and after each copied
/// section that it stays where the input has it. Gives the code, data and
/// uninitialized data totals and the copied sections' data.
#[verifier::loop_isolation(false)]
#[verifier::rlimit(100)]
#[verifier::spinoff_prover]
fn reserve_to_rsps<'b>(
    w: &mut object::write::pe::Writer<'_>,
    in_data: &'b [u8],
    summary: &NtSummary,
    nt_offset: u32,
    headers: &Vec<SectionHeader>,
    copied: &Vec<usize>,
    rich: Option<(usize, usize)>,
    reloc_dir: Option<(u32, u32)>,
    cert_dir: Option<(u32, u32)>,
    count: u16,
) -> (r: Result<(u64, u64, u64, Vec<(u32, &'b [u8])>, u32), RebuildError>)
    requires
        rebuild_args(in_data@, *summary, nt_offset, headers@, copied@, rich, reloc_dir, cert_dir),
        writer_state(*old(w)).layout == initial_layout(summary.section_alignment as int, summary.file_alignment as int),
        writer_state(*old(w)).buffer.len() == 0,
        is_pow2(summary.section_alignment as int) && is_pow2(summary.file_alignment as int),
        count == output_count(in_data@),
    ensures
        writer_state(*final(w)).buffer == writer_state(*old(w)).buffer,
        writer_state(*final(w)).buffer_final == writer_state(*old(w)).buffer_final,
        r is Err ==> r == Err::<(u64, u64, u64, Vec<(u32, &'b [u8])>, u32), RebuildError>(RebuildError::Unsupported)
            && plan_to_rsps(in_data@) is None,
        r matches Ok((code, data, bss, sd, rsps_off)) ==> {
            let l = writer_state(*final(w)).layout;
            let (hs, ci) = (input_sections(in_data@), copied_of(in_data@));
            &&& plan_to_rsps(in_data@) == Some(l)
            &&& code == l.code_len && data == l.data_len && bss == l.bss_len
            &&& code <= u32::MAX && data <= u32::MAX && bss <= u32::MAX
            &&& copied_data_ok(in_data@, sd@)
            &&& l.sections.len() == ci.len() + 1
            &&& rsps_off == l.sections[ci.len() as int].pointer_to_raw_data
            &&& l.sections[ci.len() as int].name == spec_rsps_section_name()
            &&& l.sections[ci.len() as int].characteristics == RSPS_CHARACTERISTICS
            &&& l.sections[ci.len() as int].virtual_size == RSPS_VIRTUAL_SIZE
            &&& l.sections[ci.len() as int].size_of_raw_data == align32(RSPS_RAW_SIZE as int, summary.file_alignment as int)
            &&& (ci.len() > 0 ==> l.sections[ci.len() as int].virtual_address == align32(
                l.sections[ci.len() - 1].virtual_address + l.sections[ci.len() - 1].virtual_size, summary.section_alignment as int))
            &&& l.virtual_len == align32(l.sections[ci.len() as int].virtual_address + l.sections[ci.len() as int].virtual_size,
                summary.section_alignment as int)
            &&& l.section_header_num == output_count(in_data@)
            &&& l.section_alignment == summary.section_alignment && l.file_alignment == summary.file_alignment
            &&& l.directories.len() == spec_directories(in_data@).len()
            &&& forall|j: int| 0 <= j < ci.len() ==> #[trigger] l.sections[j] == hs[ci[j]]
            &&& l.directories == copied_directory_values(spec_directories(in_data@))
            &&& l.reloc_blocks.len() == 0 && l.reloc_entries.len() == 0 && l.reloc_offset == 0
        },
{
    proof {
        reveal(plan_to_rsps);
    }
    let ghost s = in_data@;
    let ghost hs = input_sections(s);
    let ghost ci = copied_of(s);
    let ghost m = ci.len() as int;
    proof {
        lemma_copied_indices(hs, reloc_dir, hs.len() as int);
        lemma_precheck_fits(s);
    }
    assert(in_data@.len() == in_data.len());
    let (sa, fa) = (summary.section_alignment, summary.file_alignment);
    let nd = summary.data_directories.len();
    let ghost st0 = writer_state(*w);
    match reserve_headers(w, Ghost(s), summary, rich, count) {
        Ok(()) => {},
        Err(e) => return Err(e),
    }
    let ghost l4 = writer_state(*w).layout;
    assert(plan_headers(s) == Some(l4));

    let (mut code, mut data, mut bss): (u64, u64, u64) = (0, 0, 0);
    let mut sd: Vec<(u32, &'b [u8])> = Vec::new();
    let mut k: usize = 0;
    while k < copied.len()
        invariant
            k <= copied@.len(),
            plan_sections(l4, hs, ci, k as int) == Some(writer_state(*w).layout),
            writer_state(*w).layout.directories == l4.directories,
            writer_state(*w).layout.reloc_blocks.len() == 0 && writer_state(*w).layout.reloc_entries.len() == 0,
            writer_state(*w).layout.reloc_offset == 0,
            writer_state(*w).layout.section_alignment == sa && writer_state(*w).layout.file_alignment == fa,
            code == writer_state(*w).layout.code_len && data == writer_state(*w).layout.data_len
                && bss == writer_state(*w).layout.bss_len,
            code <= u32::MAX && data <= u32::MAX && bss <= u32::MAX,
            writer_state(*w).buffer == st0.buffer,
            writer_state(*w).buffer_final == st0.buffer_final,
            writer_state(*w).layout.sections.len() == k,
            sd@.len() == k,
            forall|j: int| 0 <= j < k ==> #[trigger] writer_state(*w).layout.sections[j] == hs[ci[j]],
            k > 0 ==> writer_state(*w).layout.virtual_len == align32(writer_state(*w).layout.sections[k - 1].virtual_address
                + writer_state(*w).layout.sections[k - 1].virtual_size, sa as int),
            writer_state(*w).layout.section_header_num == count,
            forall|j: int| 0 <= j < k ==> (#[trigger] sd@[j]).0 == hs[ci[j]].pointer_to_raw_data
                && sd@[j].1@ == section_bytes(s, hs[ci[j]]),
        decreases copied@.len() - k,
    {
        let h = headers[copied[k]];
        assert(copied@[k as int] == ci[k as int]);
        assert(hs[ci[k as int]] == h@);
        let (vl, rl) = (writer_virtual_len(w), writer_reserved_len(w));
        let avs = match section_checks(vl, rl, sa, fa, code, data, bss, h.characteristics, h.virtual_size, h.size_of_raw_data) {
            Some(a) => a,
            None => {
                proof { lemma_plan_sections_none(l4, hs, ci, k + 1, m); }
                return Err(RebuildError::Unsupported);
            },
        };
        let range = writer_reserve_section(w, h.name, h.characteristics, h.virtual_size, h.size_of_raw_data);
        if range.0 != h.virtual_address || range.1 != h.pointer_to_raw_data || range.2 != h.size_of_raw_data {
            proof { lemma_plan_sections_none(l4, hs, ci, k + 1, m); }
            return Err(RebuildError::Unsupported);
        }
        let kind = section_kind_of(h.characteristics);
        if kind == 0 {
            code = code + avs;
        } else if kind == 1 {
            data = data + avs;
        } else if kind == 2 {
            bss = bss + avs;
        }
        let (offset, size) = section_file_range(&h);
        let bytes = match read_bytes(in_data, offset as u64, size as u64) {
            Ok(d) => d,
            Err(_) => {
                assert(section_data_fits(s, hs[ci[k as int]]));
                return Err(RebuildError::Unsupported);
            },
        };
        assert(bytes@ =~= section_bytes(s, hs[ci[k as int]]));
        sd.push((range.1, bytes));
        k = k + 1;
    }
    let (vl, rl) = (writer_virtual_len(w), writer_reserved_len(w));
    let avs = match section_checks(vl, rl, sa, fa, code, data, bss, RSPS_CHARACTERISTICS, RSPS_VIRTUAL_SIZE, RSPS_RAW_SIZE) {
        Some(a) => a,
        None => return Err(RebuildError::Unsupported),
    };
    let rsps_range = writer_reserve_section(w, rsps_section_name(), RSPS_CHARACTERISTICS, RSPS_VIRTUAL_SIZE, RSPS_RAW_SIZE);
    proof {
        assert((0x4000_0040u32 & 0x20u32) == 0u32 && (0x4000_0040u32 & 0x40u32) == 0x40u32) by (bit_vector);
    }
    data = data + avs;
    Ok((code, data, bss, sd, rsps_range.1))
}

/// Adds the relocations and reserves the relocation section where the image
/// has a relocation table, then reserves the certificate table where it has
/// one (see `plan_tables`), checking before each call that it will not panic.
/// Gives the relocation section's file offset and the certificate table's
/// file range.
#[verifier::loop_isolation(false)]
#[verifier::rlimit(100)]
#[verifier::spinoff_prover]
fn reserve_tables(
    w: &mut object::write::pe::Writer<'_>,
    s: Ghost<Seq<u8>>,
    relocs: &Vec<(u32, u16)>,
    reloc_dir: Option<(u32, u32)>,
    cert_dir: Option<(u32, u32)>,
    sa: u32,
    fa: u32,
    code: u64,
    data: u64,
    bss: u64,
) -> (r: Result<(u32, (u32, u32)), RebuildError>)
    requires
        relocs@ == rebuild_relocs(s@),
        reloc_dir == spec_reloc_dir(s@),
        cert_dir == spec_cert_dir(s@),
        reloc_dir is Some ==> 5 < spec_directories(s@).len(),
        cert_dir is Some ==> 4 < spec_directories(s@).len(),
        ({
            let l = writer_state(*old(w)).layout;
            &&& l.section_alignment == sa && l.file_alignment == fa
            &&& is_pow2(sa as int) && is_pow2(fa as int)
            &&& code == l.code_len && data == l.data_len && bss == l.bss_len
            &&& code <= u32::MAX && data <= u32::MAX && bss <= u32::MAX
            &&& l.directories == copied_directory_values(spec_directories(s@))
            &&& l.reloc_blocks.len() == 0 && l.reloc_entries.len() == 0 && l.reloc_offset == 0
        }),
    ensures
        writer_state(*final(w)).buffer == writer_state(*old(w)).buffer,
        writer_state(*final(w)).buffer_final == writer_state(*old(w)).buffer_final,
        r is Err ==> r == Err::<(u32, (u32, u32)), RebuildError>(RebuildError::Unsupported)
            && plan_tables(s@, writer_state(*old(w)).layout) is None,
        r matches Ok((reloc_offset, cert_range)) ==> {
            let l = writer_state(*final(w)).layout;
            &&& plan_tables(s@, writer_state(*old(w)).layout) == Some(l)
            &&& reloc_offset == l.reloc_offset
            &&& (cert_dir is Some ==> l.directories[4] == (cert_range.0 as int, cert_range.1 as int))
            &&& reloc_blocks_count(l.reloc_blocks) == l.reloc_entries.len()
            &&& tables_reserved(writer_state(*old(w)).layout, l, reloc_dir is Some, cert_dir, cert_range)
        },
{
    proof {
        reveal(plan_tables);
    }
    let ghost l6 = writer_state(*w).layout;
    let ghost st0 = writer_state(*w);
    let mut data = data;
    let mut reloc_offset: u32 = 0;
    if reloc_dir.is_some() {
        let mut last: Option<(u32, u32)> = None;
        let mut size: u64 = 0;
        let mut big = false;
        let mut k: usize = 0;
        while k < relocs.len()
            invariant
                k <= relocs@.len(),
                plan_relocs(l6, relocs@, k as int) == Some(writer_state(*w).layout),
                writer_state(*w).layout == (WriterLayout {
                    reloc_blocks: writer_state(*w).layout.reloc_blocks,
                    reloc_entries: writer_state(*w).layout.reloc_entries,
                    ..l6
                }),
                writer_state(*w).buffer == st0.buffer,
                writer_state(*w).buffer_final == st0.buffer_final,
                writer_state(*w).layout.reloc_blocks.len() == 0 <==> last is None,
                last matches Some((p, c)) ==> writer_state(*w).layout.reloc_blocks.last() == (p as int, c as int),
                !big ==> size == reloc_blocks_size(writer_state(*w).layout.reloc_blocks),
                big ==> reloc_blocks_size(writer_state(*w).layout.reloc_blocks) > u32::MAX,
                size <= u32::MAX,
                reloc_blocks_count(writer_state(*w).layout.reloc_blocks) == writer_state(*w).layout.reloc_entries.len(),
            decreases relocs@.len() - k,
        {
            let (va, typ) = relocs[k];
            let page = va & !0xfffu32;
            let ghost b0 = writer_state(*w).layout.reloc_blocks;
            let next: (u32, u32, u64) = match last {
                Some((p, c)) => {
                    if p > page || c == u32::MAX {
                        proof { lemma_plan_relocs_none(l6, relocs@, k + 1, relocs@.len() as int); }
                        return Err(RebuildError::Unsupported);
                    }
                    if p == page {
                        proof { lemma_reloc_blocks_bump(b0, p as int); }
                        (p, c + 1, 2)
                    } else if c % 2 == 1 {
                        proof {
                            lemma_reloc_blocks_bump(b0, p as int);
                            lemma_reloc_blocks_push(b0.update(b0.len() - 1, (p as int, c + 1)), (page as int, 1int));
                        }
                        (page, 1, 12)
                    } else {
                        proof { lemma_reloc_blocks_push(b0, (page as int, 1int)); }
                        (page, 1, 10)
                    }
                },
                None => {
                    proof { lemma_reloc_blocks_push(b0, (page as int, 1int)); }
                    (page, 1, 10)
                },
            };
            writer_add_reloc(w, va, typ);
            if !big {
                if size + next.2 > u32::MAX as u64 {
                    big = true;
                    size = 0;
                } else {
                    size = size + next.2;
                }
            }
            last = Some((next.0, next.1));
            k = k + 1;
        }
        let ghost p = writer_state(*w).layout;
        let mut odd = false;
        if let Some((_, c)) = last {
            if c == u32::MAX {
                return Err(RebuildError::Unsupported);
            }
            odd = c % 2 == 1;
        }
        proof {
            if odd {
                lemma_reloc_blocks_bump(p.reloc_blocks, p.reloc_blocks.last().0);
            }
        }
        let padded: u64 = if odd { size + 2 } else { size };
        if big || padded > u32::MAX as u64 {
            return Err(RebuildError::Unsupported);
        }
        let (vl, rl) = (writer_virtual_len(w), writer_reserved_len(w));
        let avs = match section_checks(vl, rl, sa, fa, code, data, bss, 0x4200_0040, padded as u32, padded as u32) {
            Some(a) => a,
            None => return Err(RebuildError::Unsupported),
        };
        reloc_offset = writer_reserve_reloc_section(w);
        proof {
            assert((0x4200_0040u32 & 0x20u32) == 0u32 && (0x4200_0040u32 & 0x40u32) == 0x40u32) by (bit_vector);
        }
        data = data + avs;
    }
    let ghost l7 = writer_state(*w).layout;
    let mut cert_range: (u32, u32) = (0, 0);
    if let Some((_, size)) = cert_dir {
        let rl = writer_reserved_len(w);
        if size > u32::MAX - 7 {
            return Err(RebuildError::Unsupported);
        }
        let n = align_u32(size, 8);
        if n != 0 && rl > u64::MAX - 8 - n as u64 {
            return Err(RebuildError::Unsupported);
        }
        let offset = if n == 0 { (rl % 0x1_0000_0000) as u32 } else { (align_u64(rl, 8) % 0x1_0000_0000) as u32 };
        writer_reserve_certificate_table(w, size);
        cert_range = (offset, n);
    }
    proof {
        let l = writer_state(*w).layout;
        assert forall|j: int| 0 <= j < l6.sections.len() implies l.sections[j] == l6.sections[j] by {}
    }
    Ok((reloc_offset, cert_range))
}

/// What reserving the relocation and certificate tables changes, from `a` to
/// `b`: the sections gain `.reloc` (at the virtual length of `a`, its size the
/// blocks' size, at the relocation offset) where there is a relocation table,
/// and the base relocation directory points at it; the certificate directory
/// takes the certificate range; nothing else of the sections, the other
/// directories or the alignments changes.
pub open spec fn tables_reserved(a: WriterLayout, b: WriterLayout, has_relocs: bool, cert_dir: Option<(u32, u32)>, cert_range: (u32, u32)) -> bool {
    &&& b.sections.len() == a.sections.len() + (if has_relocs { 1int } else { 0int })
    &&& forall|j: int| 0 <= j < a.sections.len() ==> #[trigger] b.sections[j] == a.sections[j]
    &&& b.section_header_num == a.section_header_num
    &&& b.section_alignment == a.section_alignment && b.file_alignment == a.file_alignment
    &&& b.nt_headers_offset == a.nt_headers_offset
    &&& b.directories.len() == a.directories.len()
    &&& forall|i: int| 0 <= i < a.directories.len() && i != 4 && i != 5 ==> #[trigger] b.directories[i] == a.directories[i]
    &&& reloc_blocks_size(b.reloc_blocks) <= u32::MAX
    &&& (!has_relocs ==> b.reloc_offset == 0 && b.reloc_blocks.len() == 0
        && (a.directories.len() > 5 ==> b.directories[5] == a.directories[5]))
    &&& (has_relocs ==> {
        let r = b.sections[a.sections.len() as int];
        &&& r.name == reloc_section_name()
        &&& r.characteristics == reloc_section_characteristics()
        &&& r.virtual_size == reloc_blocks_size(b.reloc_blocks)
        &&& r.virtual_address == a.virtual_len
        &&& r.pointer_to_raw_data == b.reloc_offset
        &&& b.directories[5] == (r.virtual_address as int, r.virtual_size as int)
    })
    &&& (cert_dir is None && a.directories.len() > 4 ==> b.directories[4] == a.directories[4])
    &&& (cert_dir matches Some((_, n)) ==> b.directories[4] == (cert_range.0 as int, cert_range.1 as int)
        && cert_range.1 == align32(n as int, 8))
}

/// The NT header fields of the image `s` that the rebuild hands to the writer.
pub open spec fn input_nt_fields(s: Seq<u8>) -> Seq<u64> {
    Seq::new(nt_written_fields().len(), |k: int|
        le_n(s, dos_nt_offset(s) + nt_written_fields()[k].0, nt_written_fields()[k].1 as nat) as u64)
}

/// The bytes of the `j`-th data write of the rebuild: a copied section's data,
/// then the `.rsps` data.
pub open spec fn item_data(s: Seq<u8>, j: int) -> Seq<u8> {
    let (hs, ci) = (input_sections(s), copied_of(s));
    if j < ci.len() {
        section_bytes(s, hs[ci[j]])
    } else {
        spec_rsps_section_data()
    }
}

/// What the rebuild's writes leave in `t`, for the reserved layout `l` of the
/// image `s`: the DOS header pointing at the NT headers, the NT headers, the
/// section headers after them, each section's data, the relocation blocks,
/// the certificate table and the rich header.
#[verifier::opaque]
pub open spec fn written_image(s: Seq<u8>, l: WriterLayout, t: Seq<u8>) -> bool {
    let o = l.nt_headers_offset;
    let base = o + 136 + 8 * l.directories.len();
    let items = write_items(s, l);
    let fa = l.file_alignment;
    &&& t.len() >= 128 && le_u16(t, 0) == 0x5a4d && le_u32(t, 60) == o
    &&& nt_headers_at(t, o, l, input_nt_fields(s))
    &&& base + 40 * l.sections.len() <= t.len()
    &&& forall|k: int| 0 <= k < l.sections.len() ==> #[trigger] section_view_at(t, base + 40 * k) == l.sections[k]
    &&& forall|j: int| 0 <= j < items.len() && items[j].1 > 0 ==> section_data_at(t, items[j].0, #[trigger] item_data(s, j), fa)
    &&& (l.reloc_offset != 0 ==> section_data_at(t, l.reloc_offset, reloc_table_bytes(l.reloc_blocks, l.reloc_entries), fa))
    &&& (spec_cert_dir(s) matches Some((a, n)) ==> {
        let (va, size) = l.directories[4];
        same_span(t, va, s, a as int, n as int) && zero_span(t, va + n, va + size)
    })
    &&& (spec_rich_header(s) matches Some((ro, len)) ==> same_span(t, 128, s, ro as int, len + 8))
}

/// The smaller of `a` and `b`.
pub open spec fn min_int(a: int, b: int) -> int {
    if a < b { a } else { b }
}

/// In `t`, each of the first `k` data writes of the rebuild is followed by
/// zeros up to the end of its section's file range (as far as `t` goes).
pub open spec fn pads_zero(t: Seq<u8>, s: Seq<u8>, l: WriterLayout, k: int) -> bool {
    forall|j: int| 0 <= j < k && (#[trigger] write_items(s, l)[j]).1 > 0 ==> zero_span(t,
        write_items(s, l)[j].0 + write_items(s, l)[j].1, min_int(t.len() as int, file_end(l.sections[j])))
}

/// Appending zeros up to `o`, then `d`, then `z` zeros keeps the zeros after
/// the earlier writes, where their sections end by `o`; and the appended
/// zeros follow `d`.
proof fn lemma_pads_append(s: Seq<u8>, l: WriterLayout, k: int, b: Seq<u8>, o: int, d: Seq<u8>, z: int, c: Seq<u8>)
    requires
        pads_zero(b, s, l, k),
        b.len() <= o,
        0 <= z,
        c == b + zeros(o - b.len()) + d + zeros(z),
        forall|j: int| 0 <= j < k && (#[trigger] write_items(s, l)[j]).1 > 0 ==> file_end(l.sections[j]) <= o,
    ensures
        pads_zero(c, s, l, k),
        forall|i: int| o + d.len() <= i < c.len() ==> c[i] == 0,
        c.len() == o + d.len() + z,
{
    assert forall|j: int| 0 <= j < k && (#[trigger] write_items(s, l)[j]).1 > 0 implies zero_span(c,
        write_items(s, l)[j].0 + write_items(s, l)[j].1, min_int(c.len() as int, file_end(l.sections[j]))) by {
        let a = write_items(s, l)[j].0 + write_items(s, l)[j].1;
        let e = file_end(l.sections[j]);
        assert(zero_span(b, a, min_int(b.len() as int, e)));
        assert forall|i: int| a <= i < min_int(c.len() as int, e) implies c[i] == 0 by {
            if i < b.len() {
                assert(c[i] == b[i]);
            } else {
                assert(c[i] == zeros(o - b.len())[i - b.len()]);
            }
        }
    }
}

/// Writes the data of the copied sections, then the `.rsps` data, each at its
/// reserved offset, checking before each write that it will not panic.
#[verifier::rlimit(50)]
fn write_sections(
    w: &mut object::write::pe::Writer<'_>,
    in_data: &[u8],
    sd: &Vec<(u32, &[u8])>,
    rsps_off: u32,
) -> (r: Result<(), RebuildError>)
    requires
        ({
            let (s, l) = (in_data@, writer_state(*old(w)).layout);
            &&& rebuild_precheck(s) is Ok
            &&& copied_data_ok(s, sd@)
            &&& l.sections.len() > copied_of(s).len()
            &&& rsps_off == l.sections[copied_of(s).len() as int].pointer_to_raw_data
            &&& (forall|j: int| 0 <= j < copied_of(s).len() ==> #[trigger] l.sections[j] == input_sections(s)[copied_of(s)[j]])
            &&& is_pow2(l.file_alignment)
            &&& l.sections.len() <= 0xffff
            &&& l.sections[copied_of(s).len() as int].size_of_raw_data > 0
            &&& (l.reserved <= u32::MAX ==> files_ordered(l.sections, l.reserved)
                && pads_zero(writer_state(*old(w)).buffer, s, l, 0))
        }),
    ensures
        writer_state(*final(w)).layout == writer_state(*old(w)).layout,
        writer_state(*final(w)).buffer_final == writer_state(*old(w)).buffer_final,
        ({
            let (s, l) = (in_data@, writer_state(*old(w)).layout);
            let items = write_items(s, l);
            let (b, b2) = (writer_state(*old(w)).buffer, writer_state(*final(w)).buffer);
            &&& r is Ok && l.reserved <= u32::MAX ==> pads_zero(b2, s, l, copied_of(s).len() + 1int)
            &&& r is Err ==> written_after(items, l.file_alignment, b.len() as int) is None
            &&& r is Ok ==> written_after(items, l.file_alignment, b.len() as int) == Some(b2.len() as int)
                && is_prefix(b, b2)
                && b2 == data_written(s, l, copied_of(s).len() + 1int, b)
                && forall|j: int| 0 <= j < items.len() && items[j].1 > 0 ==>
                    section_data_at(b2, items[j].0, #[trigger] item_data(s, j), l.file_alignment)
        }),
{
    let ghost s = in_data@;
    let ghost l = writer_state(*w).layout;
    let ghost fa = l.file_alignment;
    let ghost b4 = writer_state(*w).buffer;
    let rsps_data = rsps_section_data();
    let ghost items = write_items(s, l);
    assert(items.skip(0) =~= items);
    assert(b4.take(b4.len() as int) =~= b4);
    let mut k: usize = 0;
    while k <= sd.len()
        invariant
            rebuild_precheck(s) is Ok,
            s == in_data@,
            copied_data_ok(s, sd@),
            l.sections.len() > copied_of(s).len(),
            rsps_off == l.sections[copied_of(s).len() as int].pointer_to_raw_data,
            forall|j: int| 0 <= j < copied_of(s).len() ==> #[trigger] l.sections[j] == input_sections(s)[copied_of(s)[j]],
            is_pow2(fa),
            fa == l.file_alignment,
            rsps_data@ == spec_rsps_section_data(),
            items == write_items(s, l),
            l == writer_state(*old(w)).layout,
            b4 == writer_state(*old(w)).buffer,
            l.sections.len() <= 0xffff,
            l.sections[copied_of(s).len() as int].size_of_raw_data > 0,
            l.reserved <= u32::MAX ==> files_ordered(l.sections, l.reserved) && pads_zero(writer_state(*w).buffer, s, l, k as int),
            k <= sd@.len() + 1,
            items.len() == sd@.len() + 1,
            written_after(items, fa, b4.len() as int) == written_after(items.skip(k as int), fa, writer_state(*w).buffer.len() as int),
            writer_state(*w).layout == l,
            writer_state(*w).buffer_final == writer_state(*old(w)).buffer_final,
            is_prefix(b4, writer_state(*w).buffer),
            writer_state(*w).buffer == data_written(s, l, k as int, b4),
            forall|j: int| 0 <= j < k && items[j].1 > 0 ==>
                section_data_at(writer_state(*w).buffer, items[j].0, #[trigger] item_data(s, j), fa),
        decreases sd@.len() + 1 - k,
    {
        let (offset, bytes) = if k < sd.len() { sd[k] } else { (rsps_off, rsps_data.as_slice()) };
        proof {
            lemma_written_after_skip(items, fa, writer_state(*w).buffer.len() as int, k as int);
            lemma_item(s, l, sd@, k as int);
        }
        let cur = writer_len(w);
        if bytes.len() != 0 && (cur > offset as u64 || bytes.len() > u32::MAX as usize) {
            assert(written_after(items, fa, b4.len() as int) is None);
            return Err(RebuildError::Unsupported);
        }
        let ghost before = writer_state(*w).buffer;
        writer_write_section(w, offset, bytes);
        proof {
            if bytes@.len() > 0 {
                lemma_align64((offset as int + bytes@.len()) as u64, fa as u64);
                if l.reserved <= u32::MAX {
                    assert forall|j: int| 0 <= j < k && (#[trigger] write_items(s, l)[j]).1 > 0 implies
                        file_end(l.sections[j]) <= offset by {
                        assert(l.sections[j].size_of_raw_data > 0);
                        assert(l.sections[k as int].size_of_raw_data > 0);
                        assert(file_end(l.sections[j]) <= l.sections[k as int].pointer_to_raw_data);
                    }
                    let z = align64(offset + bytes@.len(), fa) - (offset + bytes@.len());
                    lemma_pads_append(s, l, k as int, before, offset as int, bytes@, z, writer_state(*w).buffer);
                    assert(pads_zero(writer_state(*w).buffer, s, l, k + 1));
                }
            } else if l.reserved <= u32::MAX {
                assert(pads_zero(writer_state(*w).buffer, s, l, k + 1));
            }
            lemma_section_step(before, writer_state(*w).buffer, offset as int, bytes@, fa, b4, items, s, k as int);
        }
        k = k + 1;
    }
    assert(items.skip(k as int) =~= Seq::<(int, int)>::empty());
    Ok(())
}

/// A planned image's rich header, with its 8 trailing bytes, fits in 32 bits.
proof fn lemma_plan_rich(s: Seq<u8>)
    requires
        rebuild_plan(s) is Some,
    ensures
        spec_rich_header(s) matches Some((_, len)) ==> len + 8 <= u32::MAX,
{
    reveal(rebuild_plan);
    reveal(plan_to_rsps);
    reveal(plan_headers);
}

/// The bytes of the rebuild's header writes for the layout `l` of the image
/// `s`: the DOS header and stub, the rich header (aligned to 4, with its 8
/// trailing bytes), zeros up to the NT headers, the NT headers and the section
/// headers.
pub open spec fn head_bytes(s: Seq<u8>, l: WriterLayout) -> Seq<u8> {
    let b1 = dos_header_and_stub_bytes(l.nt_headers_offset);
    let b2 = match spec_rich_header(s) {
        Some((r, len)) => b1 + zeros(align64(128, 4) - 128) + s.subrange(r as int, r + len + 8),
        None => b1,
    };
    b2 + zeros(l.nt_headers_offset - b2.len()) + nt_headers_bytes(l, input_nt_fields(s)) + section_headers_bytes(l.sections)
}

/// `b` after `Writer::write_section` of `d` at `o`: nothing for empty data;
/// otherwise zeros up to `o`, the data, and zeros up to the file alignment.
pub open spec fn section_written(b: Seq<u8>, o: int, d: Seq<u8>, fa: int) -> Seq<u8> {
    if d.len() == 0 { b } else { b + zeros(o - b.len()) + d + zeros(align64(o + d.len(), fa) - (o + d.len())) }
}

/// `b` after the first `k` data writes of the rebuild (`write_items`, with the
/// data of `item_data`).
pub open spec fn data_written(s: Seq<u8>, l: WriterLayout, k: int, b: Seq<u8>) -> Seq<u8>
    decreases k,
{
    if k <= 0 {
        b
    } else {
        section_written(data_written(s, l, k - 1, b), write_items(s, l)[k - 1].0, item_data(s, k - 1), l.file_alignment)
    }
}

/// `b` after the relocation blocks and the certificate table are written.
pub open spec fn tail_bytes(s: Seq<u8>, l: WriterLayout, b: Seq<u8>) -> Seq<u8> {
    let t = reloc_table_bytes(l.reloc_blocks, l.reloc_entries);
    let ro = l.reloc_offset;
    let b6 = if ro == 0 { b } else { b + zeros(ro - b.len()) + t + zeros(align64(ro + t.len(), l.file_alignment) - (ro + t.len())) };
    match spec_cert_dir(s) {
        Some((a, n)) => {
            let (va, size) = l.directories[4];
            b6 + zeros(va - b6.len()) + s.subrange(a as int, a + n) + zeros(size - n)
        },
        None => b6,
    }
}

/// The bytes that the rebuild writes for the layout `l` of the image `s`.
pub open spec fn image_bytes(s: Seq<u8>, l: WriterLayout) -> Seq<u8> {
    tail_bytes(s, l, data_written(s, l, copied_of(s).len() + 1int, head_bytes(s, l)))
}

/// The image `s` rebuilt with `.rsps`, as the rebuild writes it.
pub open spec fn rebuilt_image(s: Seq<u8>) -> Seq<u8> {
    image_bytes(s, rebuild_plan(s).unwrap())
}

/// What the rebuild's header writes leave in `b`, for the reserved layout `l`
/// of the image `s`: the DOS header pointing at the NT headers, the rich
/// header after the stub, the NT headers and the section headers after them,
/// and nothing more.
pub open spec fn head_image(s: Seq<u8>, l: WriterLayout, b: Seq<u8>) -> bool {
    let o = l.nt_headers_offset;
    let base = o + 136 + 8 * l.directories.len();
    &&& 0 <= o
    &&& b.len() == base + 40 * l.sections.len()
    &&& b.len() >= 128 && le_u16(b, 0) == 0x5a4d && le_u32(b, 60) == o
    &&& nt_headers_at(b, o, l, input_nt_fields(s))
    &&& forall|k: int| 0 <= k < l.sections.len() ==> #[trigger] section_view_at(b, base + 40 * k) == l.sections[k]
    &&& (spec_rich_header(s) matches Some((r, len)) ==> same_span(b, 128, s, r as int, len + 8))
}

/// The header writes of the rebuild fit: the reserved length is a valid
/// allocation size, the DOS header, stub and rich header end before the NT
/// headers, and the optional header's size fits its field.
pub open spec fn head_fits(s: Seq<u8>, l: WriterLayout) -> bool {
    let nd = l.directories.len() as int;
    &&& l.reserved <= isize::MAX
    &&& head_written(s) <= l.nt_headers_offset
    &&& 112 + 8 * nd <= u32::MAX
    &&& l.nt_headers_offset + 136 + 8 * nd + 40 * l.sections.len() <= u64::MAX
}

/// Writes the DOS header and stub, the rich header, the NT headers and the
/// section headers of the reserved image, checking before each write that it
/// will not panic.
#[verifier::loop_isolation(false)]
#[verifier::rlimit(100)]
#[verifier::spinoff_prover]
fn write_head(
    w: &mut object::write::pe::Writer<'_>,
    in_data: &[u8],
    nt_offset: u32,
    rich: Option<(usize, usize)>,
    ndirs: usize,
) -> (r: Result<(), RebuildError>)
    requires
        ({
            let (s, l) = (in_data@, writer_state(*old(w)).layout);
            &&& rebuild_precheck(s) is Ok
            &&& rebuild_spans_fit(s)
            &&& nt_offset == dos_nt_offset(s)
            &&& rich == spec_rich_header(s)
            &&& rebuild_plan(s) == Some(l)
            &&& writer_state(*old(w)).buffer.len() == 0
            &&& l.section_header_num == l.sections.len() <= 0xffff
            &&& ndirs == l.directories.len()
            &&& l.directories.len() == spec_directories(s).len()
        }),
    ensures
        writer_state(*final(w)).layout == writer_state(*old(w)).layout,
        writer_state(*final(w)).buffer_final == writer_state(*old(w)).buffer_final,
        r is Err ==> r == Err::<(), RebuildError>(RebuildError::Unsupported)
            && !head_fits(in_data@, writer_state(*old(w)).layout),
        r is Ok ==> head_fits(in_data@, writer_state(*old(w)).layout)
            && head_image(in_data@, writer_state(*old(w)).layout, writer_state(*final(w)).buffer)
            && writer_state(*final(w)).buffer == head_bytes(in_data@, writer_state(*old(w)).layout),
{
    let ghost s = in_data@;
    let ghost l = writer_state(*w).layout;
    let ghost o = l.nt_headers_offset;
    assert(in_data@.len() == in_data.len());
    let reserved = writer_reserved_len(w);
    if reserved > isize::MAX as u64 {
        return Err(RebuildError::Unsupported);
    }
    let _ = writer_write_dos_header_and_stub(w);
    let ghost b1 = writer_state(*w).buffer;
    if let Some((offset, length)) = rich {
        proof {
            assert((4u32 & 3u32) == 0) by (bit_vector);
            assert((4u64 & 3u64) == 0) by (bit_vector);
            lemma_align64(128, 4);
        }
        writer_write_align(w, 4);
        proof { lemma_plan_rich(s); }
        writer_write(w, &in_data[offset..offset + length + 8]);
    }
    let ghost b2 = writer_state(*w).buffer;
    proof {
        lemma_head_written(s, b1, b2);
    }
    let nt_off = writer_nt_headers_offset(w);
    let w2 = writer_len(w);
    if w2 > nt_off as u64 || ndirs > 0x1fff_ffff || ndirs as u64 * 8 + 112 > u32::MAX as u64 {
        return Err(RebuildError::Unsupported);
    }
    let fields = read_nt_fields(in_data, nt_offset);
    assert(fields@ =~= input_nt_fields(s));
    writer_write_nt_headers(w, &fields);
    let ghost b3 = writer_state(*w).buffer;
    writer_write_section_headers(w);
    let ghost b4 = writer_state(*w).buffer;
    proof {
        lemma_prefix_take(b2, b3, o);
        assert(is_prefix(b3, b4));
        lemma_prefix_trans(b1, b2, b3);
        lemma_prefix_trans(b1, b3, b4);
        lemma_prefix_trans(b2, b3, b4);
        lemma_prefix_at(b1, b4);
        lemma_prefix_nt(b3, b4, o, l, input_nt_fields(s));
        if let Some((r, len)) = spec_rich_header(s) {
            lemma_prefix_same_span(b2, b4, 128, s, r as int, len + 8);
        }
    }
    Ok(())
}

/// Each non-empty data write's section ends by the relocation blocks' offset
/// (where they are written) and by the certificate table (where there is one).
pub open spec fn tables_after(s: Seq<u8>, l: WriterLayout) -> bool {
    forall|j: int| 0 <= j <= copied_of(s).len() && (#[trigger] write_items(s, l)[j]).1 > 0 ==> {
        &&& l.reloc_offset != 0 ==> file_end(l.sections[j]) <= l.reloc_offset
        &&& spec_cert_dir(s) is Some ==> file_end(l.sections[j]) <= l.directories[4].0
    }
}

/// Writes the relocation blocks and the certificate table of the reserved
/// image, checking before each write that it will not panic.
#[verifier::rlimit(50)]
fn write_tail(
    w: &mut object::write::pe::Writer<'_>,
    in_data: &[u8],
    cert_dir: Option<(u32, u32)>,
    reloc_offset: u32,
    cert_range: (u32, u32),
) -> (r: Result<(), RebuildError>)
    requires
        ({
            let (s, l) = (in_data@, writer_state(*old(w)).layout);
            &&& rebuild_spans_fit(s)
            &&& cert_dir == spec_cert_dir(s)
            &&& reloc_offset == l.reloc_offset
            &&& (cert_dir is Some ==> l.directories.len() > 4 && l.directories[4] == (cert_range.0 as int, cert_range.1 as int))
            &&& reloc_blocks_count(l.reloc_blocks) == l.reloc_entries.len()
            &&& reloc_blocks_size(l.reloc_blocks) <= u32::MAX
            &&& is_pow2(l.file_alignment)
            &&& (l.reserved <= u32::MAX ==> tables_after(s, l))
        }),
    ensures
        writer_state(*final(w)).layout == writer_state(*old(w)).layout,
        writer_state(*final(w)).buffer_final == writer_state(*old(w)).buffer_final,
        ({
            let (s, l) = (in_data@, writer_state(*old(w)).layout);
            let (b, b2) = (writer_state(*old(w)).buffer, writer_state(*final(w)).buffer);
            &&& r is Ok && l.reserved <= u32::MAX && pads_zero(b, s, l, copied_of(s).len() + 1int) ==>
                pads_zero(b2, s, l, copied_of(s).len() + 1int)
            &&& r is Err ==> tail_written(s, l, b.len() as int) is None
            &&& r is Ok ==> tail_written(s, l, b.len() as int) == Some(b2.len() as int)
                && is_prefix(b, b2)
                && b2 == tail_bytes(s, l, b)
                && (l.reloc_offset != 0 ==> section_data_at(b2, l.reloc_offset,
                    reloc_table_bytes(l.reloc_blocks, l.reloc_entries), l.file_alignment))
                && (spec_cert_dir(s) matches Some((a, n)) ==> {
                    let (va, size) = l.directories[4];
                    same_span(b2, va, s, a as int, n as int) && zero_span(b2, va + n, va + size)
                })
        }),
{
    let ghost s = in_data@;
    let ghost l = writer_state(*w).layout;
    assert(in_data@.len() == in_data.len());
    let ghost b5 = writer_state(*w).buffer;
    if reloc_offset != 0 && writer_len(w) > reloc_offset as u64 {
        return Err(RebuildError::Unsupported);
    }
    writer_write_reloc_section(w);
    let ghost b6 = writer_state(*w).buffer;
    proof {
        if reloc_offset != 0 {
            assert forall|i: int| 0 <= i < l.reloc_blocks.len() implies 0 <= (#[trigger] l.reloc_blocks[i]).1 by {
                assert(writer_state(*w).layout.reloc_blocks[i] == l.reloc_blocks[i]);
            }
            lemma_reloc_table_len(l.reloc_blocks, l.reloc_entries);
            lemma_align64((l.reloc_offset + reloc_blocks_size(l.reloc_blocks)) as u64, l.file_alignment as u64);
            if l.reserved <= u32::MAX && pads_zero(b5, s, l, copied_of(s).len() + 1int) {
                let tb = reloc_table_bytes(l.reloc_blocks, l.reloc_entries);
                lemma_pads_append(s, l, copied_of(s).len() + 1int, b5, l.reloc_offset, tb,
                    align64(l.reloc_offset + tb.len(), l.file_alignment) - (l.reloc_offset + tb.len()), b6);
            }
        }
        lemma_reloc_written(b5, b6, l);
    }
    if let Some((address, size)) = cert_dir {
        let (offset, n) = cert_range;
        if writer_len(w) > offset as u64 || offset as u64 + n as u64 > u32::MAX as u64 || size > n {
        return Err(RebuildError::Unsupported);
        }
        let ghost b6a = writer_state(*w).buffer;
        writer_write_certificate_table(w, &in_data[address as usize..address as usize + size as usize]);
        proof {
            if l.reserved <= u32::MAX && pads_zero(b6a, s, l, copied_of(s).len() + 1int) {
                lemma_pads_append(s, l, copied_of(s).len() + 1int, b6a, offset as int,
                    in_data@.subrange(address as int, address + size), n - size, writer_state(*w).buffer);
            }
        }
    }
    let ghost b7 = writer_state(*w).buffer;
    proof {
        if l.reserved <= u32::MAX && pads_zero(b5, s, l, copied_of(s).len() + 1int) {
            assert(pads_zero(b6, s, l, copied_of(s).len() + 1int));
            assert(pads_zero(b7, s, l, copied_of(s).len() + 1int));
        }
        lemma_cert_written(s, l, b6, b7);
        lemma_prefix_trans(b5, b6, b7);
        if l.reloc_offset != 0 {
            lemma_prefix_data(b6, b7, l.reloc_offset, reloc_table_bytes(l.reloc_blocks, l.reloc_entries), l.file_alignment);
        }
    }
    Ok(())
}

/// Writes the reserved image `l` (see `rebuild_writes`), checking before each
/// write that it will not panic.
#[verifier::loop_isolation(false)]
#[verifier::rlimit(100)]
#[verifier::spinoff_prover]
fn write_out(
    w: &mut object::write::pe::Writer<'_>,
    in_data: &[u8],
    nt_offset: u32,
    rich: Option<(usize, usize)>,
    cert_dir: Option<(u32, u32)>,
    sd: &Vec<(u32, &[u8])>,
    rsps_off: u32,
    ndirs: usize,
    reloc_offset: u32,
    cert_range: (u32, u32),
) -> (r: Result<(), RebuildError>)
    requires
        ({
            let (s, l) = (in_data@, writer_state(*old(w)).layout);
            let (hs, ci) = (input_sections(s), copied_of(s));
            &&& rebuild_precheck(s) is Ok
            &&& rebuild_spans_fit(s)
            &&& nt_offset == dos_nt_offset(s)
            &&& rich == spec_rich_header(s)
            &&& cert_dir == spec_cert_dir(s)
            &&& rebuild_plan(s) == Some(l)
            &&& writer_state(*old(w)).buffer.len() == 0
            &&& copied_data_ok(s, sd@)
            &&& l.sections.len() >= ci.len() + 1
            &&& l.section_header_num == l.sections.len() <= 0xffff
            &&& rsps_off == l.sections[ci.len() as int].pointer_to_raw_data
            &&& ndirs == l.directories.len()
            &&& (forall|j: int| 0 <= j < ci.len() ==> #[trigger] l.sections[j] == hs[ci[j]])
            &&& reloc_offset == l.reloc_offset
            &&& (cert_dir is Some ==> l.directories.len() > 4 && l.directories[4] == (cert_range.0 as int, cert_range.1 as int))
            &&& reloc_blocks_count(l.reloc_blocks) == l.reloc_entries.len()
            &&& reloc_blocks_size(l.reloc_blocks) <= u32::MAX
            &&& l.directories.len() == spec_directories(s).len()
            &&& is_pow2(l.file_alignment)
            &&& l.sections[ci.len() as int].size_of_raw_data > 0
            &&& (l.reserved <= u32::MAX ==> files_ordered(l.sections, l.reserved) && tables_after(s, l))
        }),
    ensures
        writer_state(*final(w)).layout == writer_state(*old(w)).layout,
        writer_state(*final(w)).buffer_final == writer_state(*old(w)).buffer_final,
        r is Ok && writer_state(*old(w)).layout.reserved <= u32::MAX ==>
            pads_zero(writer_state(*final(w)).buffer, in_data@, writer_state(*old(w)).layout, copied_of(in_data@).len() + 1int),
        r is Err ==> r == Err::<(), RebuildError>(RebuildError::Unsupported)
            && rebuild_writes(in_data@, writer_state(*old(w)).layout) is None,
        r is Ok ==> rebuild_writes(in_data@, writer_state(*old(w)).layout) == Some(writer_state(*final(w)).buffer.len() as int)
            && written_image(in_data@, writer_state(*old(w)).layout, writer_state(*final(w)).buffer)
            && writer_state(*final(w)).buffer == image_bytes(in_data@, writer_state(*old(w)).layout),
{
    let ghost s = in_data@;
    let ghost l = writer_state(*w).layout;
    assert(in_data@.len() == in_data.len());
    let head = write_head(w, in_data, nt_offset, rich, ndirs);
    if head.is_err() {
        proof { reveal(rebuild_writes); }
        return Err(RebuildError::Unsupported);
    }
    let ghost b4 = writer_state(*w).buffer;
    assert(pads_zero(b4, s, l, 0));
    let written = write_sections(w, in_data, sd, rsps_off);
    if written.is_err() {
        proof { reveal(rebuild_writes); }
        return Err(RebuildError::Unsupported);
    }
    let ghost b5 = writer_state(*w).buffer;
    let tail = write_tail(w, in_data, cert_dir, reloc_offset, cert_range);
    if tail.is_err() {
        proof { reveal(rebuild_writes); }
        return Err(RebuildError::Unsupported);
    }
    let ghost b7 = writer_state(*w).buffer;
    proof {
        lemma_prefix_trans(b4, b5, b7);
        lemma_written_image(s, l, b4, b5, b7);
        assert(rebuild_writes(s, l) == Some(b7.len() as int)) by {
            reveal(rebuild_writes);
        }
    }
    Ok(())
}

/// The replacement strings are not empty.
proof fn lemma_rsps_data_len()
    ensures
        spec_rsps_section_data().len() > 0,
{
    reveal_strlit("https://raw.githubusercontent.com/AlterRSPS/Resources/main/jav_configs/jav_config.ws\0");
    vstd::string::is_ascii_spec_bytes(JAV_CONFIG_URL);
}

/// The written image, for the planned layout, is the input rebuilt with `.rsps`.
#[verifier::rlimit(100)]
#[verifier::spinoff_prover]
proof fn lemma_rebuilt(s: Seq<u8>, l6: WriterLayout, plan: WriterLayout, t: Seq<u8>, cert_range: (u32, u32))
    requires
        rebuild_precheck(s) is Ok,
        rebuild_spans_fit(s),
        rebuild_plan(s) == Some(plan),
        written_image(s, plan, t),
        ({
            let (hs, ci) = (input_sections(s), copied_of(s));
            let m = ci.len() as int;
            let (sa, fa) = (image_section_alignment(s), image_file_alignment(s));
            &&& l6.sections.len() == m + 1
            &&& forall|j: int| 0 <= j < m ==> #[trigger] l6.sections[j] == hs[ci[j]]
            &&& l6.sections[m].name == spec_rsps_section_name()
            &&& l6.sections[m].characteristics == RSPS_CHARACTERISTICS
            &&& l6.sections[m].virtual_size == RSPS_VIRTUAL_SIZE
            &&& l6.sections[m].size_of_raw_data == align32(RSPS_RAW_SIZE as int, fa)
            &&& (m > 0 ==> l6.sections[m].virtual_address == align32(
                l6.sections[m - 1].virtual_address + l6.sections[m - 1].virtual_size, sa))
            &&& l6.virtual_len == align32(l6.sections[m].virtual_address + l6.sections[m].virtual_size, sa)
            &&& l6.section_header_num == output_count(s)
            &&& l6.section_alignment == sa && l6.file_alignment == fa
            &&& l6.directories == copied_directory_values(spec_directories(s))
            &&& tables_reserved(l6, plan, spec_reloc_dir(s) is Some, spec_cert_dir(s), cert_range)
        }),
        t.len() == plan.reserved,
        plan.sections[copied_of(s).len() as int].size_of_raw_data > 0,
        plan.reserved <= u32::MAX ==> pads_zero(t, s, plan, copied_of(s).len() + 1int)
            && files_ordered(plan.sections, plan.reserved),
    ensures
        rebuilt_from(s, t),
{
    reveal(rebuilt_from);
    reveal(written_image);
    let (hs, ci) = (input_sections(s), copied_of(s));
    let m = ci.len() as int;
    let (sa, fa) = (image_section_alignment(s), image_file_alignment(s));
    let os = dos_nt_offset(s);
    let o = plan.nt_headers_offset;
    let n = plan.directories.len() as int;
    let ds = spec_directories(s);
    lemma_copied_indices(hs, spec_reloc_dir(s), hs.len() as int);
    lemma_rsps_data_len();
    // The input's NT headers leave room for no more than 8191 directories.
    assert(nt64_ok(s, os));
    assert(le_u16(s, os + 20) <= 0xffff);
    assert(n == ds.len());
    assert(112 + 8 * n <= 0xffff);
    assert((112 + 8 * n) % 0x1_0000 == 112 + 8 * n);
    // The headers of `t`.
    assert(dos_nt_offset(t) == o);
    assert(dos_header_ok(t));
    assert(nt64_ok(t, o));
    assert(nt_section_table_offset(t, o) == o + 136 + 8 * n);
    assert(nt_section_count(t, o) == plan.sections.len());
    assert(section_table_fits(t, o + 136 + 8 * n, plan.sections.len() as int));
    assert(pe_sections(t) is Some);
    let ts = pe_sections(t).unwrap();
    assert(ts =~= plan.sections);
    // The directories of `t`.
    let dt = spec_directories(t);
    assert(dt.len() == ds.len());
    assert forall|i: int| 0 <= i < n implies dt[i].virtual_address == plan.directories[i].0
        && dt[i].size == plan.directories[i].1 by {
        assert(nt_directory(t, o, i).0 == plan.directories[i].0);
    }
    // The NT header fields.
    assert forall|k: int| 0 <= k < nt_written_fields().len() implies
        same_value(t, o + (#[trigger] nt_written_fields()[k]).0, s, os + nt_written_fields()[k].0, nt_written_fields()[k].1) by {
        let w = nt_written_fields()[k].1 as nat;
        lemma_le_n_bound(s, os + nt_written_fields()[k].0, w);
        lemma_pow256_le(w, 8);
        reveal_with_fuel(pow256, 9);
    }
    // The sections' data.
    let items = write_items(s, plan);
    assert forall|k: int| 0 <= k < m implies #[trigger] ts[k] == hs[ci[k]] && same_section_data(s, t, hs[ci[k]], fa) by {
        assert(ts[k] == l6.sections[k]);
        assert(items[k].1 == spec_section_file_range(hs[ci[k]]).1);
        if items[k].1 > 0 {
            assert(section_data_at(t, items[k].0, item_data(s, k), fa));
        }
    }
    assert(items[m].1 > 0);
    assert(section_data_at(t, items[m].0, item_data(s, m), fa));
    if t.len() <= u32::MAX {
        assert forall|k: int| #![trigger ci[k]] 0 <= k < m && spec_section_file_range(hs[ci[k]]).1 > 0 implies zero_span(t,
            hs[ci[k]].pointer_to_raw_data + spec_section_file_range(hs[ci[k]]).1, file_end(hs[ci[k]])) by {
            assert(ts[k] == l6.sections[k]);
            assert(items[k].1 == spec_section_file_range(hs[ci[k]]).1);
            assert(plan.sections[k].size_of_raw_data > 0);
            assert(zero_span(t, items[k].0 + items[k].1, min_int(t.len() as int, file_end(plan.sections[k]))));
        }
        assert(zero_span(t, items[m].0 + items[m].1, min_int(t.len() as int, file_end(plan.sections[m]))));
    }
}

/// `b2`, the buffer after the DOS header and stub (`b1`) and the rich header,
/// extends `b1`, is `head_written` long, and holds the rich header after the stub.
proof fn lemma_head_written(s: Seq<u8>, b1: Seq<u8>, b2: Seq<u8>)
    requires
        b1.len() == 128,
        spec_rich_header(s) matches Some((r, len)) ==> r + len + 8 <= s.len()
            && b2 == b1 + zeros(align64(128, 4) - 128) + s.subrange(r as int, r + len + 8),
        spec_rich_header(s) is None ==> b2 == b1,
    ensures
        is_prefix(b1, b2),
        b2.len() == head_written(s),
        spec_rich_header(s) matches Some((r, len)) ==> same_span(b2, 128, s, r as int, len + 8),
{
    if let Some((r, len)) = spec_rich_header(s) {
        assert(((131u64) & !(3u64)) == 128u64) by (bit_vector);
        assert(align64(128, 4) == 128);
        let x = zeros(align64(128, 4) - 128) + s.subrange(r as int, r + len + 8);
        assert(b2 =~= b1 + x);
        lemma_prefix_extend(b1, x, b2);
        assert(b2.subrange(128, 128 + len + 8) =~= s.subrange(r as int, r + len + 8));
    } else {
        assert(b2.take(b1.len() as int) =~= b1);
    }
}

/// The `k`-th data write is the `k`-th item, with its data.
proof fn lemma_item(s: Seq<u8>, l: WriterLayout, sd: Seq<(u32, &[u8])>, k: int)
    requires
        rebuild_precheck(s) is Ok,
        0 <= k <= copied_of(s).len(),
        copied_data_ok(s, sd),
        l.sections.len() > copied_of(s).len(),
        forall|j: int| 0 <= j < copied_of(s).len() ==> #[trigger] l.sections[j] == input_sections(s)[copied_of(s)[j]],
    ensures
        k < copied_of(s).len() ==> write_items(s, l)[k] == (sd[k].0 as int, sd[k].1@.len() as int)
            && item_data(s, k) == sd[k].1@,
        k == copied_of(s).len() ==> write_items(s, l)[k] == (l.sections[k].pointer_to_raw_data as int,
            spec_rsps_section_data().len() as int) && item_data(s, k) == spec_rsps_section_data(),
{
    let (hs, ci) = (input_sections(s), copied_of(s));
    let items = write_items(s, l);
    if k < ci.len() {
        lemma_precheck_fits(s);
        assert(section_data_fits(s, hs[ci[k]]));
        assert(sd[k].1@ == section_bytes(s, hs[ci[k]]));
        assert(items[k].1 == spec_section_file_range(hs[ci[k]]).1);
    }
}

/// A data write keeps the earlier ones and adds its own.
proof fn lemma_section_step(before: Seq<u8>, after: Seq<u8>, o: int, d: Seq<u8>, fa: int, b4: Seq<u8>,
    items: Seq<(int, int)>, s: Seq<u8>, k: int)
    requires
        is_prefix(b4, before),
        0 <= k < items.len(),
        items[k] == (o, d.len() as int),
        item_data(s, k) == d,
        d.len() == 0 ==> after == before,
        d.len() > 0 ==> before.len() <= o && after == before + zeros(o - before.len()) + d + zeros(align64(o + d.len(), fa) - (o + d.len())),
        d.len() > 0 ==> o + d.len() <= align64(o + d.len(), fa),
        forall|j: int| 0 <= j < k && items[j].1 > 0 ==> section_data_at(before, items[j].0, #[trigger] item_data(s, j), fa),
    ensures
        is_prefix(b4, after),
        forall|j: int| 0 <= j < k + 1 && items[j].1 > 0 ==> section_data_at(after, items[j].0, #[trigger] item_data(s, j), fa),
        after.len() == if d.len() == 0 { before.len() as int } else { align64(o + d.len(), fa) },
{
    if d.len() > 0 {
        lemma_written_section(before, o, d, align64(o + d.len(), fa));
        lemma_prefix_trans(b4, before, after);
        assert forall|j: int| 0 <= j < k + 1 && items[j].1 > 0 implies section_data_at(after, items[j].0, #[trigger] item_data(s, j), fa) by {
            if j < k {
                lemma_prefix_data(before, after, items[j].0, item_data(s, j), fa);
            } else {
                assert(after.subrange(o, o + d.len()) == d);
            }
        }
    }
}

/// The relocation blocks' write.
proof fn lemma_reloc_written(b5: Seq<u8>, b6: Seq<u8>, l: WriterLayout)
    requires
        ({
            let t = reloc_table_bytes(l.reloc_blocks, l.reloc_entries);
            let ro = l.reloc_offset;
            &&& ro == 0 ==> b6 == b5
            &&& ro != 0 ==> b5.len() <= ro
                && b6 == b5 + zeros(ro - b5.len()) + t + zeros(align64(ro + t.len(), l.file_alignment) - (ro + t.len()))
            &&& ro != 0 ==> ro + t.len() <= align64(ro + t.len(), l.file_alignment)
        }),
    ensures
        is_prefix(b5, b6),
        l.reloc_offset != 0 ==> section_data_at(b6, l.reloc_offset, reloc_table_bytes(l.reloc_blocks, l.reloc_entries),
            l.file_alignment),
{
    let t = reloc_table_bytes(l.reloc_blocks, l.reloc_entries);
    if l.reloc_offset != 0 {
        lemma_written_section(b5, l.reloc_offset, t, align64(l.reloc_offset + t.len(), l.file_alignment));
    } else {
        assert(b6.take(b5.len() as int) =~= b5);
    }
}

/// The certificate table's write.
proof fn lemma_cert_written(s: Seq<u8>, l: WriterLayout, b6: Seq<u8>, b7: Seq<u8>)
    requires
        spec_cert_dir(s) is None ==> b7 == b6,
        spec_cert_dir(s) matches Some((a, n)) ==> {
            let (va, size) = l.directories[4];
            &&& b6.len() <= va && n <= size
            &&& a + n <= s.len()
            &&& b7 == b6 + zeros(va - b6.len()) + s.subrange(a as int, a + n) + zeros(size - n)
        },
    ensures
        is_prefix(b6, b7),
        spec_cert_dir(s) matches Some((a, n)) ==> {
            let (va, size) = l.directories[4];
            same_span(b7, va, s, a as int, n as int) && zero_span(b7, va + n, va + size)
        },
{
    if let Some((a, n)) = spec_cert_dir(s) {
        let (va, size) = l.directories[4];
        lemma_written_section(b6, va, s.subrange(a as int, a + n), va + size);
    } else {
        assert(b7.take(b6.len() as int) =~= b6);
    }
}

/// What the rebuild's writes leave, step by step (`b4` after the headers,
/// `b5` after the sections' data, `b6` after the relocation blocks, `b7` after
/// the certificate table), makes up `written_image`.
#[verifier::rlimit(100)]
#[verifier::spinoff_prover]
proof fn lemma_written_image(s: Seq<u8>, l: WriterLayout, b4: Seq<u8>, b5: Seq<u8>, b7: Seq<u8>)
    requires
        ({
            let fa = l.file_alignment;
            let items = write_items(s, l);
            &&& is_prefix(b4, b7) && is_prefix(b5, b7)
            &&& head_image(s, l, b4)
            &&& (forall|j: int| 0 <= j < items.len() && items[j].1 > 0 ==>
                section_data_at(b5, items[j].0, #[trigger] item_data(s, j), fa))
            &&& (l.reloc_offset != 0 ==> section_data_at(b7, l.reloc_offset,
                reloc_table_bytes(l.reloc_blocks, l.reloc_entries), fa))
            &&& (spec_cert_dir(s) matches Some((a, n)) ==> {
                let (va, size) = l.directories[4];
                same_span(b7, va, s, a as int, n as int) && zero_span(b7, va + n, va + size)
            })
        }),
    ensures
        written_image(s, l, b7),
{
    reveal(written_image);
    let o = l.nt_headers_offset;
    let fa = l.file_alignment;
    let items = write_items(s, l);
    lemma_prefix_at(b4, b7);
    lemma_prefix_nt(b4, b7, o, l, input_nt_fields(s));
    let base = o + 136 + 8 * l.directories.len();
    assert forall|k: int| 0 <= k < l.sections.len() implies #[trigger] section_view_at(b7, base + 40 * k) == l.sections[k] by {
        lemma_prefix_section(b4, b7, base + 40 * k);
    }
    assert forall|j: int| 0 <= j < items.len() && items[j].1 > 0 implies
        section_data_at(b7, items[j].0, #[trigger] item_data(s, j), fa) by {
        lemma_prefix_data(b5, b7, items[j].0, item_data(s, j), fa);
    }
    if let Some((r, len)) = spec_rich_header(s) {
        lemma_prefix_same_span(b4, b7, 128, s, r as int, len + 8);
    }
}

/// Lays out and writes the input rebuilt with `.rsps` into `out`, with
/// `object`'s PE writer (see `reserve_to_rsps`, `reserve_tables` and
/// `write_out`). Succeeds exactly where `rebuild_layout_ok` holds, and then
/// `out` is the rebuilt image.
#[verifier::rlimit(100)]
fn write_rebuilt(
    in_data: &[u8],
    summary: &NtSummary,
    nt_offset: u32,
    headers: &Vec<SectionHeader>,
    copied: &Vec<usize>,
    rich: Option<(usize, usize)>,
    reloc_dir: Option<(u32, u32)>,
    cert_dir: Option<(u32, u32)>,
    relocs: &Vec<(u32, u16)>,
    out: &mut Vec<u8>,
) -> (r: Result<(), RebuildError>)
    requires
        old(out)@.len() == 0,
        rebuild_args(in_data@, *summary, nt_offset, headers@, copied@, rich, reloc_dir, cert_dir),
        relocs@ == rebuild_relocs(in_data@),
    ensures
        r is Ok <==> rebuild_layout_ok(in_data@),
        r is Err ==> r == Err::<(), RebuildError>(RebuildError::Unsupported),
        r is Ok ==> rebuilt_from(in_data@, final(out)@) && final(out)@ == rebuilt_image(in_data@),
{
    proof {
        reveal(rebuild_plan);
        reveal(plan_headers);
        reveal(plan_to_rsps);
    }
    let ghost s = in_data@;
    let ghost hs = input_sections(s);
    let ghost ci = copied_of(s);
    proof {
        lemma_copied_indices(hs, reloc_dir, hs.len() as int);
        lemma_precheck_fits(s);
    }
    let (sa, fa) = (summary.section_alignment, summary.file_alignment);
    let count = match output_section_count(copied.len(), reloc_dir.is_some()) {
        Some(n) => n,
        None => return Err(RebuildError::Unsupported),
    };
    if !pow2_u32(sa) || !pow2_u32(fa) {
        return Err(RebuildError::Unsupported);
    }
    let mut writer = writer_new(sa, fa, out);
    let (code, data, bss, sd, rsps_off) = match reserve_to_rsps(&mut writer, in_data, summary, nt_offset, headers, copied,
        rich, reloc_dir, cert_dir, count) {
        Ok(x) => x,
        Err(e) => return Err(e),
    };
    let ghost l6 = writer_state(writer).layout;
    let (reloc_offset, cert_range) = match reserve_tables(&mut writer, Ghost(s), relocs, reloc_dir, cert_dir, sa, fa, code, data, bss) {
        Ok(x) => x,
        Err(e) => return Err(e),
    };
    let ghost plan = writer_state(writer).layout;
    assert(rebuild_plan(s) == Some(plan));
    proof {
        let m = ci.len() as int;
        assert(plan.sections[m] == l6.sections[m]);
        let fa32 = fa;
        assert(((((0x200u32 + fa32 - 1) as u32) & !((fa32 - 1) as u32)) >= 0x200u32)) by (bit_vector)
            requires
                1 <= fa32 <= 0x8000_0000,
                (fa32 & ((fa32 - 1) as u32)) == 0;
        assert(plan.sections[m].size_of_raw_data > 0);
        if plan.reserved <= u32::MAX {
            lemma_plan_ordered(s);
            assert forall|j: int| 0 <= j <= m && (#[trigger] write_items(s, plan)[j]).1 > 0 implies {
                &&& plan.reloc_offset != 0 ==> file_end(plan.sections[j]) <= plan.reloc_offset
                &&& spec_cert_dir(s) is Some ==> file_end(plan.sections[j]) <= plan.directories[4].0
            } by {
                if j < m {
                    assert(plan.sections[j] == l6.sections[j]);
                    assert(plan.sections[j] == hs[ci[j]]);
                }
                assert(plan.sections[j].size_of_raw_data > 0);
            }
            assert(tables_after(s, plan));
        }
    }
    let reserved = writer_reserved_len(&writer);
    match write_out(&mut writer, in_data, nt_offset, rich, cert_dir, &sd, rsps_off, summary.data_directories.len(),
        reloc_offset, cert_range) {
        Ok(()) => {},
        Err(e) => return Err(e),
    }
    let ghost t = writer_state(writer).buffer;
    let len = writer_finish(writer);
    if len != reserved {
        return Err(RebuildError::Unsupported);
    }
    proof {
        assert(t.take(len as int) =~= t);
        if plan.reserved <= u32::MAX {
            lemma_plan_ordered(s);
        }
        lemma_rebuilt(s, l6, plan, t, cert_range);
    }
    Ok(())
}

/// The checks of `reserve_section_ok` on the writer's values (virtual and
/// reserved length, alignments, the code, data and uninitialized data
/// totals): the section's virtual size rounded up to the file alignment,
/// which its total grows by, where they hold.
fn section_checks(vl: u32, rl: u64, sa: u32, fa: u32, code: u64, data: u64, bss: u64, characteristics: u32, vs: u32, ds: u32)
    -> (r: Option<u64>)
    requires
        is_pow2(sa as int) && is_pow2(fa as int),
        code <= u32::MAX && data <= u32::MAX && bss <= u32::MAX,
    ensures
        ({
            let l = WriterLayout { virtual_len: vl as int, reserved: rl as int, section_alignment: sa as int,
                file_alignment: fa as int, code_len: code as int, data_len: data as int, bss_len: bss as int,
                ..initial_layout(sa as int, fa as int) };
            &&& r is Some <==> reserve_section_ok(l, characteristics, vs as int, ds as int)
            &&& r matches Some(a) ==> a == align32(vs as int, fa as int)
                && section_total(l, characteristics) + a <= u32::MAX
        }),
{
    if vl as u64 + vs as u64 + sa as u64 > u32::MAX as u64 || ds as u64 + fa as u64 > u32::MAX as u64
        || vs as u64 + fa as u64 > u32::MAX as u64 {
        return None;
    }
    let fsize = align_u32(ds, fa);
    if fsize != 0 && rl > u64::MAX - fa as u64 - fsize as u64 {
        return None;
    }
    let avs = align_u32(vs, fa);
    let kind = section_kind_of(characteristics);
    let total = if kind == 0 { code } else if kind == 1 { data } else if kind == 2 { bss } else { 0 };
    if total + avs as u64 > u32::MAX as u64 {
        return None;
    }
    Some(avs as u64)
}

/// What rebuilding the image `s` gives: the error of `rebuild_precheck`;
/// `OutOfBounds` where the rich header or certificate table runs past the
/// image; `Malformed` where its base relocations cannot be read;
/// `Unsupported` where `object` cannot lay it out as it is
/// (`rebuild_layout_ok`); the rebuilt image otherwise.
pub open spec fn spec_rebuild_outcome(s: Seq<u8>) -> Result<(), RebuildError> {
    if rebuild_precheck(s) is Err {
        rebuild_precheck(s)
    } else if !rebuild_spans_fit(s) {
        Err(RebuildError::OutOfBounds)
    } else if relocs_unreadable(s) {
        Err(RebuildError::Malformed)
    } else if !rebuild_layout_ok(s) {
        Err(RebuildError::Unsupported)
    } else {
        Ok(())
    }
}

/// Rebuilds a 64-bit PE image with one more section, `.rsps`, that holds the
/// replacement strings (see `rsps_section_data`): the headers, the copied data
/// directories and the sections other than the base relocation table are
/// carried over; the relocation table and the certificate table are rebuilt
/// (see `rebuilt_from`). The image is `rebuilt_image`, the bytes that the
/// writes make; the errors are those of `spec_rebuild_outcome`.
#[verifier::rlimit(50)]
pub fn create_rsps_section(in_data: &[u8]) -> (r: Result<Vec<u8>, RebuildError>)
    ensures
        match spec_rebuild_outcome(in_data@) {
            Ok(()) => r matches Ok(out) && rebuilt_from(in_data@, out@) && out@ == rebuilt_image(in_data@),
            Err(e) => r == Err::<Vec<u8>, RebuildError>(e),
        },
{
    let nt_offset = match dos_nt_headers_offset(in_data) {
        Ok(o) => o,
        Err(_) => return Err(RebuildError::Malformed),
    };
    let rich = find_rich_header(in_data, nt_offset);
    let (nt, dirs_table, summary) = match parse_nt_headers64(in_data, nt_offset) {
        Ok(p) => p,
        Err(_) => return Err(RebuildError::Malformed),
    };
    let headers = match read_section_headers(in_data, summary.section_table_offset, summary.number_of_sections) {
        Ok(hs) => hs,
        Err(_) => return Err(RebuildError::Malformed),
    };
    let ghost s = in_data@;
    let ghost hs = pe_sections(s).unwrap();
    assert(header_views(headers@) =~= hs);
    assert(summary.data_directories@ =~= spec_directories(s));
    if let Some((_, length)) = rich {
        if rich_reserve_length(length).is_none() {
            return Err(RebuildError::Overflow);
        }
    }
    let cert_dir = directory_range(&summary.data_directories, IMAGE_DIRECTORY_ENTRY_SECURITY);
    let reloc_dir = directory_range(&summary.data_directories, IMAGE_DIRECTORY_ENTRY_BASERELOC);
    let copied = copied_sections(&headers, reloc_dir);
    proof {
        lemma_copied_indices(hs, reloc_dir, hs.len() as int);
    }
    let mut k: usize = 0;
    while k < copied.len()
        invariant
            k <= copied@.len(),
            s == in_data@,
            hs == header_views(headers@),
            copied@.len() == copied_indices(hs, reloc_dir, hs.len() as int).len(),
            forall|m: int| 0 <= m < copied@.len() ==> #[trigger] copied@[m] == copied_indices(hs, reloc_dir, hs.len() as int)[m],
            forall|m: int| 0 <= m < copied_indices(hs, reloc_dir, hs.len() as int).len() ==>
                0 <= #[trigger] copied_indices(hs, reloc_dir, hs.len() as int)[m] < hs.len()
                && is_copied_section(hs[copied_indices(hs, reloc_dir, hs.len() as int)[m]], reloc_dir),
            forall|m: int| 0 <= m < k ==> section_data_fits(s, #[trigger] headers@[copied@[m] as int]@),
            reloc_dir == spec_reloc_dir(s),
            pe_sections(s) == Some(hs),
            !(spec_rich_header(s) matches Some((_, l)) && (l as int % 0x1_0000_0000) + 8 > u32::MAX),
        decreases copied@.len() - k,
    {
        let h = headers[copied[k]];
        let (offset, size) = section_file_range(&h);
        if size != 0 && offset as u64 + size as u64 > in_data.len() as u64 {
            let ghost j = copied@[k as int] as int;
            assert(copied@[k as int] == copied_indices(hs, reloc_dir, hs.len() as int)[k as int]);
            assert(0 <= j < hs.len());
            assert(hs[j] == h@);
            assert(is_copied_section(hs[copied@[k as int] as int], spec_reloc_dir(s)));
            assert(!section_data_fits(s, hs[j]));
            assert(exists|i: int| 0 <= i < hs.len() && is_copied_section(hs[i], spec_reloc_dir(s))
                && !section_data_fits(s, #[trigger] hs[i]));
            proof {
                lemma_precheck_malformed(s, j);
            }
            return Err(RebuildError::Malformed);
        }
        k = k + 1;
    }
    assert(rebuild_precheck(s) is Ok) by {
        assert forall|j: int| 0 <= j < hs.len() && is_copied_section(hs[j], spec_reloc_dir(s))
            implies section_data_fits(s, #[trigger] hs[j]) by {
            lemma_copied_index_present(hs, reloc_dir, hs.len() as int, j);
            let m = choose|m: int| 0 <= m < copied_indices(hs, reloc_dir, hs.len() as int).len()
                && #[trigger] copied_indices(hs, reloc_dir, hs.len() as int)[m] == j;
            assert(copied@[m] == j);
            assert(section_data_fits(s, headers@[copied@[m] as int]@));
        }
    }
    if let Some((offset, length)) = rich {
        if copy_span(offset, length + 8, in_data.len()).is_none() {
            return Err(RebuildError::OutOfBounds);
        }
    }
    if let Some((address, size)) = cert_dir {
        if copy_span(address as usize, size as usize, in_data.len()).is_none() {
            return Err(RebuildError::OutOfBounds);
        }
    }
    assert(rebuild_spans_fit(s));
    let relocs: Vec<(u32, u16)> = if reloc_dir.is_some() {
        match relocations(in_data) {
            Ok(Some(v)) => v,
            _ => return Err(RebuildError::Malformed),
        }
    } else {
        Vec::new()
    };
    assert(relocs@ == rebuild_relocs(s));
    let mut out_data: Vec<u8> = Vec::new();
    match write_rebuilt(in_data, &summary, nt_offset, &headers, &copied, rich, reloc_dir, cert_dir, &relocs, &mut out_data) {
        Ok(()) => Ok(out_data),
        Err(e) => Err(e),
    }
}

/// Why the client could not be patched.
#[derive(Clone, Copy, Debug, PartialEq, Eq, Structural)]
pub enum PatchRspsError {
    /// The image could not be rebuilt with the `.rsps` section.
    Rebuild(RebuildError),
    /// The `jav_config` location could not be redirected.
    JavConfig(PatchError),
    /// The world list location could not be redirected.
    WorldList(PatchError),
    /// The whitelisted address could not be redirected.
    Whitelist(PatchError),
}

/// The three string redirections of the patch, in order, on the image `d`.
pub open spec fn spec_redirect_client_strings(d: Seq<u8>) -> Result<Seq<u8>, PatchRspsError> {
    match spec_replace_client_string(d, ORIGINAL_JAV_CONFIG_URL.spec_bytes(), JAV_CONFIG_URL.spec_bytes()) {
        Err(e) => Err(PatchRspsError::JavConfig(e)),
        Ok(d1) => match spec_replace_client_string(d1, ORIGINAL_WORLD_LIST_URL.spec_bytes(), WORLD_LIST_URL.spec_bytes()) {
            Err(e) => Err(PatchRspsError::WorldList(e)),
            Ok(d2) => match spec_replace_client_string(d2, ORIGINAL_WHITELIST.spec_bytes(), WHITELIST_DOMAIN.spec_bytes()) {
                Err(e) => Err(PatchRspsError::Whitelist(e)),
                Ok(d3) => Ok(d3),
            },
        },
    }
}

/// Redirects the `jav_config` location, then the world list location, then the
/// whitelisted address, to the strings in `.rsps`. Each step that fails stops
/// the patch and leaves the image as the earlier steps made it.
pub fn redirect_client_strings(osclient: &mut Vec<u8>) -> (r: Result<(), PatchRspsError>)
    ensures
        match spec_redirect_client_strings(old(osclient)@) {
            Ok(d) => r is Ok && final(osclient)@ == d,
            Err(e) => r == Err::<(), PatchRspsError>(e),
        },
{
    if let Err(e) = try_replace_client_string(osclient, ORIGINAL_JAV_CONFIG_URL.as_bytes(), JAV_CONFIG_URL.as_bytes()) {
        return Err(PatchRspsError::JavConfig(e));
    }
    if let Err(e) = try_replace_client_string(osclient, ORIGINAL_WORLD_LIST_URL.as_bytes(), WORLD_LIST_URL.as_bytes()) {
        return Err(PatchRspsError::WorldList(e));
    }
    if let Err(e) = try_replace_client_string(osclient, ORIGINAL_WHITELIST.as_bytes(), WHITELIST_DOMAIN.as_bytes()) {
        return Err(PatchRspsError::Whitelist(e));
    }
    Ok(())
}


/// Patches a client executable to talk to this server: rebuilds it with the
/// `.rsps` section, then redirects its `jav_config`, world list and whitelist
/// strings to the ones in that section. Where the rebuild fails the image is
/// left as it was and the rebuild's error returned; otherwise the image becomes
/// the rebuilt one with the three redirections made, which the caller must
/// make sure succeed on it (the redirections are not allowed to fail).
/// (`base` is not used.)
#[verifier::rlimit(30)]
pub fn patch_rsps(osclient: &mut Vec<u8>, base: usize) -> (r: Result<(), PatchRspsError>)
    requires
        spec_rebuild_outcome(old(osclient)@) is Ok ==> spec_redirect_client_strings(rebuilt_image(old(osclient)@)) is Ok,
    ensures
        match spec_rebuild_outcome(old(osclient)@) {
            Err(e) => r == Err::<(), PatchRspsError>(PatchRspsError::Rebuild(e)) && final(osclient)@ == old(osclient)@,
            Ok(()) => r is Ok && rebuilt_from(old(osclient)@, rebuilt_image(old(osclient)@))
                && final(osclient)@ == spec_redirect_client_strings(rebuilt_image(old(osclient)@))->Ok_0,
        },
{
    let rebuilt = match create_rsps_section(osclient.as_slice()) {
        Ok(d) => d,
        Err(e) => return Err(PatchRspsError::Rebuild(e)),
    };
    *osclient = rebuilt;
    redirect_client_strings(osclient)
}

/// The checked form of `patch_rsps`: rebuilds the image, and makes the three
/// redirections on the rebuilt image only where all of them succeed. Where the
/// rebuild fails, its error; where a redirection fails, that redirection's
/// error; in both cases the image is left as it was.
#[verifier::rlimit(30)]
pub fn try_patch_rsps(osclient: &mut Vec<u8>, base: usize) -> (r: Result<(), PatchRspsError>)
    ensures
        match spec_rebuild_outcome(old(osclient)@) {
            Err(e) => r == Err::<(), PatchRspsError>(PatchRspsError::Rebuild(e)) && final(osclient)@ == old(osclient)@,
            Ok(()) => match spec_redirect_client_strings(rebuilt_image(old(osclient)@)) {
                Ok(d) => r is Ok && final(osclient)@ == d,
                Err(e) => r == Err::<(), PatchRspsError>(e) && final(osclient)@ == old(osclient)@,
            },
        },
{
    let mut trial = match create_rsps_section(osclient.as_slice()) {
        Ok(d) => d,
        Err(e) => return Err(PatchRspsError::Rebuild(e)),
    };
    if let Err(e) = redirect_client_strings(&mut trial) {
        return Err(e);
    }
    patch_rsps(osclient, base)
}

/// What the patch points the client at: where the three redirections succeed
/// on an image, each replacement string (the `jav_config` URL, the world list
/// URL, the whitelisted domain) was found in the `.rsps` section of the image
/// that its step patched, at the address that step redirected to: it occurs
/// in that section's file bytes at the offset the address maps to.
pub proof fn law_redirections_target_rsps_strings(t: Seq<u8>)
    requires
        spec_redirect_client_strings(t) is Ok,
    ensures
        ({
            let d1 = spec_replace_client_string(t, ORIGINAL_JAV_CONFIG_URL.spec_bytes(), JAV_CONFIG_URL.spec_bytes())->Ok_0;
            let d2 = spec_replace_client_string(d1, ORIGINAL_WORLD_LIST_URL.spec_bytes(), WORLD_LIST_URL.spec_bytes())->Ok_0;
            &&& string_in_rsps(t, JAV_CONFIG_URL.spec_bytes())
            &&& string_in_rsps(d1, WORLD_LIST_URL.spec_bytes())
            &&& string_in_rsps(d2, WHITELIST_DOMAIN.spec_bytes())
        }),
{
    let d1 = spec_replace_client_string(t, ORIGINAL_JAV_CONFIG_URL.spec_bytes(), JAV_CONFIG_URL.spec_bytes())->Ok_0;
    let d2 = spec_replace_client_string(d1, ORIGINAL_WORLD_LIST_URL.spec_bytes(), WORLD_LIST_URL.spec_bytes())->Ok_0;
    law_found_string_occurs(t, ".rsps".spec_bytes(), JAV_CONFIG_URL.spec_bytes());
    law_found_string_occurs(d1, ".rsps".spec_bytes(), WORLD_LIST_URL.spec_bytes());
    law_found_string_occurs(d2, ".rsps".spec_bytes(), WHITELIST_DOMAIN.spec_bytes());
}

/// The string `x` is found in the `.rsps` section of the image `d`, and occurs
/// in that section's file bytes at the offset its address maps to.
pub open spec fn string_in_rsps(d: Seq<u8>, x: Seq<u8>) -> bool {
    spec_find_string(d, ".rsps".spec_bytes(), x) matches Ok(a) && {
        let h = spec_get_section(d, ".rsps".spec_bytes())->Ok_0;
        &&& h.virtual_address <= a < h.virtual_address + h.size_of_raw_data
        &&& matches_at(d, a - h.virtual_address + h.pointer_to_raw_data, x)
    }
}

/// The `.rsps` section carries each replacement string that the patch points
/// the client at: the `jav_config` URL at offset 0, the whitelisted domain right
/// after it, and the world list URL after that.
pub proof fn law_rsps_section_carries_replacements()
    ensures
        crate::patch::matches_at(spec_rsps_section_data(), 0, JAV_CONFIG_URL.spec_bytes()),
        crate::patch::matches_at(spec_rsps_section_data(), JAV_CONFIG_URL.spec_bytes().len() as int, WHITELIST_DOMAIN.spec_bytes()),
        crate::patch::matches_at(spec_rsps_section_data(),
            (JAV_CONFIG_URL.spec_bytes().len() + WHITELIST_DOMAIN.spec_bytes().len()) as int, WORLD_LIST_URL.spec_bytes()),
{
    let a = JAV_CONFIG_URL.spec_bytes();
    let b = WHITELIST_DOMAIN.spec_bytes();
    let c = WORLD_LIST_URL.spec_bytes();
    let d = spec_rsps_section_data();
    let (la, lb, lc) = (a.len() as int, b.len() as int, c.len() as int);
    assert(d.subrange(0, la) =~= a);
    assert(d.subrange(la, la + lb) =~= b);
    assert(d.subrange(la + lb, la + lb + lc) =~= c);
}

/// The sections of `hs` other than the one whose range is the base relocation
/// table `rd`, in table order.
proof fn lemma_copied_are_the_others(hs: Seq<SectionView>, rd: Option<(u32, u32)>, n: int)
    requires
        0 <= n <= hs.len(),
    ensures
        ({
            let kept = hs.take(n).filter(|h: SectionView| rd != Some((h.virtual_address, h.virtual_size)));
            &&& copied_indices(hs, rd, n).len() == kept.len()
            &&& forall|k: int| 0 <= k < kept.len() ==> #[trigger] kept[k] == hs[copied_indices(hs, rd, n)[k]]
        }),
    decreases n,
{
    let pred = |h: SectionView| rd != Some((h.virtual_address, h.virtual_size));
    reveal(Seq::filter);
    if n == 0 {
        assert(hs.take(0).len() == 0);
    } else {
        lemma_copied_are_the_others(hs, rd, n - 1);
        assert(hs.take(n).drop_last() =~= hs.take(n - 1));
        assert(hs.take(n).last() == hs[n - 1]);
    }
}

/// The rebuild keeps every section but the old relocation table: the sections
/// of the rebuilt image are those of the input whose (address, virtual size)
/// is not the base relocation directory's range, in order, with the same
/// headers and file data, then `.rsps`, then `.reloc` where the input has a
/// relocation table.
pub proof fn law_rebuild_keeps_every_other_section(s: Seq<u8>, t: Seq<u8>)
    requires
        rebuilt_from(s, t),
    ensures
        ({
            let rd = spec_reloc_dir(s);
            let kept = input_sections(s).filter(|h: SectionView| rd != Some((h.virtual_address, h.virtual_size)));
            let ts = pe_sections(t).unwrap();
            &&& pe_sections(t) is Some
            &&& ts.len() == kept.len() + 1 + (if rd is Some { 1int } else { 0int })
            &&& ts.take(kept.len() as int) == kept
            &&& forall|k: int| 0 <= k < kept.len() ==> same_section_data(s, t, #[trigger] kept[k], image_file_alignment(s))
            &&& ts[kept.len() as int].name == spec_rsps_section_name()
        }),
{
    reveal(rebuilt_from);
    let hs = input_sections(s);
    let rd = spec_reloc_dir(s);
    lemma_copied_are_the_others(hs, rd, hs.len() as int);
    assert(hs.take(hs.len() as int) =~= hs);
    let kept = hs.filter(|h: SectionView| rd != Some((h.virtual_address, h.virtual_size)));
    let ci = copied_of(s);
    let ts = pe_sections(t).unwrap();
    assert forall|k: int| 0 <= k < kept.len() implies same_section_data(s, t, #[trigger] kept[k], image_file_alignment(s)) by {
        assert(ts[k] == hs[ci[k]] && same_section_data(s, t, hs[ci[k]], image_file_alignment(s)));
    }
    assert(ts.take(kept.len() as int) =~= kept) by {
        assert forall|k: int| 0 <= k < kept.len() implies ts.take(kept.len() as int)[k] == kept[k] by {
            assert(ts[k] == hs[ci[k]]);
        }
    }
}

} // verus!
