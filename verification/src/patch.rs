//! Finding sections and strings in a 64-bit client executable, and pointing
//! the code that loads a string at another string.

use vstd::prelude::*;
use vstd::string::StringSliceAdditionalSpecFns;
use vstd::utf8::valid_utf8;
use crate::bytes::{le_u32, u32_le_bytes, splice, read_u32_le, write_u32_le};
use crate::pe::{
    SectionHeader, SectionView, pe_sections, dos_nt_headers_offset, parse_nt_headers64,
    read_section_headers,
};

verus! {

/// Why a section could not be looked up by name.
#[derive(Clone, Copy, Debug, PartialEq, Eq, Structural)]
pub enum LookupError {
    /// The DOS header, the NT headers or the section table is malformed.
    Malformed,
    /// A section name before the wanted one holds no NUL byte.
    UnterminatedName,
    /// A section name before the wanted one is not valid UTF-8.
    InvalidName,
    /// No section has the wanted name.
    NotFound,
}

/// Why a string could not be found in a section.
#[derive(Clone, Copy, Debug, PartialEq, Eq, Structural)]
pub enum FindError {
    /// The section could not be looked up.
    Section(LookupError),
    /// A partial match ran past the end of the image.
    OutOfBounds,
    /// No match starts inside the section.
    NotFound,
}

/// The name has a NUL byte.
pub open spec fn has_nul(name: Seq<u8>) -> bool {
    exists|k: int| 0 <= k < name.len() && name[k] == 0
}

/// `k` is the position of the first NUL byte of `name`.
pub open spec fn is_first_nul(name: Seq<u8>, k: int) -> bool {
    0 <= k < name.len() && name[k] == 0 && forall|j: int| 0 <= j < k ==> name[j] != 0
}

/// The bytes of `name` before its first NUL byte.
pub open spec fn c_name(name: Seq<u8>) -> Seq<u8> {
    name.take(choose|k: int| is_first_nul(name, k))
}

/// Looks the wanted name up in a section table, in table order. Each name is
/// read up to its first NUL; a name without one, or one that is not UTF-8,
/// ends the search with an error.
pub open spec fn lookup_section(hs: Seq<SectionView>, wanted: Seq<u8>) -> Result<SectionView, LookupError>
    decreases hs.len(),
{
    if hs.len() == 0 {
        Err(LookupError::NotFound)
    } else if !has_nul(hs[0].name) {
        Err(LookupError::UnterminatedName)
    } else if !valid_utf8(c_name(hs[0].name)) {
        Err(LookupError::InvalidName)
    } else if c_name(hs[0].name) == wanted {
        Ok(hs[0])
    } else {
        lookup_section(hs.drop_first(), wanted)
    }
}

/// The section named `wanted` of the image `data`.
pub open spec fn spec_get_section(data: Seq<u8>, wanted: Seq<u8>) -> Result<SectionView, LookupError> {
    match pe_sections(data) {
        None => Err(LookupError::Malformed),
        Some(hs) => lookup_section(hs, wanted),
    }
}

/// `core::str::from_utf8`, of which only success is used: it succeeds exactly
/// when the bytes are valid UTF-8.
#[verifier::external_body]
fn is_utf8(bytes: &[u8]) -> (r: bool)
    ensures
        r == valid_utf8(bytes@),
{
    core::str::from_utf8(bytes).is_ok()
}

/// Position of the first NUL byte of a section name, if it has one.
fn first_nul(name: &[u8; 8]) -> (r: Option<usize>)
    ensures
        r is None <==> !has_nul(name@),
        r matches Some(k) ==> is_first_nul(name@, k as int) && name@.take(k as int) == c_name(name@),
{
    let mut k: usize = 0;
    while k < 8
        invariant
            k <= 8,
            name@.len() == 8,
            forall|j: int| 0 <= j < k ==> name@[j] != 0,
        decreases 8 - k,
    {
        if name[k] == 0 {
            assert(is_first_nul(name@, k as int));
            let ghost c = choose|c: int| is_first_nul(name@, c);
            assert(c == k) by {
                if c < k {
                    assert(name@[c] != 0);
                } else if c > k {
                    assert(name@[k as int] != 0);
                }
            }
            return Some(k);
        }
        k = k + 1;
    }
    None
}

/// Whether two byte strings are equal.
fn bytes_equal(a: &[u8], b: &[u8]) -> (r: bool)
    ensures
        r == (a@ == b@),
{
    if a.len() != b.len() {
        return false;
    }
    let mut i: usize = 0;
    while i < a.len()
        invariant
            i <= a@.len(),
            a@.len() == b@.len(),
            forall|j: int| 0 <= j < i ==> a@[j] == b@[j],
        decreases a@.len() - i,
    {
        if a[i] != b[i] {
            return false;
        }
        i = i + 1;
    }
    assert(a@ =~= b@);
    true
}

/// The first `k` bytes of a section name.
fn name_prefix(name: &[u8; 8], k: usize) -> (r: Vec<u8>)
    requires
        k <= 8,
    ensures
        r@ == name@.take(k as int),
{
    let mut r: Vec<u8> = Vec::new();
    let mut i: usize = 0;
    while i < k
        invariant
            i <= k <= 8,
            name@.len() == 8,
            r@ == name@.take(i as int),
        decreases k - i,
    {
        r.push(name[i]);
        i = i + 1;
        assert(r@ =~= name@.take(i as int));
    }
    r
}

/// Finds the header of the section named `section` in a 64-bit PE image.
pub fn get_section_by_name(osclient: &Vec<u8>, section: &str) -> (r: Result<SectionHeader, LookupError>)
    ensures
        match r {
            Ok(h) => spec_get_section(osclient@, section.spec_bytes()) == Ok::<SectionView, LookupError>(h@),
            Err(e) => spec_get_section(osclient@, section.spec_bytes()) == Err::<SectionView, LookupError>(e),
        },
{
    let data = osclient.as_slice();
    let nt_offset = match dos_nt_headers_offset(data) {
        Ok(o) => o,
        Err(_) => return Err(LookupError::Malformed),
    };
    let summary = match parse_nt_headers64(data, nt_offset) {
        Ok((_, _, s)) => s,
        Err(_) => return Err(LookupError::Malformed),
    };
    let headers = match read_section_headers(data, summary.section_table_offset, summary.number_of_sections) {
        Ok(hs) => hs,
        Err(_) => return Err(LookupError::Malformed),
    };
    let wanted = section.as_bytes();
    let ghost views = pe_sections(data@).unwrap();
    assert(views.len() == headers@.len());
    assert(forall|i: int| 0 <= i < views.len() ==> views[i] == (#[trigger] headers@[i])@);
    assert(views.skip(0) =~= views);
    let mut i: usize = 0;
    while i < headers.len()
        invariant
            i <= headers@.len(),
            wanted@ == section.spec_bytes(),
            views.len() == headers@.len(),
            forall|j: int| 0 <= j < views.len() ==> views[j] == (#[trigger] headers@[j])@,
            pe_sections(osclient@) == Some(views),
            lookup_section(views, wanted@) == lookup_section(views.skip(i as int), wanted@),
        decreases headers@.len() - i,
    {
        let h = headers[i];
        let ghost rest = views.skip(i as int);
        assert(rest[0] == h@);
        assert(rest.drop_first() =~= views.skip(i + 1));
        assert(rest.len() > 0);
        let k = match first_nul(&h.name) {
            Some(k) => k,
            None => {
                assert(lookup_section(rest, wanted@) == Err::<SectionView, LookupError>(LookupError::UnterminatedName));
                return Err(LookupError::UnterminatedName);
            },
        };
        let name = name_prefix(&h.name, k);
        if !is_utf8(name.as_slice()) {
            assert(lookup_section(rest, wanted@) == Err::<SectionView, LookupError>(LookupError::InvalidName));
            return Err(LookupError::InvalidName);
        }
        if bytes_equal(name.as_slice(), wanted) {
            assert(lookup_section(rest, wanted@) == Ok::<SectionView, LookupError>(h@));
            return Ok(h);
        }
        assert(lookup_section(rest, wanted@) == lookup_section(rest.drop_first(), wanted@));
        i = i + 1;
    }
    assert(views.skip(i as int).len() == 0);
    Err(LookupError::NotFound)
}

/// The needle occurs in `data` at `s`.
pub open spec fn matches_at(data: Seq<u8>, s: int, needle: Seq<u8>) -> bool {
    0 <= s && s + needle.len() <= data.len() && data.subrange(s, s + needle.len()) == needle
}

/// The first `m` bytes of the needle occur in `data` at `s`.
pub open spec fn prefix_matches(data: Seq<u8>, s: int, needle: Seq<u8>, m: int) -> bool {
    forall|t: int| s <= t < s + m ==> t < data.len() && #[trigger] data[t] == needle[t - s]
}

/// Comparing the needle with `data` at `s` byte by byte runs past the end of
/// `data` before a byte differs or the needle ends.
pub open spec fn scan_overruns(data: Seq<u8>, s: int, needle: Seq<u8>) -> bool {
    exists|m: int| 0 <= m < needle.len() && s + m >= data.len() && #[trigger] prefix_matches(data, s, needle, m)
}

/// The first position in `[s, end)` at which the needle occurs, where the
/// byte-by-byte comparison at each earlier position stays inside `data`. An
/// empty needle occurs nowhere.
pub open spec fn scan_for(data: Seq<u8>, needle: Seq<u8>, s: int, end: int) -> Result<int, FindError>
    decreases end - s,
{
    if s >= end {
        Err(FindError::NotFound)
    } else if needle.len() > 0 && scan_overruns(data, s, needle) {
        Err(FindError::OutOfBounds)
    } else if needle.len() > 0 && matches_at(data, s, needle) {
        Ok(s)
    } else {
        scan_for(data, needle, s + 1, end)
    }
}

/// The virtual address of the first occurrence of `needle` that starts in the
/// file bytes of section `section` of the image `data`.
pub open spec fn spec_find_string(data: Seq<u8>, section: Seq<u8>, needle: Seq<u8>) -> Result<int, FindError> {
    match spec_get_section(data, section) {
        Err(e) => Err(FindError::Section(e)),
        Ok(h) => {
            let raw = h.pointer_to_raw_data as int;
            match scan_for(data, needle, raw, raw + h.size_of_raw_data) {
                Ok(s) => Ok(s - raw + h.virtual_address),
                Err(e) => Err(e),
            }
        },
    }
}

/// Compares the needle with `data` at `s`: `Ok(true)` on a match, `Ok(false)`
/// on a differing byte, `Err` where the comparison runs past the end.
fn compare_at(data: &[u8], s: u64, needle: &[u8]) -> (r: Result<bool, FindError>)
    requires
        needle@.len() > 0,
    ensures
        r == Err::<bool, FindError>(FindError::OutOfBounds) <==> scan_overruns(data@, s as int, needle@),
        r is Err ==> r == Err::<bool, FindError>(FindError::OutOfBounds),
        r == Ok::<bool, FindError>(true) <==> matches_at(data@, s as int, needle@),
{
    let len = data.len() as u64;
    let mut k: usize = 0;
    while k < needle.len()
        invariant
            k <= needle@.len(),
            len == data@.len(),
            prefix_matches(data@, s as int, needle@, k as int),
        decreases needle@.len() - k,
    {
        if s >= len || len - s <= k as u64 {
            assert(s + k >= data@.len());
            assert(scan_overruns(data@, s as int, needle@)) by {
                assert(prefix_matches(data@, s as int, needle@, k as int));
            }
            assert(!matches_at(data@, s as int, needle@));
            return Err(FindError::OutOfBounds);
        }
        assert(s + k < len);
        let at = (s + k as u64) as usize;
        if data[at] != needle[k] {
            assert(!scan_overruns(data@, s as int, needle@)) by {
                if scan_overruns(data@, s as int, needle@) {
                    let m = choose|m: int| 0 <= m < needle@.len() && s + m >= data@.len()
                        && #[trigger] prefix_matches(data@, s as int, needle@, m);
                    if m > k {
                        assert(data@[s + k] == needle@[k as int]);
                    }
                }
            }
            assert(!matches_at(data@, s as int, needle@)) by {
                if matches_at(data@, s as int, needle@) {
                    assert(data@.subrange(s as int, s + needle@.len())[k as int] == needle@[k as int]);
                }
            }
            return Ok(false);
        }
        k = k + 1;
    }
    let ghost si = s as int;
    assert(k == needle@.len());
    assert(prefix_matches(data@, si, needle@, k as int));
    assert(prefix_matches(data@, si, needle@, needle@.len() as int));
    let ghost t = si + needle@.len() - 1;
    assert(data@[t] == needle@[t - si]);
    assert(si + needle@.len() <= data@.len());
    assert(data@.subrange(si, si + needle@.len()) =~= needle@) by {
        assert forall|j: int| 0 <= j < needle@.len() implies data@.subrange(si, si + needle@.len())[j] == needle@[j] by {
            assert(si + j < data@.len() && data@[si + j] == needle@[j]);
        }
    }
    assert(!scan_overruns(data@, s as int, needle@)) by {
        if scan_overruns(data@, s as int, needle@) {
            let m = choose|m: int| 0 <= m < needle@.len() && s + m >= data@.len()
                && #[trigger] prefix_matches(data@, s as int, needle@, m);
            assert(s + m < data@.len());
        }
    }
    Ok(true)
}

/// Finds the virtual address of the first occurrence of a byte string that
/// starts inside the file bytes of a named section.
pub fn find_string_in_client(osclient: &Vec<u8>, section: &str, input_string_bytes: &[u8])
    -> (r: Result<u64, FindError>)
    ensures
        match r {
            Ok(a) => spec_find_string(osclient@, section.spec_bytes(), input_string_bytes@) == Ok::<int, FindError>(a as int),
            Err(e) => spec_find_string(osclient@, section.spec_bytes(), input_string_bytes@) == Err::<int, FindError>(e),
        },
{
    let header = match get_section_by_name(osclient, section) {
        Ok(h) => h,
        Err(e) => return Err(FindError::Section(e)),
    };
    let raw = header.pointer_to_raw_data as u64;
    let end = raw + header.size_of_raw_data as u64;
    let va = header.virtual_address as u64;
    let ghost needle = input_string_bytes@;
    let mut i = raw;
    while i < end
        invariant
            raw <= i <= end,
            raw == header.pointer_to_raw_data,
            va == header.virtual_address,
            end == raw + header.size_of_raw_data,
            spec_get_section(osclient@, section.spec_bytes()) == Ok::<SectionView, LookupError>(header@),
            scan_for(osclient@, needle, raw as int, end as int) == scan_for(osclient@, needle, i as int, end as int),
            needle == input_string_bytes@,
        decreases end - i,
    {
        if input_string_bytes.len() > 0 {
            match compare_at(osclient.as_slice(), i, input_string_bytes) {
                Err(e) => return Err(e),
                Ok(true) => return Ok(i - raw + va),
                Ok(false) => {},
            }
        }
        i = i + 1;
    }
    Err(FindError::NotFound)
}

/// Why a string reference could not be redirected.
#[derive(Clone, Copy, Debug, PartialEq, Eq, Structural)]
pub enum PatchError {
    /// The string to replace was not found in `.rdata`.
    InputString(FindError),
    /// The replacement string was not found in `.rsps`.
    ReplaceString(FindError),
    /// The `.text` section could not be looked up.
    TextSection(LookupError),
    /// A 4-byte read in `.text` would run past the end of the image.
    OutOfBounds,
    /// An offset computation would leave the range of a 64-bit address.
    Overflow,
}

/// The address that the 32-bit relative operand at file offset `i` of a
/// section (file offset `raw`, virtual address `va`) refers to: the operand is
/// counted from the end of the 4-byte operand.
pub open spec fn reference_target(data: Seq<u8>, i: int, raw: int, va: int) -> int {
    i + 4 + le_u32(data, i) + (va - raw)
}

/// The first file offset in `[i, end)` whose 32-bit operand refers to `target`.
/// Each offset reads the four bytes at it, then needs `va >= raw`.
pub open spec fn find_reference(data: Seq<u8>, i: int, end: int, raw: int, va: int, target: int)
    -> Result<Option<int>, PatchError>
    decreases end - i,
{
    if i >= end {
        Ok(None)
    } else if i + 4 > data.len() {
        Err(PatchError::OutOfBounds)
    } else if va < raw {
        Err(PatchError::Overflow)
    } else if reference_target(data, i, raw, va) == target {
        Ok(Some(i))
    } else {
        find_reference(data, i + 1, end, raw, va, target)
    }
}

/// The length fix-ups that follow a redirected operand at `i`: for `j` from
/// `i - 1` down to `i - 30`, an operand at `j` that refers to the last byte of
/// the old string (`length_end`) is rewritten to `value + (i - j - 1)`, taken
/// modulo 2^32. Each step reads the bytes as the previous steps left them.
pub open spec fn fix_lengths(data: Seq<u8>, i: int, j: int, raw: int, va: int, length_end: int, value: int) -> Seq<u8>
    decreases j - (i - 31),
{
    if j < i - 30 {
        data
    } else {
        let d = if reference_target(data, j, raw, va) == length_end {
            splice(data, j, u32_le_bytes(((value + (i - j - 1)) % 0x1_0000_0000) as u32))
        } else {
            data
        };
        fix_lengths(d, i, j - 1, raw, va, length_end, value)
    }
}

/// Offset from the end of the operand at `i` to `replace_addr`, as stored in the
/// operand (before truncation to 32 bits).
pub open spec fn new_string_offset(i: int, raw: int, va: int, replace_addr: int) -> int {
    replace_addr - (i + 4) - va + raw
}

/// Redirects the first operand in `.text` (section `text`) that refers to
/// `input_addr` so that it refers to `replace_addr`, then fixes up the length
/// operands before it. `Ok(data)` unchanged where no operand refers to
/// `input_addr`.
pub open spec fn spec_patch_text(
    data: Seq<u8>,
    text: SectionView,
    input_addr: int,
    input_len: int,
    replace_addr: int,
    replace_len: int,
) -> Result<Seq<u8>, PatchError> {
    let raw = text.pointer_to_raw_data as int;
    let va = text.virtual_address as int;
    let end = raw + text.size_of_raw_data;
    if end < 3 {
        Err(PatchError::Overflow)
    } else {
        match find_reference(data, raw, end - 3, raw, va, input_addr) {
            Err(e) => Err(e),
            Ok(None) => Ok(data),
            Ok(Some(i)) => {
                if replace_addr < i + 4 || replace_addr - (i + 4) < va || i < 30 || input_addr + input_len < 1 {
                    Err(PatchError::Overflow)
                } else {
                    let off = new_string_offset(i, raw, va, replace_addr);
                    let d1 = splice(data, i, u32_le_bytes((off % 0x1_0000_0000) as u32));
                    Ok(fix_lengths(d1, i, i - 1, raw, va, input_addr + input_len - 1, off + replace_len))
                }
            },
        }
    }
}

/// Scans `[i, end)` for the first operand that refers to `target`.
fn scan_references(data: &[u8], start: u64, end: u64, raw: u64, va: u64, target: u64) -> (r: Result<Option<u64>, PatchError>)
    requires
        raw <= start,
        end <= 0x1_0000_0000 * 3,
        raw < 0x1_0000_0000,
        va < 0x1_0000_0000,
    ensures
        match r {
            Ok(Some(i)) => find_reference(data@, start as int, end as int, raw as int, va as int, target as int)
                == Ok::<Option<int>, PatchError>(Some(i as int)),
            Ok(None) => find_reference(data@, start as int, end as int, raw as int, va as int, target as int)
                == Ok::<Option<int>, PatchError>(None),
            Err(e) => find_reference(data@, start as int, end as int, raw as int, va as int, target as int)
                == Err::<Option<int>, PatchError>(e),
        },
        r matches Ok(Some(i)) ==> start <= i < end && i + 4 <= data@.len() && raw <= va,
{
    let ulen = data.len();
    let len = ulen as u64;
    let mut i = start;
    while i < end
        invariant
            start <= i,
            data@.len() <= usize::MAX,
            raw <= start,
            end <= 0x1_0000_0000 * 3,
            raw < 0x1_0000_0000,
            va < 0x1_0000_0000,
            len == data@.len(),
            find_reference(data@, start as int, end as int, raw as int, va as int, target as int)
                == find_reference(data@, i as int, end as int, raw as int, va as int, target as int),
        decreases end - i,
    {
        if i >= len || len - i < 4 {
            return Err(PatchError::OutOfBounds);
        }
        if va < raw {
            return Err(PatchError::Overflow);
        }
        assert(i < data@.len());
        let operand = read_u32_le(data, i as usize) as u64;
        assert(operand == le_u32(data@, i as int));
        if i + 4 + operand + (va - raw) == target {
            return Ok(Some(i));
        }
        i = i + 1;
    }
    Ok(None)
}

/// Redirects the operand that refers to `input_addr` (see `spec_patch_text`).
/// On an error the image is left as it was.
fn patch_text_reference(
    data: &mut Vec<u8>,
    text: SectionHeader,
    input_addr: u64,
    input_len: u64,
    replace_addr: u64,
    replace_len: u64,
) -> (r: Result<(), PatchError>)
    requires
        input_addr < 0x1_0000_0000_0000,
        replace_addr < 0x1_0000_0000_0000,
    ensures
        match spec_patch_text(old(data)@, text@, input_addr as int, input_len as int, replace_addr as int, replace_len as int) {
            Ok(d) => r is Ok && final(data)@ == d,
            Err(e) => r == Err::<(), PatchError>(e) && final(data)@ == old(data)@,
        },
{
    let raw = text.pointer_to_raw_data as u64;
    let va = text.virtual_address as u64;
    let end = raw + text.size_of_raw_data as u64;
    if end < 3 {
        return Err(PatchError::Overflow);
    }
    let i = match scan_references(data.as_slice(), raw, end - 3, raw, va, input_addr) {
        Err(e) => return Err(e),
        Ok(None) => return Ok(()),
        Ok(Some(i)) => i,
    };
    if replace_addr < i + 4 || replace_addr - (i + 4) < va || i < 30 || (input_addr == 0 && input_len == 0) {
        return Err(PatchError::Overflow);
    }
    let new_offset = replace_addr - (i + 4) - va + raw;
    let length_end = input_addr as u128 + input_len as u128 - 1;
    let ghost d0 = data@;
    assert(data@.len() == data.len());
    write_u32_le(data, i as usize, (new_offset % 0x1_0000_0000) as u32);
    let ghost d1 = data@;
    let mut k: u64 = 0;
    while k < 30
        invariant
            k <= 30,
            30 <= i,
            i < 0x1_0000_0000 * 3,
            raw <= va,
            i + 4 <= data@.len(),
            data@.len() <= usize::MAX,
            data@.len() == d0.len(),
            raw < 0x1_0000_0000,
            va < 0x1_0000_0000,
            new_offset < 0x1_0000_0000_0000,
            fix_lengths(d1, i as int, i - 1, raw as int, va as int, length_end as int, new_offset + replace_len)
                == fix_lengths(data@, i as int, i - 1 - k, raw as int, va as int, length_end as int, new_offset + replace_len),
        decreases 30 - k,
    {
        let j = i - 1 - k;
        assert(j < data@.len());
        let operand = read_u32_le(data.as_slice(), j as usize) as u64;
        assert(operand == le_u32(data@, j as int));
        if (j + 4 + operand + (va - raw)) as u128 == length_end {
            let value = new_offset as u128 + replace_len as u128 + (i - j - 1) as u128;
            write_u32_le(data, j as usize, (value % 0x1_0000_0000) as u32);
            assert(data@.len() == d0.len());
        }
        k = k + 1;
    }
    assert(fix_lengths(data@, i as int, i - 31, raw as int, va as int, length_end as int, new_offset + replace_len) == data@);
    Ok(())
}

/// `replace_client_string` on the image `data`: the string `input` found in
/// `.rdata` is replaced, in the first `.text` operand that refers to it, by the
/// string `replace` found in `.rsps`.
pub open spec fn spec_replace_client_string(data: Seq<u8>, input: Seq<u8>, replace: Seq<u8>) -> Result<Seq<u8>, PatchError> {
    match spec_find_string(data, ".rdata".spec_bytes(), input) {
        Err(e) => Err(PatchError::InputString(e)),
        Ok(input_addr) => match spec_find_string(data, ".rsps".spec_bytes(), replace) {
            Err(e) => Err(PatchError::ReplaceString(e)),
            Ok(replace_addr) => match spec_get_section(data, ".text".spec_bytes()) {
                Err(e) => Err(PatchError::TextSection(e)),
                Ok(text) => spec_patch_text(data, text, input_addr, input.len() as int, replace_addr, replace.len() as int),
            },
        },
    }
}

/// A string found by `scan_for` starts inside the scanned range.
proof fn lemma_scan_for_range(data: Seq<u8>, needle: Seq<u8>, s: int, end: int)
    ensures
        scan_for(data, needle, s, end) matches Ok(p) ==> s <= p < end,
    decreases end - s,
{
    if s < end {
        lemma_scan_for_range(data, needle, s + 1, end);
    }
}

/// A found string has a virtual address below 2^33.
proof fn lemma_find_string_bound(data: Seq<u8>, section: Seq<u8>, needle: Seq<u8>)
    ensures
        spec_find_string(data, section, needle) matches Ok(a) ==> 0 <= a < 0x2_0000_0000,
{
    if let Ok(h) = spec_get_section(data, section) {
        let raw = h.pointer_to_raw_data as int;
        lemma_scan_for_range(data, needle, raw, raw + h.size_of_raw_data);
    }
}

/// Redirects the code in `.text` that loads the string `input_string_bytes`
/// (found in `.rdata`) to the string `replace_string_bytes` (found in `.rsps`),
/// and fixes up the string length operands just before it. Both strings must be
/// found (see `try_replace_client_string` for the checked form). Where no
/// `.text` operand refers to the string the image is left as it was; on an
/// error too.
pub fn replace_client_string(
    osclient: &mut Vec<u8>,
    input_string_bytes: &[u8],
    replace_string_bytes: &[u8],
) -> (r: Result<(), PatchError>)
    requires
        spec_find_string(old(osclient)@, ".rdata".spec_bytes(), input_string_bytes@) is Ok,
        spec_find_string(old(osclient)@, ".rsps".spec_bytes(), replace_string_bytes@) is Ok,
    ensures
        match spec_replace_client_string(old(osclient)@, input_string_bytes@, replace_string_bytes@) {
            Ok(d) => r is Ok && final(osclient)@ == d,
            Err(e) => r == Err::<(), PatchError>(e) && final(osclient)@ == old(osclient)@,
        },
{
    try_replace_client_string(osclient, input_string_bytes, replace_string_bytes)
}

/// `replace_client_string` for any pair of strings: where either string is not
/// found (`InputString`, `ReplaceString`) or the redirection fails, the error,
/// with the image left as it was.
pub fn try_replace_client_string(
    osclient: &mut Vec<u8>,
    input_string_bytes: &[u8],
    replace_string_bytes: &[u8],
) -> (r: Result<(), PatchError>)
    ensures
        match spec_replace_client_string(old(osclient)@, input_string_bytes@, replace_string_bytes@) {
            Ok(d) => r is Ok && final(osclient)@ == d,
            Err(e) => r == Err::<(), PatchError>(e) && final(osclient)@ == old(osclient)@,
        },
{
    proof {
        lemma_find_string_bound(osclient@, ".rdata".spec_bytes(), input_string_bytes@);
        lemma_find_string_bound(osclient@, ".rsps".spec_bytes(), replace_string_bytes@);
    }
    let input_string_addr = match find_string_in_client(osclient, ".rdata", input_string_bytes) {
        Ok(a) => a,
        Err(e) => return Err(PatchError::InputString(e)),
    };
    let replace_string_addr = match find_string_in_client(osclient, ".rsps", replace_string_bytes) {
        Ok(a) => a,
        Err(e) => return Err(PatchError::ReplaceString(e)),
    };
    let text = match get_section_by_name(osclient, ".text") {
        Ok(h) => h,
        Err(e) => return Err(PatchError::TextSection(e)),
    };
    patch_text_reference(
        osclient,
        text,
        input_string_addr,
        input_string_bytes.len() as u64,
        replace_string_addr,
        replace_string_bytes.len() as u64,
    )
}

} // verus!
