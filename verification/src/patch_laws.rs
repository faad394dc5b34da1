//! What the patcher promises: a found section carries the wanted name, a found
//! string occurs where its address says, and a redirected operand refers to the
//! replacement while the rest of the image stays as it was.

use vstd::prelude::*;
use crate::bytes::{le_u32, u32_le_bytes, splice, lemma_u32_le_roundtrip};
use crate::pe::SectionView;
use crate::pe::pe_sections;
use crate::patch::{
    lookup_section, spec_get_section, c_name, spec_find_string, scan_for, matches_at, has_nul, scan_overruns,
    prefix_matches, find_reference, fix_lengths, reference_target, new_string_offset, spec_patch_text,
};
use vstd::utf8::valid_utf8;

verus! {

proof fn lemma_lookup_found(hs: Seq<SectionView>, wanted: Seq<u8>)
    ensures
        lookup_section(hs, wanted) matches Ok(h) ==> c_name(h.name) == wanted && hs.contains(h),
    decreases hs.len(),
{
    if hs.len() > 0 {
        lemma_lookup_found(hs.drop_first(), wanted);
        if let Ok(h) = lookup_section(hs.drop_first(), wanted) {
            if lookup_section(hs, wanted) == Ok::<SectionView, crate::patch::LookupError>(h) && hs[0] != h {
                let k = choose|k: int| 0 <= k < hs.drop_first().len() && hs.drop_first()[k] == h;
                assert(hs[k + 1] == h);
            }
        }
    }
}

/// A section that `get_section_by_name` finds is one of the image's sections,
/// and its name, read up to its first NUL byte, is the wanted name.
pub proof fn law_found_section_has_wanted_name(data: Seq<u8>, wanted: Seq<u8>)
    ensures
        spec_get_section(data, wanted) matches Ok(h) ==> {
            &&& c_name(h.name) == wanted
            &&& crate::pe::pe_sections(data).unwrap().contains(h)
        },
{
    if let Some(hs) = crate::pe::pe_sections(data) {
        lemma_lookup_found(hs, wanted);
    }
}

proof fn lemma_scan_found(data: Seq<u8>, needle: Seq<u8>, s: int, end: int)
    ensures
        scan_for(data, needle, s, end) matches Ok(p) ==> s <= p < end && matches_at(data, p, needle)
            && needle.len() > 0
            && forall|q: int| s <= q < p ==> !matches_at(data, q, needle),
    decreases end - s,
{
    if s < end {
        lemma_scan_found(data, needle, s + 1, end);
    }
}

/// A string that `find_string_in_client` finds in a section occurs in the image
/// at the file offset that its address maps to (address less the section's
/// virtual address, plus its file offset); the address lies in the section's
/// file bytes; no earlier position of the section holds the string.
pub proof fn law_found_string_occurs(data: Seq<u8>, section: Seq<u8>, needle: Seq<u8>)
    ensures
        spec_find_string(data, section, needle) matches Ok(a) ==> {
            let h = spec_get_section(data, section)->Ok_0;
            let at = a - h.virtual_address + h.pointer_to_raw_data;
            &&& spec_get_section(data, section) is Ok
            &&& h.virtual_address <= a < h.virtual_address + h.size_of_raw_data
            &&& matches_at(data, at, needle)
            &&& forall|q: int| h.pointer_to_raw_data <= q < at ==> !matches_at(data, q, needle)
        },
{
    if let Ok(h) = spec_get_section(data, section) {
        let raw = h.pointer_to_raw_data as int;
        lemma_scan_found(data, needle, raw, raw + h.size_of_raw_data);
    }
}

proof fn lemma_find_reference_found(data: Seq<u8>, i: int, end: int, raw: int, va: int, target: int)
    ensures
        find_reference(data, i, end, raw, va, target) matches Ok(Some(p)) ==>
            i <= p < end && p + 4 <= data.len() && raw <= va && reference_target(data, p, raw, va) == target
            && forall|q: int| i <= q < p ==> #[trigger] reference_target(data, q, raw, va) != target,
    decreases end - i,
{
    if i < end {
        lemma_find_reference_found(data, i + 1, end, raw, va, target);
    }
}

/// The length fix-ups keep the image length and change no byte before `i - 30`
/// nor from `j + 4` on.
proof fn lemma_fix_lengths_frame(d: Seq<u8>, i: int, j: int, raw: int, va: int, length_end: int, value: int)
    requires
        i - 31 <= j < i,
        30 <= i,
        i + 4 <= d.len(),
    ensures
        fix_lengths(d, i, j, raw, va, length_end, value).len() == d.len(),
        forall|t: int| 0 <= t < d.len() && (t < i - 30 || t >= j + 4) ==>
            #[trigger] fix_lengths(d, i, j, raw, va, length_end, value)[t] == d[t],
    decreases j - (i - 31),
{
    if j >= i - 30 {
        let e = if reference_target(d, j, raw, va) == length_end {
            splice(d, j, u32_le_bytes(((value + (i - j - 1)) % 0x1_0000_0000) as u32))
        } else {
            d
        };
        lemma_u32_le_roundtrip(((value + (i - j - 1)) % 0x1_0000_0000) as u32);
        assert(e.len() == d.len());
        assert(forall|t: int| 0 <= t < d.len() && (t < j || t >= j + 4) ==> e[t] == d[t]);
        lemma_fix_lengths_frame(e, i, j - 1, raw, va, length_end, value);
    }
}

/// No length fix-up fires on the three operands that overlap the redirected one.
pub open spec fn no_overlapping_fixup(d1: Seq<u8>, i: int, raw: int, va: int, length_end: int) -> bool {
    forall|j: int| i - 3 <= j < i ==> reference_target(d1, j, raw, va) != length_end
}

/// The image as it is after the operand at `i` was redirected, before the
/// length fix-ups.
pub open spec fn redirected(data: Seq<u8>, i: int, raw: int, va: int, replace_addr: int) -> Seq<u8> {
    splice(data, i, u32_le_bytes((new_string_offset(i, raw, va, replace_addr) % 0x1_0000_0000) as u32))
}

/// Redirecting a string reference: where `replace_client_string` finds an
/// operand in `.text` that refers to the old string, the patched image keeps its
/// length and every byte outside the 30 bytes before the operand and the operand
/// itself; and where the new offset fits in 32 bits and no length fix-up lands
/// on the operand, the operand now refers to the replacement string.
pub proof fn law_redirected_operand_refers_to_replacement(
    data: Seq<u8>,
    text: SectionView,
    input_addr: int,
    input_len: int,
    replace_addr: int,
    replace_len: int,
    i: int,
)
    requires
        text.pointer_to_raw_data + text.size_of_raw_data >= 3,
        find_reference(data, text.pointer_to_raw_data as int,
            text.pointer_to_raw_data + text.size_of_raw_data - 3,
            text.pointer_to_raw_data as int, text.virtual_address as int, input_addr) == Ok::<Option<int>, crate::patch::PatchError>(Some(i)),
        spec_patch_text(data, text, input_addr, input_len, replace_addr, replace_len) is Ok,
    ensures
        ({
            let out = spec_patch_text(data, text, input_addr, input_len, replace_addr, replace_len)->Ok_0;
            let raw = text.pointer_to_raw_data as int;
            let va = text.virtual_address as int;
            &&& out.len() == data.len()
            &&& forall|t: int| 0 <= t < data.len() && (t < i - 30 || t >= i + 4) ==> #[trigger] out[t] == data[t]
            &&& (new_string_offset(i, raw, va, replace_addr) < 0x1_0000_0000
                && no_overlapping_fixup(redirected(data, i, raw, va, replace_addr), i, raw, va, input_addr + input_len - 1))
                ==> reference_target(out, i, raw, va) == replace_addr
        }),
{
    let raw = text.pointer_to_raw_data as int;
    let va = text.virtual_address as int;
    let le = input_addr + input_len - 1;
    let off = new_string_offset(i, raw, va, replace_addr);
    let value = off + replace_len;
    lemma_find_reference_found(data, raw, raw + text.size_of_raw_data - 3, raw, va, input_addr);
    let d1 = redirected(data, i, raw, va, replace_addr);
    let out = spec_patch_text(data, text, input_addr, input_len, replace_addr, replace_len)->Ok_0;
    assert(out == fix_lengths(d1, i, i - 1, raw, va, le, value));
    lemma_u32_le_roundtrip((off % 0x1_0000_0000) as u32);
    assert(d1.len() == data.len());
    lemma_fix_lengths_frame(d1, i, i - 1, raw, va, le, value);
    assert(forall|t: int| 0 <= t < data.len() && (t < i || t >= i + 4) ==> d1[t] == data[t]);
    if off < 0x1_0000_0000 && no_overlapping_fixup(d1, i, raw, va, le) {
        assert(reference_target(d1, i - 1, raw, va) != le);
        assert(reference_target(d1, i - 2, raw, va) != le);
        assert(reference_target(d1, i - 3, raw, va) != le);
        assert(fix_lengths(d1, i, i - 1, raw, va, le, value) == fix_lengths(d1, i, i - 2, raw, va, le, value));
        assert(fix_lengths(d1, i, i - 2, raw, va, le, value) == fix_lengths(d1, i, i - 3, raw, va, le, value));
        assert(fix_lengths(d1, i, i - 3, raw, va, le, value) == fix_lengths(d1, i, i - 4, raw, va, le, value));
        lemma_fix_lengths_frame(d1, i, i - 4, raw, va, le, value);
        let b = u32_le_bytes((off % 0x1_0000_0000) as u32);
        assert(d1[i] == b[0] && d1[i + 1] == b[1] && d1[i + 2] == b[2] && d1[i + 3] == b[3]);
        assert(out[i] == d1[i] && out[i + 1] == d1[i + 1] && out[i + 2] == d1[i + 2] && out[i + 3] == d1[i + 3]);
        assert(le_u32(out, i) == le_u32(b, 0));
    }
}

/// Each redirection takes the earliest operand of `.text` that refers to the
/// old string: the operand it rewrites refers to the old string, and no operand
/// before it in `.text` does. So calls repeated on the patched image take the
/// references in turn, from the start of `.text` on.
pub proof fn law_redirects_earliest_reference(data: Seq<u8>, text: SectionView, input_addr: int, i: int)
    requires
        text.pointer_to_raw_data + text.size_of_raw_data >= 3,
        find_reference(data, text.pointer_to_raw_data as int,
            text.pointer_to_raw_data + text.size_of_raw_data - 3,
            text.pointer_to_raw_data as int, text.virtual_address as int, input_addr) == Ok::<Option<int>, crate::patch::PatchError>(Some(i)),
    ensures
        ({
            let raw = text.pointer_to_raw_data as int;
            let va = text.virtual_address as int;
            &&& raw <= i < raw + text.size_of_raw_data - 3
            &&& reference_target(data, i, raw, va) == input_addr
            &&& forall|q: int| raw <= q < i ==> #[trigger] reference_target(data, q, raw, va) != input_addr
        }),
{
    let raw = text.pointer_to_raw_data as int;
    lemma_find_reference_found(data, raw, raw + text.size_of_raw_data - 3, raw, text.virtual_address as int, input_addr);
}

proof fn lemma_lookup_first_named(hs: Seq<SectionView>, wanted: Seq<u8>, k: int)
    requires
        0 <= k < hs.len(),
        forall|j: int| 0 <= j <= k ==> has_nul(#[trigger] hs[j].name) && valid_utf8(c_name(hs[j].name)),
        forall|j: int| 0 <= j < k ==> c_name(#[trigger] hs[j].name) != wanted,
        c_name(hs[k].name) == wanted,
    ensures
        lookup_section(hs, wanted) == Ok::<SectionView, crate::patch::LookupError>(hs[k]),
    decreases k,
{
    if k > 0 {
        let t = hs.drop_first();
        assert forall|j: int| 0 <= j <= k - 1 implies has_nul(#[trigger] t[j].name) && valid_utf8(c_name(t[j].name)) by {
            assert(t[j] == hs[j + 1]);
        }
        assert forall|j: int| 0 <= j < k - 1 implies c_name(#[trigger] t[j].name) != wanted by {
            assert(t[j] == hs[j + 1]);
        }
        assert(t[k - 1] == hs[k]);
        assert(has_nul(hs[0].name) && valid_utf8(c_name(hs[0].name)) && c_name(hs[0].name) != wanted);
        lemma_lookup_first_named(t, wanted, k - 1);
    } else {
        assert(has_nul(hs[0].name) && valid_utf8(c_name(hs[0].name)));
    }
}

/// Looking a section up by name finds it wherever it stands in the table: where
/// the `k`-th section's name, read up to its first NUL, is the wanted name, no
/// earlier section's name is, and every name up to the `k`-th holds a NUL and
/// is UTF-8 before it, the lookup gives the `k`-th section.
pub proof fn law_lookup_finds_first_named_section(data: Seq<u8>, wanted: Seq<u8>, k: int)
    requires
        pe_sections(data) is Some,
        0 <= k < pe_sections(data).unwrap().len(),
        forall|j: int| 0 <= j <= k ==> has_nul(#[trigger] pe_sections(data).unwrap()[j].name)
            && valid_utf8(c_name(pe_sections(data).unwrap()[j].name)),
        forall|j: int| 0 <= j < k ==> c_name(#[trigger] pe_sections(data).unwrap()[j].name) != wanted,
        c_name(pe_sections(data).unwrap()[k].name) == wanted,
    ensures
        spec_get_section(data, wanted) == Ok::<SectionView, crate::patch::LookupError>(pe_sections(data).unwrap()[k]),
{
    lemma_lookup_first_named(pe_sections(data).unwrap(), wanted, k);
}

proof fn lemma_scan_first(data: Seq<u8>, needle: Seq<u8>, s: int, end: int, p: int)
    requires
        0 <= s <= p < end,
        needle.len() > 0,
        p + needle.len() <= data.len(),
        data.subrange(p, p + needle.len()) == needle,
        forall|q: int| s <= q < p ==> #[trigger] data.subrange(q, q + needle.len()) != needle,
    ensures
        scan_for(data, needle, s, end) == Ok::<int, crate::patch::FindError>(p),
    decreases p - s,
{
    if scan_overruns(data, s, needle) {
        let m = choose|m: int| 0 <= m < needle.len() && s + m >= data.len() && #[trigger] prefix_matches(data, s, needle, m);
        assert(false);
    }
    if s < p {
        assert(data.subrange(s, s + needle.len()) != needle);
        assert(!matches_at(data, s, needle));
        lemma_scan_first(data, needle, s + 1, end, p);
    } else {
        assert(matches_at(data, s, needle));
    }
}

/// Finding a string in a section finds its first occurrence wherever it stands
/// in the section's file bytes: where the (non-empty) needle occurs at `p` in
/// the section's file range, within the image, and at no earlier position of
/// that range, the result is the virtual address of `p`.
pub proof fn law_find_string_finds_first_occurrence(data: Seq<u8>, section: Seq<u8>, needle: Seq<u8>, p: int)
    requires
        spec_get_section(data, section) is Ok,
        needle.len() > 0,
        spec_get_section(data, section)->Ok_0.pointer_to_raw_data <= p,
        p < spec_get_section(data, section)->Ok_0.pointer_to_raw_data + spec_get_section(data, section)->Ok_0.size_of_raw_data,
        p + needle.len() <= data.len(),
        data.subrange(p, p + needle.len()) == needle,
        forall|q: int| spec_get_section(data, section)->Ok_0.pointer_to_raw_data <= q < p
            ==> #[trigger] data.subrange(q, q + needle.len()) != needle,
    ensures
        spec_find_string(data, section, needle) == Ok::<int, crate::patch::FindError>(
            p - spec_get_section(data, section)->Ok_0.pointer_to_raw_data + spec_get_section(data, section)->Ok_0.virtual_address),
{
    let h = spec_get_section(data, section)->Ok_0;
    let raw = h.pointer_to_raw_data as int;
    lemma_scan_first(data, needle, raw, raw + h.size_of_raw_data, p);
}

/// The reference scan finds the first operand that refers to the target,
/// wherever it stands: where the 4 bytes at `q` (within the image, `va` at or
/// above `raw`) hold an offset that, counted from the operand's end and moved
/// from file to virtual addresses, gives `target`, and no operand at an
/// earlier offset from `i` does, the scan gives `q`.
pub proof fn law_reference_scan_finds_first_reference(data: Seq<u8>, i: int, end: int, raw: int, va: int, target: int, q: int)
    requires
        i <= q < end,
        q + 4 <= data.len(),
        raw <= va,
        q + 4 + le_u32(data, q) + (va - raw) == target,
        forall|j: int| i <= j < q ==> j + 4 + #[trigger] le_u32(data, j) + (va - raw) != target,
    ensures
        find_reference(data, i, end, raw, va, target) == Ok::<Option<int>, crate::patch::PatchError>(Some(q)),
    decreases q - i,
{
    if i < q {
        assert(i + 4 + le_u32(data, i) + (va - raw) != target);
        law_reference_scan_finds_first_reference(data, i + 1, end, raw, va, target, q);
    }
}

/// Redirecting rewrites the first operand of `.text` that refers to the old
/// string, wherever it stands: where the operand at `q` is the first in the
/// scanned range of `.text` to refer to the old string, the patch succeeds, the
/// new offset fits in 32 bits and no length fix-up lands on the operand, the
/// patched operand refers to the replacement string.
pub proof fn law_patch_redirects_first_reference(
    data: Seq<u8>,
    text: SectionView,
    input_addr: int,
    input_len: int,
    replace_addr: int,
    replace_len: int,
    q: int,
)
    requires
        ({
            let raw = text.pointer_to_raw_data as int;
            let va = text.virtual_address as int;
            &&& raw + text.size_of_raw_data >= 3
            &&& raw <= q < raw + text.size_of_raw_data - 3
            &&& q + 4 <= data.len()
            &&& raw <= va
            &&& q + 4 + le_u32(data, q) + (va - raw) == input_addr
            &&& forall|j: int| raw <= j < q ==> j + 4 + #[trigger] le_u32(data, j) + (va - raw) != input_addr
            &&& spec_patch_text(data, text, input_addr, input_len, replace_addr, replace_len) is Ok
            &&& new_string_offset(q, raw, va, replace_addr) < 0x1_0000_0000
            &&& no_overlapping_fixup(redirected(data, q, raw, va, replace_addr), q, raw, va, input_addr + input_len - 1)
        }),
    ensures
        ({
            let out = spec_patch_text(data, text, input_addr, input_len, replace_addr, replace_len)->Ok_0;
            let raw = text.pointer_to_raw_data as int;
            let va = text.virtual_address as int;
            &&& out.len() == data.len()
            &&& q + 4 + le_u32(out, q) + (va - raw) == replace_addr
        }),
{
    let raw = text.pointer_to_raw_data as int;
    let va = text.virtual_address as int;
    law_reference_scan_finds_first_reference(data, raw, raw + text.size_of_raw_data - 3, raw, va, input_addr, q);
    law_redirected_operand_refers_to_replacement(data, text, input_addr, input_len, replace_addr, replace_len, q);
}

} // verus!
