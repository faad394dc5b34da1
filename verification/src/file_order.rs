//! The file ranges that the rebuild reserves follow one another: each section's
//! file range starts at or after the end of every earlier one, the certificate
//! table after all of them, and all within the reserved length (where that
//! length fits in 32 bits, as the file offsets of a PE image do).

use vstd::prelude::*;
use crate::pe::SectionView;
use crate::pe_writer::{
    WriterLayout, align64, align32, is_pow2, reserve_section_ok, after_reserve_section, section_file_size,
    padded_relocs, after_reserve_reloc_section, reloc_blocks_size, reloc_section_name, reloc_section_characteristics,
    reserve_certificate_table_ok,
};
use crate::rebuild::{
    plan_sections, plan_relocs, plan_headers, plan_to_rsps, plan_tables, rebuild_plan, section_step_ok,
    rebuild_relocs, spec_reloc_dir, spec_cert_dir, input_sections, copied_of, RSPS_CHARACTERISTICS,
    RSPS_VIRTUAL_SIZE, RSPS_RAW_SIZE, spec_rsps_section_name,
};

verus! {

/// Where the file range of `h` ends.
pub open spec fn file_end(h: SectionView) -> int {
    h.pointer_to_raw_data + h.size_of_raw_data
}

/// The non-empty file ranges of `secs` follow one another, and end by `reserved`.
pub open spec fn files_ordered(secs: Seq<SectionView>, reserved: int) -> bool {
    &&& forall|j: int, k: int| 0 <= j < k < secs.len() && secs[j].size_of_raw_data > 0 && secs[k].size_of_raw_data > 0
        ==> file_end(#[trigger] secs[j]) <= (#[trigger] secs[k]).pointer_to_raw_data
    &&& forall|j: int| 0 <= j < secs.len() && secs[j].size_of_raw_data > 0 ==> file_end(#[trigger] secs[j]) <= reserved
}

/// Rounding up within 64 bits neither lowers a value nor raises it by a whole step.
pub proof fn lemma_align64_wide(x: u64, a: u64)
    requires
        1 <= a <= 0x8000_0000,
        (a & ((a - 1) as u64)) == 0,
        x + a - 1 <= u64::MAX,
    ensures
        x <= align64(x as int, a as int) <= x + a - 1,
{
    assert(x <= (((x + a - 1) as u64) & !((a - 1) as u64)) <= x + a - 1) by (bit_vector)
        requires
            1 <= a <= 0x8000_0000,
            (a & ((a - 1) as u64)) == 0,
            x + a - 1 <= u64::MAX;
}

/// Reserving a section keeps the file ranges in order, and does not lower the
/// reserved length.
pub proof fn lemma_reserve_section_ordered(p: WriterLayout, name: Seq<u8>, ch: u32, vs: int, ds: int)
    requires
        reserve_section_ok(p, ch, vs, ds),
        0 <= p.reserved,
        p.reserved <= u32::MAX ==> files_ordered(p.sections, p.reserved),
    ensures
        after_reserve_section(p, name, ch, vs, ds).reserved >= p.reserved,
        after_reserve_section(p, name, ch, vs, ds).reserved <= u32::MAX ==>
            files_ordered(after_reserve_section(p, name, ch, vs, ds).sections, after_reserve_section(p, name, ch, vs, ds).reserved),
{
    let q = after_reserve_section(p, name, ch, vs, ds);
    let size = section_file_size(p, ds);
    let fa = p.file_alignment;
    assert(is_pow2(fa));
    if size != 0 {
        assert(p.reserved + fa - 1 <= u64::MAX);
        lemma_align64_wide(p.reserved as u64, fa as u64);
    }
    if q.reserved <= u32::MAX {
        let h = q.sections.last();
        assert(q.sections.drop_last() =~= p.sections);
        if size != 0 {
            assert(align64(p.reserved, fa) < 0x1_0000_0000);
            assert(h.pointer_to_raw_data == align64(p.reserved, fa));
            assert(0 < size <= u32::MAX);
            assert(h.size_of_raw_data == size);
            assert(file_end(h) == q.reserved);
        } else {
            assert(h.size_of_raw_data == 0);
        }
        assert forall|j: int, k: int| 0 <= j < k < q.sections.len() && q.sections[j].size_of_raw_data > 0
            && q.sections[k].size_of_raw_data > 0 implies file_end(#[trigger] q.sections[j]) <= (#[trigger] q.sections[k]).pointer_to_raw_data by {
            if k == q.sections.len() - 1 {
                assert(q.sections[j] == p.sections[j]);
            } else {
                assert(q.sections[j] == p.sections[j] && q.sections[k] == p.sections[k]);
            }
        }
        assert forall|j: int| 0 <= j < q.sections.len() && q.sections[j].size_of_raw_data > 0 implies
            file_end(#[trigger] q.sections[j]) <= q.reserved by {
            if j < q.sections.len() - 1 {
                assert(q.sections[j] == p.sections[j]);
            }
        }
    }
}

/// Reserving the copied sections keeps the file ranges in order.
pub proof fn lemma_sections_ordered(l: WriterLayout, hs: Seq<SectionView>, ci: Seq<int>, k: int)
    requires
        plan_sections(l, hs, ci, k) is Some,
        0 <= l.reserved,
        l.reserved <= u32::MAX ==> files_ordered(l.sections, l.reserved),
    ensures
        plan_sections(l, hs, ci, k).unwrap().reserved >= l.reserved,
        plan_sections(l, hs, ci, k).unwrap().reloc_offset == l.reloc_offset,
        plan_sections(l, hs, ci, k).unwrap().reserved <= u32::MAX ==>
            files_ordered(plan_sections(l, hs, ci, k).unwrap().sections, plan_sections(l, hs, ci, k).unwrap().reserved),
    decreases k,
{
    if k > 0 {
        lemma_sections_ordered(l, hs, ci, k - 1);
        let p = plan_sections(l, hs, ci, k - 1).unwrap();
        let h = hs[ci[k - 1]];
        assert(section_step_ok(p, h));
        lemma_reserve_section_ordered(p, h.name, h.characteristics, h.virtual_size as int, h.size_of_raw_data as int);
    }
}

/// Adding relocations leaves the sections and the reserved length as they were.
pub proof fn lemma_relocs_keep_sections(l: WriterLayout, list: Seq<(u32, u16)>, k: int)
    ensures
        plan_relocs(l, list, k) matches Some(p) ==> p.sections == l.sections && p.reserved == l.reserved,
    decreases k,
{
    if k > 0 {
        lemma_relocs_keep_sections(l, list, k - 1);
    }
}

/// The file ranges of the planned image follow one another within the reserved
/// length, and the certificate table, where there is one, starts after them.
#[verifier::rlimit(60)]
#[verifier::spinoff_prover]
pub proof fn lemma_plan_ordered(s: Seq<u8>)
    requires
        rebuild_plan(s) is Some,
        rebuild_plan(s).unwrap().reserved <= u32::MAX,
    ensures
        files_ordered(rebuild_plan(s).unwrap().sections, rebuild_plan(s).unwrap().reserved),
        spec_cert_dir(s) is Some ==> forall|j: int| 0 <= j < rebuild_plan(s).unwrap().sections.len()
            && (#[trigger] rebuild_plan(s).unwrap().sections[j]).size_of_raw_data > 0
            ==> file_end(rebuild_plan(s).unwrap().sections[j]) <= rebuild_plan(s).unwrap().directories[4].0,
        rebuild_plan(s).unwrap().reloc_offset != 0 ==> forall|j: int| 0 <= j < rebuild_plan(s).unwrap().sections.len() - 1
            && (#[trigger] rebuild_plan(s).unwrap().sections[j]).size_of_raw_data > 0
            ==> file_end(rebuild_plan(s).unwrap().sections[j]) <= rebuild_plan(s).unwrap().reloc_offset,
{
    reveal(rebuild_plan);
    reveal(plan_to_rsps);
    reveal(plan_headers);
    reveal(plan_tables);
    let l = rebuild_plan(s).unwrap();
    let l4 = plan_headers(s).unwrap();
    assert(l4.sections.len() == 0);
    assert(0 <= l4.reserved);
    let hs = input_sections(s);
    let ci = copied_of(s);
    lemma_sections_ordered(l4, hs, ci, ci.len() as int);
    let l5 = plan_sections(l4, hs, ci, ci.len() as int).unwrap();
    lemma_reserve_section_ordered(l5, spec_rsps_section_name(), RSPS_CHARACTERISTICS, RSPS_VIRTUAL_SIZE as int,
        RSPS_RAW_SIZE as int);
    let l6 = plan_to_rsps(s).unwrap();
    let l7 = if spec_reloc_dir(s) is Some {
        let list = rebuild_relocs(s);
        lemma_relocs_keep_sections(l6, list, list.len() as int);
        let p = plan_relocs(l6, list, list.len() as int).unwrap();
        let pp = padded_relocs(p);
        let size = reloc_blocks_size(pp.reloc_blocks);
        lemma_reserve_section_ordered(pp, reloc_section_name(), reloc_section_characteristics(), size, size);
        let q = after_reserve_section(pp, reloc_section_name(), reloc_section_characteristics(), size, size);
        let l7 = after_reserve_reloc_section(p);
        assert(l7.sections == q.sections && l7.reserved == q.reserved);
        if l7.reloc_offset != 0 && q.reserved <= u32::MAX {
            let last = q.sections.last();
            assert(section_file_size(pp, size) != 0);
            assert(last.pointer_to_raw_data == l7.reloc_offset);
            assert(last.size_of_raw_data > 0);
            assert forall|j: int| 0 <= j < q.sections.len() - 1 && (#[trigger] q.sections[j]).size_of_raw_data > 0
                implies file_end(q.sections[j]) <= l7.reloc_offset by {
                assert(q.sections[q.sections.len() - 1] == last);
            }
        }
        l7
    } else {
        l6
    };
    assert(l7.reserved >= l6.reserved);
    assert(spec_reloc_dir(s) is None ==> l7.reloc_offset == 0);
    if let Some((_, n)) = spec_cert_dir(s) {
        let n8 = align32(n as int, 8);
        assert(reserve_certificate_table_ok(l7, n as int));
        assert(l7.reserved + 8 - 1 <= u64::MAX);
        assert((8u64 & 7u64) == 0) by (bit_vector);
        lemma_align64_wide(l7.reserved as u64, 8);
        assert(l.sections == l7.sections);
        assert(l.reserved >= l7.reserved);
        assert(l.reloc_offset == l7.reloc_offset);
        assert(l.directories[4].0 >= l7.reserved);
    } else {
        assert(l == l7);
    }
}

} // verus!
