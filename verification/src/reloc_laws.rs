//! What the rebuilt relocation table holds: read back block by block, its
//! entries give the relocations it was built from, in order, with only zero
//! (padding) entries added.

use vstd::prelude::*;
use crate::pe::SectionView;
use crate::pe_writer::{
    WriterLayout, reloc_blocks_count, reloc_page, reloc_entry, after_add_reloc, padded_relocs,
    lemma_reloc_blocks_bump, lemma_reloc_blocks_push,
};
use crate::rebuild::{
    plan_relocs, plan_sections, plan_headers, plan_to_rsps, plan_tables, rebuild_plan, rebuild_relocs, spec_reloc_dir,
};

verus! {

/// The relocation that an entry `e` of the block for `page` stands for: its
/// address (the page plus the entry's low 12 bits) and its type (the entry's
/// top 4 bits).
pub open spec fn reloc_decode(page: int, e: u16) -> (int, int) {
    (page + (e & 0xfffu16) as int, (e >> 12u16) as int)
}

/// The relocations that the blocks and entries stand for, block by block.
pub open spec fn decoded_relocs(blocks: Seq<(int, int)>, entries: Seq<u16>) -> Seq<(int, int)>
    decreases blocks.len(),
{
    if blocks.len() == 0 {
        Seq::empty()
    } else {
        let k = reloc_blocks_count(blocks.drop_last());
        decoded_relocs(blocks.drop_last(), entries.take(k))
            + entries.skip(k).map_values(|e: u16| reloc_decode(blocks.last().0, e))
    }
}

/// The relocations of `x` other than those of type 0 (the padding type).
pub open spec fn non_padding(x: Seq<(int, int)>) -> Seq<(int, int)>
    decreases x.len(),
{
    if x.len() == 0 {
        Seq::empty()
    } else if x.last().1 == 0 {
        non_padding(x.drop_last())
    } else {
        non_padding(x.drop_last()).push(x.last())
    }
}

/// The first `n` relocations of `list`, as (address, type), the type cut to the
/// 4 bits that an entry holds.
pub open spec fn listed_relocs(list: Seq<(u32, u16)>, n: int) -> Seq<(int, int)> {
    Seq::new(n as nat, |i: int| (list[i].0 as int, (list[i].1 % 16) as int))
}

/// The counts of the blocks are positive, and the entries number as the counts.
pub open spec fn blocks_ok(blocks: Seq<(int, int)>, entries: Seq<u16>) -> bool {
    &&& forall|i: int| 0 <= i < blocks.len() ==> 0 < (#[trigger] blocks[i]).1
    &&& reloc_blocks_count(blocks) == entries.len()
}

proof fn lemma_non_padding_push(x: Seq<(int, int)>, a: (int, int))
    ensures
        non_padding(x.push(a)) == if a.1 == 0 { non_padding(x) } else { non_padding(x).push(a) },
{
    assert(x.push(a).drop_last() =~= x);
}

proof fn lemma_count_nonneg(b: Seq<(int, int)>)
    requires
        forall|i: int| 0 <= i < b.len() ==> 0 <= (#[trigger] b[i]).1,
    ensures
        reloc_blocks_count(b) >= 0,
    decreases b.len(),
{
    if b.len() > 0 {
        lemma_count_nonneg(b.drop_last());
    }
}

/// A new block with one entry adds that entry's relocation.
proof fn lemma_decoded_new_block(blocks: Seq<(int, int)>, entries: Seq<u16>, page: int, e: u16)
    requires
        blocks_ok(blocks, entries),
    ensures
        decoded_relocs(blocks.push((page, 1int)), entries.push(e)) == decoded_relocs(blocks, entries).push(reloc_decode(page, e)),
{
    let b2 = blocks.push((page, 1int));
    let e2 = entries.push(e);
    assert(b2.drop_last() =~= blocks);
    let k = reloc_blocks_count(blocks);
    assert(e2.take(k) =~= entries);
    assert(e2.skip(k) =~= seq![e]);
    assert(e2.skip(k).map_values(|x: u16| reloc_decode(page, x)) =~= seq![reloc_decode(page, e)]);
    assert(decoded_relocs(b2, e2) =~= decoded_relocs(blocks, entries) + seq![reloc_decode(page, e)]);
}

/// One more entry in the last block (for `page`, the last block's page) adds
/// that entry's relocation.
proof fn lemma_decoded_bump(blocks: Seq<(int, int)>, entries: Seq<u16>, e: u16)
    requires
        blocks.len() > 0,
        blocks_ok(blocks, entries),
    ensures
        decoded_relocs(blocks.update(blocks.len() - 1, (blocks.last().0, blocks.last().1 + 1)), entries.push(e))
            == decoded_relocs(blocks, entries).push(reloc_decode(blocks.last().0, e)),
{
    let last = blocks.last();
    let b2 = blocks.update(blocks.len() - 1, (last.0, last.1 + 1));
    let e2 = entries.push(e);
    assert(b2.drop_last() =~= blocks.drop_last());
    assert(b2.last() == (last.0, last.1 + 1));
    let k = reloc_blocks_count(blocks.drop_last());
    lemma_count_nonneg(blocks.drop_last());
    assert(k <= entries.len());
    assert(e2.take(k) =~= entries.take(k));
    assert(e2.skip(k) =~= entries.skip(k).push(e));
    assert(e2.skip(k).map_values(|x: u16| reloc_decode(last.0, x))
        =~= entries.skip(k).map_values(|x: u16| reloc_decode(last.0, x)).push(reloc_decode(last.0, e)));
    assert(decoded_relocs(b2, e2) =~= decoded_relocs(blocks, entries).push(reloc_decode(last.0, e)));
}

/// An entry decodes, in the block of its page, to the relocation it was made from.
proof fn lemma_entry_decodes(va: u32, typ: u16)
    ensures
        reloc_decode(reloc_page(va), reloc_entry(va, typ)) == (va as int, (typ % 16) as int),
        (reloc_decode(reloc_page(va), 0u16)).1 == 0,
{
    let e = reloc_entry(va, typ);
    assert(((va & !0xfffu32) as int) + ((((typ << 12u16) | ((va & 0xfffu32) as u16)) as u16 & 0xfffu16) as int) == va as int)
        by (bit_vector);
    assert(((((typ << 12u16) | ((va & 0xfffu32) as u16)) as u16) >> 12u16) == typ % 16) by (bit_vector);
    assert((0u16 >> 12u16) == 0u16) by (bit_vector);
}

/// Adding relocations from a layout without relocation blocks keeps the blocks
/// well formed, and read back, the blocks give the relocations added, in order,
/// with only padding entries (type 0) besides: each entry holds the relocation's
/// address and type as `Writer::add_reloc` was given them.
pub proof fn law_reloc_blocks_hold_the_relocations(l: WriterLayout, list: Seq<(u32, u16)>, n: int)
    requires
        l.reloc_blocks.len() == 0,
        l.reloc_entries.len() == 0,
        0 <= n <= list.len(),
        plan_relocs(l, list, n) is Some,
    ensures
        ({
            let p = plan_relocs(l, list, n).unwrap();
            &&& blocks_ok(p.reloc_blocks, p.reloc_entries)
            &&& non_padding(decoded_relocs(p.reloc_blocks, p.reloc_entries)) == non_padding(listed_relocs(list, n))
        }),
    decreases n,
{
    if n == 0 {
        assert(listed_relocs(list, 0) =~= Seq::<(int, int)>::empty());
    } else {
        law_reloc_blocks_hold_the_relocations(l, list, n - 1);
        let p = plan_relocs(l, list, n - 1).unwrap();
        let (va, typ) = list[n - 1];
        let page = reloc_page(va);
        let e = reloc_entry(va, typ);
        let b = p.reloc_blocks;
        let q = after_add_reloc(p, va, typ);
        assert(plan_relocs(l, list, n) == Some(q));
        lemma_entry_decodes(va, typ);
        assert(listed_relocs(list, n) =~= listed_relocs(list, n - 1).push((va as int, (typ % 16) as int)));
        lemma_non_padding_push(listed_relocs(list, n - 1), (va as int, (typ % 16) as int));
        let d = decoded_relocs(b, p.reloc_entries);
        if b.len() > 0 && b.last().0 == page {
            lemma_decoded_bump(b, p.reloc_entries, e);
            lemma_reloc_blocks_bump(b, page);
            lemma_non_padding_push(d, reloc_decode(page, e));
        } else if b.len() > 0 && b.last().1 % 2 == 1 {
            let b1 = b.update(b.len() - 1, (b.last().0, b.last().1 + 1));
            let e1 = p.reloc_entries.push(0u16);
            lemma_decoded_bump(b, p.reloc_entries, 0u16);
            lemma_reloc_blocks_bump(b, b.last().0);
            lemma_entry_decodes(va, 0u16);
            assert(reloc_decode(b.last().0, 0u16).1 == 0) by {
                assert((0u16 >> 12u16) == 0u16) by (bit_vector);
            }
            assert(blocks_ok(b1, e1));
            lemma_decoded_new_block(b1, e1, page, e);
            lemma_reloc_blocks_push(b1, (page, 1int));
            lemma_non_padding_push(d, reloc_decode(b.last().0, 0u16));
            lemma_non_padding_push(decoded_relocs(b1, e1), reloc_decode(page, e));
        } else {
            lemma_decoded_new_block(b, p.reloc_entries, page, e);
            lemma_reloc_blocks_push(b, (page, 1int));
            lemma_non_padding_push(d, reloc_decode(page, e));
        }
    }
}

/// Reserving sections leaves the relocation blocks as they were.
proof fn lemma_sections_keep_relocs(l: WriterLayout, hs: Seq<SectionView>, ci: Seq<int>, k: int)
    ensures
        plan_sections(l, hs, ci, k) matches Some(p) ==> p.reloc_blocks == l.reloc_blocks && p.reloc_entries == l.reloc_entries,
    decreases k,
{
    if k > 0 {
        lemma_sections_keep_relocs(l, hs, ci, k - 1);
    }
}

/// Padding the last block to an even count keeps the blocks well formed and
/// adds only a padding entry.
proof fn lemma_padded_relocs(l: WriterLayout)
    requires
        blocks_ok(l.reloc_blocks, l.reloc_entries),
    ensures
        blocks_ok(padded_relocs(l).reloc_blocks, padded_relocs(l).reloc_entries),
        non_padding(decoded_relocs(padded_relocs(l).reloc_blocks, padded_relocs(l).reloc_entries))
            == non_padding(decoded_relocs(l.reloc_blocks, l.reloc_entries)),
{
    let b = l.reloc_blocks;
    if b.len() > 0 && b.last().1 % 2 == 1 {
        lemma_decoded_bump(b, l.reloc_entries, 0u16);
        lemma_reloc_blocks_bump(b, b.last().0);
        assert(reloc_decode(b.last().0, 0u16).1 == 0) by {
            assert((0u16 >> 12u16) == 0u16) by (bit_vector);
        }
        lemma_non_padding_push(decoded_relocs(b, l.reloc_entries), reloc_decode(b.last().0, 0u16));
    }
}

/// The relocation table of the rebuilt image (see `rebuilt_from`: the `.reloc`
/// section holds the blocks of `rebuild_plan`) is well formed, and read back,
/// gives the relocations of the input image (`rebuild_relocs`), in order, with
/// only padding entries besides.
pub proof fn law_rebuilt_relocation_table(s: Seq<u8>)
    requires
        rebuild_plan(s) is Some,
        spec_reloc_dir(s) is Some,
    ensures
        ({
            let p = rebuild_plan(s).unwrap();
            let list = rebuild_relocs(s);
            &&& blocks_ok(p.reloc_blocks, p.reloc_entries)
            &&& non_padding(decoded_relocs(p.reloc_blocks, p.reloc_entries)) == non_padding(listed_relocs(list, list.len() as int))
        }),
{
    reveal(rebuild_plan);
    reveal(plan_to_rsps);
    reveal(plan_headers);
    reveal(plan_tables);
    let l6 = plan_to_rsps(s).unwrap();
    let l4 = plan_headers(s).unwrap();
    let hs = crate::rebuild::input_sections(s);
    let ci = crate::rebuild::copied_of(s);
    lemma_sections_keep_relocs(l4, hs, ci, ci.len() as int);
    assert(l6.reloc_blocks.len() == 0 && l6.reloc_entries.len() == 0);
    let list = rebuild_relocs(s);
    law_reloc_blocks_hold_the_relocations(l6, list, list.len() as int);
    let p7 = plan_relocs(l6, list, list.len() as int).unwrap();
    lemma_padded_relocs(p7);
}

} // verus!
