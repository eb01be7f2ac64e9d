//! Flat layout arithmetic of lowering: the tag of a family, the alignment of
//! an offset, and fields laid out one after another.

use vstd::prelude::*;

verus! {

/// Width and alignment of the tag of a family of `count` constructors: none
/// for one constructor, then one, two or four bytes by powers of two.
pub open spec fn spec_tag_of(count: nat) -> (u32, u32) {
    if count <= 1 {
        (0, 1)
    } else if count <= 256 {
        (1, 1)
    } else if count <= 65536 {
        (2, 2)
    } else {
        (4, 4)
    }
}

/// Width and alignment of the tag of a family of `count` constructors.
pub fn tag_of(count: usize) -> (tag: (u32, u32))
    ensures
        tag == spec_tag_of(count as nat),
{
    if count <= 1 {
        (0, 1)
    } else if count <= 256 {
        (1, 1)
    } else if count <= 65536 {
        (2, 2)
    } else {
        (4, 4)
    }
}

/// The alignment actually used: at least one.
pub open spec fn spec_bound(align: u32) -> nat {
    if align == 0 {
        1
    } else {
        align as nat
    }
}

/// The first multiple of the alignment at or after `offset`.
pub open spec fn spec_aligned(offset: u32, align: u32) -> nat {
    if offset as nat % spec_bound(align) == 0 {
        offset as nat
    } else {
        (offset as nat + spec_bound(align) - offset as nat % spec_bound(align)) as nat
    }
}

/// The aligned offset is the least multiple of the alignment that is not
/// below the offset.
pub proof fn lemma_aligned(offset: u32, align: u32)
    ensures
        spec_aligned(offset, align) % spec_bound(align) == 0,
        offset <= spec_aligned(offset, align) < offset + spec_bound(align),
{
    let a = spec_bound(align);
    let r = offset as nat % a;
    assert(r < a && offset as nat == a * (offset as nat / a) + r) by (nonlinear_arith)
        requires
            a > 0,
            r == offset as nat % a,
    ;
    if r != 0 {
        let q = offset as nat / a;
        assert((a * q + r + a - r) == a * (q + 1)) by (nonlinear_arith);
        assert((a * (q + 1)) % a == 0) by (nonlinear_arith)
            requires
                a > 0,
        ;
    }
}

/// `offset` moved up to a multiple of `align`, where a zero alignment counts
/// as one.
pub fn aligned(offset: u32, align: u32) -> (at: u32)
    requires
        spec_aligned(offset, align) <= u32::MAX,
    ensures
        at == spec_aligned(offset, align),
{
    let a = if align == 0 {
        1
    } else {
        align
    };
    let r = offset % a;
    if r == 0 {
        offset
    } else {
        offset + (a - r)
    }
}

/// `a + b`, held at the largest `u32`.
pub open spec fn spec_saturated(a: nat, b: nat) -> u32 {
    if a + b > u32::MAX {
        u32::MAX
    } else {
        (a + b) as u32
    }
}

/// The larger of two alignments.
pub open spec fn spec_larger(a: u32, b: u32) -> u32 {
    if a >= b {
        a
    } else {
        b
    }
}

/// Fields `k` on, each a width and an alignment, laid out one after another
/// from `size`: each at the first aligned offset after the one before, the
/// size growing past it (held at the largest `u32`), and the alignment the
/// largest met. Gives the offsets, the size and the alignment.
pub open spec fn spec_sequential_from(
    fields: Seq<(u32, u32)>,
    k: int,
    size: u32,
    align: u32,
    offsets: Seq<u32>,
) -> (Seq<u32>, u32, u32)
    decreases fields.len() - k,
{
    if k < 0 || k >= fields.len() {
        (offsets, size, align)
    } else {
        let offset = spec_aligned(size, fields[k].1) as u32;
        spec_sequential_from(
            fields,
            k + 1,
            spec_saturated(offset as nat, fields[k].0 as nat),
            spec_larger(align, fields[k].1),
            offsets.push(offset),
        )
    }
}

/// Whether every aligned offset on the way fits a `u32`.
pub open spec fn spec_sequential_fits(fields: Seq<(u32, u32)>, k: int, size: u32) -> bool
    decreases fields.len() - k,
{
    if k < 0 || k >= fields.len() {
        true
    } else {
        spec_aligned(size, fields[k].1) <= u32::MAX && spec_sequential_fits(
            fields,
            k + 1,
            spec_saturated(spec_aligned(size, fields[k].1), fields[k].0 as nat),
        )
    }
}

/// Lays fields out one after another from `base`: the offset of each, the
/// size, and the alignment of the whole, which is at least one.
pub fn sequential(fields: &[(u32, u32)], base: u32) -> (laid: (Vec<u32>, u32, u32))
    requires
        spec_sequential_fits(fields@, 0, base),
    ensures
        (laid.0@, laid.1, laid.2) == spec_sequential_from(fields@, 0, base, 1, seq![]),
{
    let mut offsets: Vec<u32> = Vec::new();
    let mut size = base;
    let mut align: u32 = 1;
    let mut k: usize = 0;
    while k < fields.len()
        invariant
            k <= fields@.len(),
            spec_sequential_fits(fields@, k as int, size),
            spec_sequential_from(fields@, 0, base, 1, seq![]) == spec_sequential_from(
                fields@,
                k as int,
                size,
                align,
                offsets@,
            ),
        decreases fields@.len() - k,
    {
        let (width, at) = fields[k];
        let offset = aligned(size, at);
        offsets.push(offset);
        size = offset.saturating_add(width);
        if at > align {
            align = at;
        }
        k += 1;
    }
    (offsets, size, align)
}

/// A flat layout: the width of the tag, the field offsets of each variant,
/// the size and the alignment.
#[derive(Clone, Debug)]
pub struct FlatLayout {
    /// Width of the tag; zero when there is none.
    pub tag: u32,
    /// The offsets of the fields of each variant.
    pub variants: Vec<Vec<u32>>,
    /// The size: the end of the longest variant, moved up to the alignment.
    pub size: u32,
    /// The alignment.
    pub align: u32,
}

/// Whether a record's fields can be laid out without an offset or its size
/// leaving a `u32`.
pub open spec fn spec_record_fits(fields: Seq<(u32, u32)>) -> bool {
    &&& spec_sequential_fits(fields, 0, 0)
    &&& spec_aligned(
        spec_sequential_from(fields, 0, 0, 1, seq![]).1,
        spec_sequential_from(fields, 0, 0, 1, seq![]).2,
    ) <= u32::MAX
}

/// The flat layout of a record: its fields one after another from zero,
/// no tag, the size moved up to the largest alignment.
pub fn packing_of_slots(fields: &[(u32, u32)]) -> (layout: FlatLayout)
    requires
        spec_record_fits(fields@),
    ensures
        layout.tag == 0,
        layout.variants@.len() == 1,
        layout.variants@[0]@ == spec_sequential_from(fields@, 0, 0, 1, seq![]).0,
        layout.size == spec_aligned(
            spec_sequential_from(fields@, 0, 0, 1, seq![]).1,
            spec_sequential_from(fields@, 0, 0, 1, seq![]).2,
        ),
        layout.align == spec_sequential_from(fields@, 0, 0, 1, seq![]).2,
{
    let (offsets, size, align) = sequential(fields, 0);
    let mut variants: Vec<Vec<u32>> = Vec::new();
    variants.push(offsets);
    FlatLayout { tag: 0, variants, size: aligned(size, align), align }
}

/// The largest alignment among the fields of the variants from `k` on, or
/// what was found before them.
pub open spec fn spec_largest_from(variants: Seq<Seq<(u32, u32)>>, k: int, m: int, found: Option<u32>) -> Option<
    u32,
>
    decreases variants.len() - k, (if 0 <= k < variants.len() { variants[k].len() - m } else { 0 }),
{
    if k < 0 || k >= variants.len() {
        found
    } else if m < 0 || m >= variants[k].len() {
        spec_largest_from(variants, k + 1, 0, found)
    } else {
        let at = variants[k][m].1;
        spec_largest_from(
            variants,
            k,
            m + 1,
            match found {
                Some(a) => Some(spec_larger(a, at)),
                None => Some(at),
            },
        )
    }
}

/// The alignment of a family's payload: the largest of its fields', one
/// when there are no fields at all.
pub open spec fn spec_payload_align(variants: Seq<Seq<(u32, u32)>>) -> u32 {
    match spec_largest_from(variants, 0, 0, None) {
        Some(a) => a,
        None => 1,
    }
}

/// Where a family's payload begins: after the tag, aligned for the payload.
pub open spec fn spec_payload_base(variants: Seq<Seq<(u32, u32)>>) -> nat {
    spec_aligned(spec_tag_of(variants.len()).0, spec_payload_align(variants))
}

/// The end of the longest variant from `k` on, each laid out from `base`,
/// and no less than `end`.
pub open spec fn spec_family_end(variants: Seq<Seq<(u32, u32)>>, base: u32, k: int, end: u32) -> u32
    decreases variants.len() - k,
{
    if k < 0 || k >= variants.len() {
        end
    } else {
        spec_family_end(
            variants,
            base,
            k + 1,
            spec_larger(end, spec_sequential_from(variants[k], 0, base, 1, seq![]).1),
        )
    }
}

/// The alignment of a family: the larger of the tag's and the payload's.
pub open spec fn spec_family_align(variants: Seq<Seq<(u32, u32)>>) -> u32 {
    spec_larger(spec_tag_of(variants.len()).1, spec_payload_align(variants))
}

/// Whether a family can be laid out without leaving a `u32`.
pub open spec fn spec_family_fits(variants: Seq<Seq<(u32, u32)>>) -> bool {
    &&& spec_payload_base(variants) <= u32::MAX
    &&& forall|k: int|
        0 <= k < variants.len() ==> spec_sequential_fits(
            #[trigger] variants[k],
            0,
            spec_payload_base(variants) as u32,
        )
    &&& spec_aligned(
        spec_family_end(
            variants,
            spec_payload_base(variants) as u32,
            0,
            spec_tag_of(variants.len()).0,
        ),
        spec_family_align(variants),
    ) <= u32::MAX
}

proof fn lemma_family_end(variants: Seq<Seq<(u32, u32)>>, base: u32, k: int, end: u32)
    requires
        0 <= k <= variants.len(),
    ensures
        spec_family_end(variants, base, k, end) >= end,
        forall|j: int|
            k <= j < variants.len() ==> spec_family_end(variants, base, k, end)
                >= (#[trigger] spec_sequential_from(variants[j], 0, base, 1, seq![])).1,
        spec_family_end(variants, base, k, end) == end || exists|j: int|
            k <= j < variants.len() && spec_family_end(variants, base, k, end)
                == (#[trigger] spec_sequential_from(variants[j], 0, base, 1, seq![])).1,
    decreases variants.len() - k,
{
    if k < variants.len() {
        let next = spec_larger(end, spec_sequential_from(variants[k], 0, base, 1, seq![]).1);
        lemma_family_end(variants, base, k + 1, next);
    }
}

/// The size of a family is the least multiple of its alignment that holds
/// the tag and every variant laid out from the payload base: no variant
/// ends past it, and no smaller multiple of the alignment would do.
pub proof fn lemma_family_size(variants: Seq<Seq<(u32, u32)>>)
    ensures
        ({
            let base = spec_payload_base(variants) as u32;
            let size = spec_aligned(
                spec_family_end(variants, base, 0, spec_tag_of(variants.len()).0),
                spec_family_align(variants),
            );
            let b = spec_bound(spec_family_align(variants));
            &&& size >= spec_tag_of(variants.len()).0
            &&& forall|k: int|
                0 <= k < variants.len() ==> size >= (#[trigger] spec_sequential_from(
                    variants[k],
                    0,
                    base,
                    1,
                    seq![],
                )).1
            &&& size % b == 0
            &&& forall|m: nat|
                #![trigger m % b]
                m % b == 0 && m >= spec_tag_of(variants.len()).0 && (forall|k: int|
                    0 <= k < variants.len() ==> m >= (#[trigger] spec_sequential_from(
                        variants[k],
                        0,
                        base,
                        1,
                        seq![],
                    )).1) ==> m >= size
        }),
{
    let base = spec_payload_base(variants) as u32;
    let tag = spec_tag_of(variants.len()).0;
    let end = spec_family_end(variants, base, 0, tag);
    let align = spec_family_align(variants);
    let size = spec_aligned(end, align);
    let b = spec_bound(align);
    lemma_family_end(variants, base, 0, tag);
    lemma_aligned(end, align);
    assert forall|m: nat|
        #![trigger m % b]
        m % b == 0 && m >= tag && (forall|k: int|
            0 <= k < variants.len() ==> m >= (#[trigger] spec_sequential_from(
                variants[k],
                0,
                base,
                1,
                seq![],
            )).1) implies m >= size by {
        if end != tag {
            let j = choose|j: int|
                0 <= j < variants.len() && end == (#[trigger] spec_sequential_from(
                    variants[j],
                    0,
                    base,
                    1,
                    seq![],
                )).1;
            assert(m >= spec_sequential_from(variants[j], 0, base, 1, seq![]).1);
        }
        assert(m >= end);
        if m < size {
            assert(false) by (nonlinear_arith)
                requires
                    b > 0,
                    m % b == 0,
                    size % b == 0,
                    end <= m,
                    m < size,
                    size < end + b,
            {
                assert(m == b * (m / b));
                assert(size == b * (size / b));
                assert(m / b < size / b);
                assert(size - m >= b);
            }
        }
    }
}

fn largest(variants: &[Vec<(u32, u32)>]) -> (align: u32)
    ensures
        align == spec_payload_align(variants@.map_values(|v: Vec<(u32, u32)>| v@)),
{
    let ghost all = variants@.map_values(|v: Vec<(u32, u32)>| v@);
    let mut found: Option<u32> = None;
    let mut k: usize = 0;
    while k < variants.len()
        invariant
            k <= variants@.len(),
            all == variants@.map_values(|v: Vec<(u32, u32)>| v@),
            spec_largest_from(all, 0, 0, None) == spec_largest_from(all, k as int, 0, found),
        decreases variants@.len() - k,
    {
        assert(all[k as int] == variants@[k as int]@);
        let mut m: usize = 0;
        while m < variants[k].len()
            invariant
                k < variants@.len(),
                m <= variants@[k as int]@.len(),
                all == variants@.map_values(|v: Vec<(u32, u32)>| v@),
                all[k as int] == variants@[k as int]@,
                spec_largest_from(all, 0, 0, None) == spec_largest_from(all, k as int, m as int, found),
            decreases variants@[k as int]@.len() - m,
        {
            let at = variants[k][m].1;
            found = match found {
                Some(a) => Some(if a >= at {
                    a
                } else {
                    at
                }),
                None => Some(at),
            };
            m += 1;
        }
        k += 1;
    }
    match found {
        Some(a) => a,
        None => 1,
    }
}

/// The flat layout of a family: a tag wide enough for its constructors,
/// then a payload aligned for the largest alignment of all fields, each
/// variant's fields one after another from there; the size is the end of
/// the longest variant, no less than the tag, moved up to the larger of the
/// tag's and the payload's alignment. `Option Int64` takes sixteen bytes.
pub fn family_packing_of(variants: &[Vec<(u32, u32)>]) -> (layout: FlatLayout)
    requires
        spec_family_fits(variants@.map_values(|v: Vec<(u32, u32)>| v@)),
    ensures
        ({
            let all = variants@.map_values(|v: Vec<(u32, u32)>| v@);
            let base = spec_payload_base(all) as u32;
            &&& layout.tag == spec_tag_of(all.len()).0
            &&& layout.variants@.len() == all.len()
            &&& forall|k: int|
                0 <= k < all.len() ==> (#[trigger] layout.variants@[k])@ == spec_sequential_from(
                    all[k],
                    0,
                    base,
                    1,
                    seq![],
                ).0
            &&& layout.align == spec_family_align(all)
            &&& layout.size == spec_aligned(
                spec_family_end(all, base, 0, spec_tag_of(all.len()).0),
                spec_family_align(all),
            )
            &&& layout.size >= layout.tag
            &&& forall|k: int|
                0 <= k < all.len() ==> layout.size >= (#[trigger] spec_sequential_from(
                    all[k],
                    0,
                    base,
                    1,
                    seq![],
                )).1
            &&& layout.size as nat % spec_bound(layout.align) == 0
        }),
{
    let ghost all = variants@.map_values(|v: Vec<(u32, u32)>| v@);
    proof {
        lemma_family_size(all);
    }
    let (tag_size, tag_align) = tag_of(variants.len());
    let payload_align = largest(variants);
    let base = aligned(tag_size, payload_align);
    let mut made: Vec<Vec<u32>> = Vec::new();
    let mut end = tag_size;
    let mut k: usize = 0;
    while k < variants.len()
        invariant
            k <= variants@.len(),
            all == variants@.map_values(|v: Vec<(u32, u32)>| v@),
            base == spec_payload_base(all),
            spec_family_fits(all),
            made@.len() == k,
            forall|j: int|
                0 <= j < k ==> (#[trigger] made@[j])@ == spec_sequential_from(all[j], 0, base, 1, seq![]).0,
            spec_family_end(all, base, 0, tag_size) == spec_family_end(all, base, k as int, end),
        decreases variants@.len() - k,
    {
        assert(all[k as int] == variants@[k as int]@);
        assert(spec_sequential_fits(all[k as int], 0, base));
        let (slots, size, _) = sequential(&variants[k], base);
        if size > end {
            end = size;
        }
        made.push(slots);
        k += 1;
    }
    let align = if tag_align >= payload_align {
        tag_align
    } else {
        payload_align
    };
    FlatLayout { tag: tag_size, variants: made, size: aligned(end, align), align }
}

} // verus!
