//! The partition model: clipping a query region against the partitions of a
//! file and the positions the query visits, with the laws that follow from
//! the way a file is split (per chromosome, contiguous from zero).

use vstd::prelude::*;

use crate::catalog::cat_has;

verus! {

/// The plain description of one partition: its chromosome name and the
/// half-open span `[begin, end)` of positions it covers.
pub type PartRegion = (Seq<char>, u32, u32);

/// The larger of two integers.
pub open spec fn max2(a: int, b: int) -> int {
    if a >= b {
        a
    } else {
        b
    }
}

/// The smaller of two integers.
pub open spec fn min2(a: int, b: int) -> int {
    if a <= b {
        a
    } else {
        b
    }
}

/// The increasing sequence of positions `lo, lo+1, ..., hi-1`; empty when
/// `lo >= hi`.
pub open spec fn range_seq(lo: int, hi: int) -> Seq<u32> {
    if lo < hi {
        Seq::new((hi - lo) as nat, |i: int| (lo + i) as u32)
    } else {
        Seq::empty()
    }
}

/// The positions of `[left, right)` on `chrom` that one partition
/// contributes: the intersection with its own span, or nothing when the
/// chromosome does not match.
pub open spec fn part_positions(p: PartRegion, chrom: Seq<char>, left: u32, right: u32) -> Seq<
    u32,
> {
    if p.0 == chrom {
        range_seq(max2(left as int, p.1 as int), min2(right as int, p.2 as int))
    } else {
        Seq::empty()
    }
}

/// The positions a query visits: the concatenation, in partition order, of
/// every partition's contribution.
pub open spec fn positions(
    parts: Seq<PartRegion>,
    chrom: Seq<char>,
    left: u32,
    right: u32,
) -> Seq<u32>
    decreases parts.len(),
{
    if parts.len() == 0 {
        Seq::empty()
    } else {
        part_positions(parts[0], chrom, left, right) + positions(
            parts.drop_first(),
            chrom,
            left,
            right,
        )
    }
}

/// The partitions whose chromosome is `chrom` appear in order and tile
/// `[from, size)` contiguously; partitions of other chromosomes may stand
/// anywhere between them.
pub open spec fn covers_from(
    parts: Seq<PartRegion>,
    chrom: Seq<char>,
    from: u32,
    size: u32,
) -> bool
    decreases parts.len(),
{
    if parts.len() == 0 {
        from == size
    } else if parts[0].0 == chrom {
        &&& parts[0].1 == from
        &&& parts[0].1 <= parts[0].2
        &&& covers_from(parts.drop_first(), chrom, parts[0].2, size)
    } else {
        covers_from(parts.drop_first(), chrom, from, size)
    }
}

/// Every partition carries a chromosome name that the catalog lists.
pub open spec fn names_in(parts: Seq<PartRegion>, cat: Seq<(Seq<char>, usize)>) -> bool {
    forall|j: int| 0 <= j < parts.len() ==> cat_has(cat, (#[trigger] parts[j]).0)
}

/// What is left of one partition's contribution once the cursor has
/// advanced to `pos`: the positions of the contribution at or after `pos`.
pub open spec fn part_rest(p: PartRegion, chrom: Seq<char>, left: u32, right: u32, pos: u32) -> Seq<
    u32,
> {
    if p.0 == chrom {
        range_seq(
            max2(max2(left as int, p.1 as int), pos as int),
            min2(right as int, p.2 as int),
        )
    } else {
        Seq::empty()
    }
}

/// The positions of the partitions from `j` on start with partition `j`'s
/// own contribution.
pub proof fn lemma_positions_skip_unfold(
    parts: Seq<PartRegion>,
    chrom: Seq<char>,
    left: u32,
    right: u32,
    j: int,
)
    requires
        0 <= j < parts.len(),
    ensures
        positions(parts.skip(j), chrom, left, right) =~= part_positions(
            parts[j],
            chrom,
            left,
            right,
        ) + positions(parts.skip(j + 1), chrom, left, right),
{
    assert(parts.skip(j)[0] == parts[j]);
    assert(parts.skip(j).drop_first() =~= parts.skip(j + 1));
}

/// Adjacent ranges concatenate into one range.
proof fn lemma_range_seq_concat(lo: int, mid: int, hi: int)
    requires
        lo <= mid <= hi,
        0 <= lo,
        hi <= u32::MAX + 1,
    ensures
        range_seq(lo, mid) + range_seq(mid, hi) =~= range_seq(lo, hi),
{
}

/// The tiled extent lies ahead of `from`, and no partition of the tiled
/// chromosome reaches past it.
proof fn lemma_covers_bounds(parts: Seq<PartRegion>, chrom: Seq<char>, from: u32, size: u32)
    requires
        covers_from(parts, chrom, from, size),
    ensures
        from <= size,
    decreases parts.len(),
{
    if parts.len() == 0 {
    } else if parts[0].0 == chrom {
        lemma_covers_bounds(parts.drop_first(), chrom, parts[0].2, size);
    } else {
        lemma_covers_bounds(parts.drop_first(), chrom, from, size);
    }
}

/// Over partitions that tile `[from, size)` of a chromosome, a query
/// `[left, right)` visits exactly the positions of
/// `[max(left, from), min(right, size))`, in increasing order.
proof fn lemma_positions_covered(
    parts: Seq<PartRegion>,
    chrom: Seq<char>,
    from: u32,
    size: u32,
    left: u32,
    right: u32,
)
    requires
        covers_from(parts, chrom, from, size),
    ensures
        positions(parts, chrom, left, right) =~= range_seq(
            max2(left as int, from as int),
            min2(right as int, size as int),
        ),
    decreases parts.len(),
{
    if parts.len() == 0 {
        assert(from == size);
    } else if parts[0].0 == chrom {
        let e0 = parts[0].2;
        lemma_covers_bounds(parts.drop_first(), chrom, e0, size);
        lemma_positions_covered(parts.drop_first(), chrom, e0, size, left, right);
        let l = left as int;
        let r = right as int;
        let a = max2(l, from as int);
        let d = min2(r, size as int);
        if r > e0 && e0 > l {
            lemma_range_seq_concat(a, e0 as int, d);
        }
    } else {
        lemma_positions_covered(parts.drop_first(), chrom, from, size, left, right);
    }
}

/// Law: a query `[left, right)` with `left <= right <= size`, on a
/// chromosome whose partitions tile `[0, size)`, visits exactly
/// `right - left` positions, and they are `left, left+1, ...` in
/// increasing order.
pub proof fn lemma_query_positions(
    parts: Seq<PartRegion>,
    chrom: Seq<char>,
    size: u32,
    left: u32,
    right: u32,
)
    requires
        covers_from(parts, chrom, 0, size),
        left <= right <= size,
    ensures
        positions(parts, chrom, left, right).len() == right - left,
        forall|i: int|
            0 <= i < right - left ==> positions(parts, chrom, left, right)[i] == left + i,
{
    lemma_positions_covered(parts, chrom, 0, size, left, right);
}

/// Law: a query on a chromosome that the catalog does not list visits no
/// position at all, because every partition belongs to a listed
/// chromosome; the query yields an empty sequence rather than an error.
pub proof fn lemma_unknown_chrom_empty(
    parts: Seq<PartRegion>,
    cat: Seq<(Seq<char>, usize)>,
    chrom: Seq<char>,
    left: u32,
    right: u32,
)
    requires
        names_in(parts, cat),
        !cat_has(cat, chrom),
    ensures
        positions(parts, chrom, left, right) =~= Seq::<u32>::empty(),
    decreases parts.len(),
{
    if parts.len() > 0 {
        assert(cat_has(cat, parts[0].0));
        assert(parts[0].0 != chrom);
        assert(names_in(parts.drop_first(), cat)) by {
            assert forall|j: int| 0 <= j < parts.drop_first().len() implies cat_has(
                cat,
                (#[trigger] parts.drop_first()[j]).0,
            ) by {
                assert(parts.drop_first()[j] == parts[j + 1]);
            }
        }
        lemma_unknown_chrom_empty(parts.drop_first(), cat, chrom, left, right);
    }
}

} // verus!
