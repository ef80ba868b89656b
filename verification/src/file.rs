//! The model of an open D4 file: its chromosome catalog and partition
//! layout, the point-query cursor over partitions, and the histogram batch
//! query. The on-disk format engine stays outside this crate; a thin shell
//! opens the file, reports the header and partition spans as plain values,
//! decodes single positions, and drives the cursor.

use vstd::prelude::*;

use crate::catalog::cat_has;
use crate::catalog::cat_lookup;
use crate::catalog::cat_sane;
use crate::catalog::cat_view;
use crate::catalog::catalog_supported;
use crate::catalog::find_size;
use crate::catalog::lemma_cat_lookup_has;
use crate::catalog::lemma_cat_lookup_unique;
use crate::catalog::ChromEntry;
use crate::counts::count_above;
use crate::counts::count_below;
use crate::counts::count_val;
use crate::errors::D4Error;
use crate::hist::Histogram;
use crate::parts::covers_from;
use crate::parts::lemma_positions_skip_unfold;
use crate::parts::lemma_query_positions;
use crate::parts::lemma_unknown_chrom_empty;
use crate::parts::max2;
use crate::parts::min2;
use crate::parts::names_in;
use crate::parts::part_positions;
use crate::parts::part_rest;
use crate::parts::positions;
use crate::parts::range_seq;
use crate::parts::PartRegion;
use crate::regions::resolve;
use crate::regions::RegionSpec;

verus! {

/// One partition of the file: the chromosome it belongs to and the
/// half-open span `[begin, end)` of positions it covers. Partitions own no
/// state here; the decoders stay with the shell that opened the file.
pub struct PartInfo {
    pub chrom: String,
    pub begin: u32,
    pub end: u32,
}

impl PartInfo {
    /// The plain view of the partition's span.
    pub open spec fn region(self) -> PartRegion {
        (self.chrom@, self.begin, self.end)
    }
}

/// The spans of a partition list, in order.
pub open spec fn regions_of(parts: Seq<PartInfo>) -> Seq<PartRegion> {
    parts.map_values(|p: PartInfo| p.region())
}

/// An open D4 file, as this library models it: the ordered chromosome
/// catalog from the header and the partition layout the file was split
/// into. Both are checked once, at construction, against the layout
/// invariants the format guarantees.
pub struct D4File {
    pub catalog: Vec<ChromEntry>,
    pub partitions: Vec<PartInfo>,
}

/// What one histogram row states about the value sequence it was computed
/// from: one bin per value of `[min, max)` counting exactly that value,
/// labels in order, and the two counters for values outside the range.
pub open spec fn row_summarises(
    row: (Vec<(i32, u32)>, u32, u32),
    vals: Seq<i32>,
    min: i32,
    max: i32,
) -> bool {
    &&& row.0@.len() == max - min
    &&& forall|j: int|
        0 <= j < row.0@.len() ==> (#[trigger] row.0@[j]).0 == min + j && row.0@[j].1 == count_val(
            vals,
            min + j,
        )
    &&& row.1 == count_below(vals, min)
    &&& row.2 == count_above(vals, max)
}

impl D4File {
    /// The catalog's mathematical view.
    pub open spec fn cat(self) -> Seq<(Seq<char>, usize)> {
        cat_view(self.catalog@)
    }

    /// The partition layout's mathematical view.
    pub open spec fn regions(self) -> Seq<PartRegion> {
        regions_of(self.partitions@)
    }

    /// The layout invariants: distinct chromosome names with 32-bit sizes,
    /// every partition on a listed chromosome, and the partitions of each
    /// chromosome tiling `[0, size)` contiguously and in order.
    pub open spec fn wf(self) -> bool {
        &&& cat_sane(self.cat())
        &&& names_in(self.regions(), self.cat())
        &&& forall|i: int|
            0 <= i < self.cat().len() ==> covers_from(
                self.regions(),
                (#[trigger] self.cat()[i]).0,
                0,
                self.cat()[i].1 as u32,
            )
    }

    /// Build the model of an open file from its header's chromosome list
    /// and its partition spans, checking every layout invariant; a file
    /// whose header or layout violates them is rejected here, before any
    /// query runs.
    pub fn new(catalog: Vec<ChromEntry>, partitions: Vec<PartInfo>) -> (r: Result<
        D4File,
        D4Error,
    >)
        ensures
            r matches Ok(f) ==> f.wf() && f.catalog@ == catalog@ && f.partitions@ == partitions@,
            r matches Err(e) ==> e is Io,
            r is Err <==> !{
                &&& cat_sane(cat_view(catalog@))
                &&& names_in(regions_of(partitions@), cat_view(catalog@))
                &&& forall|i: int|
                    0 <= i < cat_view(catalog@).len() ==> covers_from(
                        regions_of(partitions@),
                        (#[trigger] cat_view(catalog@)[i]).0,
                        0,
                        cat_view(catalog@)[i].1 as u32,
                    )
            },
    {
        if !catalog_supported(&catalog) {
            return Err(D4Error::Io("unsupported chromosome catalog".to_owned()));
        }
        if !partitions_named(&catalog, &partitions) {
            return Err(D4Error::Io("partition on an unlisted chromosome".to_owned()));
        }
        if !file_covered(&catalog, &partitions) {
            return Err(D4Error::Io("partitions do not tile the chromosomes".to_owned()));
        }
        Ok(D4File { catalog, partitions })
    }

    /// The ordered (name, size) list from the file header.
    ///
    /// The catalog is loaded once when the file is opened and never
    /// mutated, and this method reads it through a shared borrow: repeated
    /// calls return the same list.
    pub fn chroms(&self) -> (r: Vec<(String, usize)>)
        ensures
            r@.len() == self.catalog@.len(),
            forall|i: int|
                0 <= i < r@.len() ==> (#[trigger] r@[i]).0@ == self.catalog@[i].name@ && r@[i].1
                    == self.catalog@[i].size,
    {
        let mut out: Vec<(String, usize)> = Vec::new();
        let mut i: usize = 0;
        while i < self.catalog.len()
            invariant
                0 <= i <= self.catalog@.len(),
                out@.len() == i,
                forall|k: int|
                    0 <= k < i ==> (#[trigger] out@[k]).0@ == self.catalog@[k].name@ && out@[k].1
                        == self.catalog@[k].size,
            decreases self.catalog@.len() - i,
        {
            out.push((self.catalog[i].name.clone(), self.catalog[i].size));
            i = i + 1;
        }
        out
    }

    /// The lazy point query: a cursor over every position of `[left,
    /// right)` on `chrom`, in increasing order, assembled from the
    /// partitions that overlap it. A chromosome the file does not list
    /// simply yields an empty cursor, never an error.
    pub fn value_iter(&self, chr: &str, left: u32, right: u32) -> (it: D4Iter)
        ensures
            it.wf(),
            it.chrom@ == chr@,
            it.left == left,
            it.right == right,
            it.regions() == self.regions(),
            it.remaining() == positions(self.regions(), chr@, left, right),
    {
        let mut ps: Vec<PartInfo> = Vec::new();
        let mut i: usize = 0;
        while i < self.partitions.len()
            invariant
                0 <= i <= self.partitions@.len(),
                ps@.len() == i,
                forall|k: int|
                    0 <= k < i ==> (#[trigger] ps@[k]).region() == self.partitions@[k].region(),
            decreases self.partitions@.len() - i,
        {
            let p = &self.partitions[i];
            ps.push(PartInfo { chrom: p.chrom.clone(), begin: p.begin, end: p.end });
            i = i + 1;
        }
        let it = D4Iter { parts: ps, chrom: chr.to_owned(), left, right, idx: 0, pos: 0 };
        proof {
            assert(it.regions() =~= self.regions());
            lemma_iter_fresh(it, self.regions());
        }
        it
    }

    /// The histogram batch query: resolve every region against the
    /// catalog, failing fast with `NotFound` before any result is built
    /// when any chromosome is absent, then bin each region's reconstructed
    /// values into one histogram row per region, in input order.
    ///
    /// `region_values` pairs with `regions`: entry `i` holds the
    /// reconstructed values of region `i`, as the cursor of `value_iter`
    /// visits them.
    pub fn histogram(
        &self,
        regions: &Vec<RegionSpec>,
        region_values: &Vec<Vec<i32>>,
        min: i32,
        max: i32,
    ) -> (r: Result<Vec<(Vec<(i32, u32)>, u32, u32)>, D4Error>)
        requires
            min <= max,
            region_values@.len() == regions@.len(),
            forall|i: int| 0 <= i < region_values@.len() ==> (#[trigger] region_values@[i])@.len()
                <= u32::MAX,
        ensures
            r is Err <==> exists|i: int|
                0 <= i < regions@.len() && !cat_has(
                    cat_view(self.catalog@),
                    (#[trigger] regions@[i]).spec_name(),
                ),
            r matches Err(e) ==> e is NotFound,
            r matches Ok(rows) ==> {
                &&& rows@.len() == regions@.len()
                &&& forall|i: int|
                    0 <= i < rows@.len() ==> row_summarises(
                        #[trigger] rows@[i],
                        region_values@[i]@,
                        min,
                        max,
                    )
            },
    {
        let mut i: usize = 0;
        while i < regions.len()
            invariant
                0 <= i <= regions@.len(),
                forall|k: int|
                    0 <= k < i ==> cat_has(
                        cat_view(self.catalog@),
                        (#[trigger] regions@[k]).spec_name(),
                    ),
            decreases regions@.len() - i,
        {
            match resolve(&regions[i], &self.catalog) {
                Ok(_) => {},
                Err(e) => {
                    return Err(e);
                },
            }
            i = i + 1;
        }
        let mut rows: Vec<(Vec<(i32, u32)>, u32, u32)> = Vec::new();
        let mut k: usize = 0;
        while k < region_values.len()
            invariant
                0 <= k <= region_values@.len(),
                min <= max,
                forall|i: int| 0 <= i < region_values@.len() ==> (#[trigger] region_values@[i])@.len()
                    <= u32::MAX,
                rows@.len() == k,
                forall|i: int|
                    0 <= i < k ==> row_summarises(#[trigger] rows@[i], region_values@[i]@, min, max),
            decreases region_values@.len() - k,
        {
            rows.push(histogram_of(&region_values[k], min, max));
            k = k + 1;
        }
        Ok(rows)
    }
}

/// Law: within chromosome bounds, a point query visits exactly
/// `right - left` positions, in increasing order starting at `left`. Holds
/// for every well-formed file, because its partitions tile each listed
/// chromosome.
pub proof fn lemma_file_query_exact(f: D4File, chrom: Seq<char>, left: u32, right: u32)
    requires
        f.wf(),
        cat_lookup(f.cat(), chrom) matches Some(size) && left <= right <= size as u32,
    ensures
        positions(f.regions(), chrom, left, right).len() == right - left,
        forall|i: int|
            0 <= i < right - left ==> positions(f.regions(), chrom, left, right)[i] == left + i,
{
    lemma_cat_lookup_has(f.cat(), chrom);
    let i = choose|i: int| 0 <= i < f.cat().len() && f.cat()[i].0 == chrom;
    lemma_cat_lookup_unique(f.cat(), i);
    assert(covers_from(f.regions(), chrom, 0, f.cat()[i].1 as u32));
    lemma_query_positions(f.regions(), chrom, f.cat()[i].1 as u32, left, right);
}

/// Law: a point query on a chromosome the file does not list visits no
/// position: the cursor is empty rather than an error.
pub proof fn lemma_file_query_unknown(f: D4File, chrom: Seq<char>, left: u32, right: u32)
    requires
        f.wf(),
        !cat_has(f.cat(), chrom),
    ensures
        positions(f.regions(), chrom, left, right) == Seq::<u32>::empty(),
{
    lemma_unknown_chrom_empty(f.regions(), f.cat(), chrom, left, right);
}

/// One histogram row over one region's reconstructed values: bins of width
/// 1 keyed by the value, labels from `min` up to `max`, plus the counters
/// for values below `min` and at or above `max`.
pub fn histogram_of(values: &Vec<i32>, min: i32, max: i32) -> (row: (Vec<(i32, u32)>, u32, u32))
    requires
        min <= max,
        values@.len() <= u32::MAX,
    ensures
        row_summarises(row, values@, min, max),
{
    let mut h = Histogram::new(min, max);
    let mut i: usize = 0;
    while i < values.len()
        invariant
            0 <= i <= values@.len(),
            values@.len() <= u32::MAX,
            h.wf(),
            h.min == min,
            h.max == max,
            h.n == i,
            h.summarises(values@.take(i as int)),
        decreases values@.len() - i,
    {
        let ghost before = values@.take(i as int);
        h.record(values[i]);
        proof {
            assert(values@.take(i + 1) =~= before.push(values@[i as int]));
        }
        i = i + 1;
    }
    proof {
        assert(values@.take(values@.len() as int) =~= values@);
    }
    h.into_rows()
}

/// The forward-only cursor of a point query: walks the partitions in
/// order, inside each one the positions of the clipped span in increasing
/// order. Each step names the partition the position lies on, so the
/// caller can hand the position to that partition's own decoder.
pub struct D4Iter {
    pub parts: Vec<PartInfo>,
    pub chrom: String,
    pub left: u32,
    pub right: u32,
    pub idx: usize,
    pub pos: u32,
}

impl D4Iter {
    /// The spans of the partitions the cursor walks.
    pub open spec fn regions(self) -> Seq<PartRegion> {
        regions_of(self.parts@)
    }

    /// The cursor points at a partition or one past the last.
    pub open spec fn wf(self) -> bool {
        self.idx <= self.parts@.len()
    }

    /// The positions the cursor has yet to yield, in order: the rest of
    /// the current partition's clipped span, then every later partition's
    /// contribution.
    pub open spec fn remaining(self) -> Seq<u32> {
        if self.idx >= self.parts@.len() {
            Seq::empty()
        } else {
            part_rest(
                self.regions()[self.idx as int],
                self.chrom@,
                self.left,
                self.right,
                self.pos,
            ) + positions(
                self.regions().skip(self.idx as int + 1),
                self.chrom@,
                self.left,
                self.right,
            )
        }
    }

    /// Advance the cursor: the next position of the query and the index of
    /// the partition it lies on, or nothing once every position has been
    /// yielded. The position always lies inside that partition's own span,
    /// on the queried chromosome.
    pub fn next(&mut self) -> (r: Option<(usize, u32)>)
        requires
            old(self).wf(),
        ensures
            final(self).wf(),
            final(self).parts@ == old(self).parts@,
            final(self).chrom@ == old(self).chrom@,
            final(self).left == old(self).left,
            final(self).right == old(self).right,
            old(self).remaining().len() == 0 ==> r is None && final(self).remaining()
                == old(self).remaining(),
            old(self).remaining().len() > 0 ==> {
                &&& r matches Some(pr)
                &&& pr.1 == old(self).remaining()[0]
                &&& final(self).remaining() == old(self).remaining().drop_first()
                &&& pr.0 < old(self).parts@.len()
                &&& old(self).regions()[pr.0 as int].0 == old(self).chrom@
                &&& old(self).regions()[pr.0 as int].1 <= pr.1 < old(self).regions()[pr.0 as int].2
            },
    {
        while self.idx < self.parts.len()
            invariant
                self.wf(),
                self.parts@ == old(self).parts@,
                self.chrom@ == old(self).chrom@,
                self.left == old(self).left,
                self.right == old(self).right,
                self.remaining() == old(self).remaining(),
            decreases self.parts@.len() - self.idx,
        {
            let i = self.idx;
            let name_matches = self.parts[i].chrom == self.chrom;
            let b = self.parts[i].begin;
            let e = self.parts[i].end;
            let lo0 = if self.left > b {
                self.left
            } else {
                b
            };
            let lo = if self.pos > lo0 {
                self.pos
            } else {
                lo0
            };
            let hi = if self.right < e {
                self.right
            } else {
                e
            };
            proof {
                assert(self.regions()[i as int] == (
                    self.parts@[i as int].chrom@,
                    self.parts@[i as int].begin,
                    self.parts@[i as int].end,
                ));
            }
            if name_matches && lo < hi {
                let ghost pre = *self;
                self.pos = lo + 1;
                proof {
                    lemma_iter_yield(pre, *self, lo, hi);
                }
                return Some((i, lo));
            }
            let ghost pre = *self;
            self.idx = i + 1;
            self.pos = 0;
            proof {
                lemma_iter_skip(pre, *self);
            }
        }
        proof {
            assert(self.remaining() == Seq::<u32>::empty());
        }
        None
    }
}

/// A cursor standing at the very start sees exactly the whole query.
proof fn lemma_iter_fresh(it: D4Iter, regs: Seq<PartRegion>)
    requires
        it.idx == 0,
        it.pos == 0,
        it.regions() == regs,
    ensures
        it.remaining() == positions(regs, it.chrom@, it.left, it.right),
{
    let c = it.chrom@;
    let l = it.left;
    let r = it.right;
    if regs.len() == 0 {
        assert(it.remaining() =~= positions(regs, c, l, r));
    } else {
        assert(part_rest(regs[0], c, l, r, 0) == part_positions(regs[0], c, l, r));
        assert(regs.skip(1) =~= regs.drop_first());
        assert(it.remaining() =~= positions(regs, c, l, r));
    }
}

/// Stepping past a partition that contributes nothing leaves the
/// remaining positions unchanged.
proof fn lemma_iter_skip(pre: D4Iter, post: D4Iter)
    requires
        pre.idx < pre.parts@.len(),
        part_rest(
            pre.regions()[pre.idx as int],
            pre.chrom@,
            pre.left,
            pre.right,
            pre.pos,
        ) == Seq::<u32>::empty(),
        post.parts@ == pre.parts@,
        post.chrom@ == pre.chrom@,
        post.left == pre.left,
        post.right == pre.right,
        post.idx == pre.idx + 1,
        post.pos == 0,
    ensures
        post.remaining() == pre.remaining(),
{
    let regs = pre.regions();
    let c = pre.chrom@;
    let l = pre.left;
    let r = pre.right;
    let i = pre.idx as int;
    if i + 1 < regs.len() {
        lemma_positions_skip_unfold(regs, c, l, r, i + 1);
        assert(part_rest(regs[i + 1], c, l, r, 0) == part_positions(regs[i + 1], c, l, r));
        assert(post.remaining() =~= positions(regs.skip(i + 1), c, l, r));
        assert(pre.remaining() =~= positions(regs.skip(i + 1), c, l, r));
    } else {
        assert(regs.skip(i + 1) =~= Seq::<PartRegion>::empty());
        assert(pre.remaining() =~= Seq::<u32>::empty());
        assert(post.remaining() =~= Seq::<u32>::empty());
    }
}

/// Yielding the first remaining position advances the cursor by exactly
/// that position.
proof fn lemma_iter_yield(pre: D4Iter, post: D4Iter, lo: u32, hi: u32)
    requires
        pre.idx < pre.parts@.len(),
        pre.regions()[pre.idx as int].0 == pre.chrom@,
        lo as int == max2(
            max2(pre.left as int, pre.regions()[pre.idx as int].1 as int),
            pre.pos as int,
        ),
        hi as int == min2(pre.right as int, pre.regions()[pre.idx as int].2 as int),
        lo < hi,
        post.parts@ == pre.parts@,
        post.chrom@ == pre.chrom@,
        post.left == pre.left,
        post.right == pre.right,
        post.idx == pre.idx,
        post.pos == lo + 1,
    ensures
        pre.remaining().len() > 0,
        pre.remaining()[0] == lo,
        post.remaining() == pre.remaining().drop_first(),
        pre.regions()[pre.idx as int].1 <= lo < pre.regions()[pre.idx as int].2,
{
    let regs = pre.regions();
    let c = pre.chrom@;
    let l = pre.left;
    let r = pre.right;
    let i = pre.idx as int;
    let reg = regs[i];
    let rest = positions(regs.skip(i + 1), c, l, r);
    assert(part_rest(reg, c, l, r, pre.pos) == range_seq(lo as int, hi as int));
    assert(range_seq(lo as int, hi as int)[0] == lo);
    assert(pre.remaining()[0] == lo);
    assert(part_rest(reg, c, l, r, post.pos) == range_seq(lo as int + 1, hi as int));
    assert(range_seq(lo as int, hi as int).drop_first() =~= range_seq(lo as int + 1, hi as int));
    assert(pre.remaining().drop_first() =~= range_seq(lo as int + 1, hi as int) + rest);
    assert(post.remaining() =~= pre.remaining().drop_first());
}

/// Whether every partition names a chromosome the catalog lists.
fn partitions_named(catalog: &Vec<ChromEntry>, partitions: &Vec<PartInfo>) -> (b: bool)
    ensures
        b == names_in(regions_of(partitions@), cat_view(catalog@)),
{
    let ghost regs = regions_of(partitions@);
    let ghost cat = cat_view(catalog@);
    let mut j: usize = 0;
    while j < partitions.len()
        invariant
            0 <= j <= partitions@.len(),
            regs == regions_of(partitions@),
            cat == cat_view(catalog@),
            forall|k: int| 0 <= k < j ==> cat_has(cat, (#[trigger] regs[k]).0),
        decreases partitions@.len() - j,
    {
        proof {
            lemma_cat_lookup_has(cat, regs[j as int].0);
        }
        if find_size(catalog, &partitions[j].chrom).is_none() {
            proof {
                assert(!cat_has(cat, regs[j as int].0));
            }
            return false;
        }
        j = j + 1;
    }
    true
}

/// Whether the partitions of each listed chromosome tile `[0, size)`.
fn file_covered(catalog: &Vec<ChromEntry>, partitions: &Vec<PartInfo>) -> (b: bool)
    requires
        cat_sane(cat_view(catalog@)),
    ensures
        b == forall|i: int|
            0 <= i < cat_view(catalog@).len() ==> covers_from(
                regions_of(partitions@),
                (#[trigger] cat_view(catalog@)[i]).0,
                0,
                cat_view(catalog@)[i].1 as u32,
            ),
{
    let ghost regs = regions_of(partitions@);
    let ghost cat = cat_view(catalog@);
    let mut i: usize = 0;
    while i < catalog.len()
        invariant
            0 <= i <= catalog@.len(),
            regs == regions_of(partitions@),
            cat == cat_view(catalog@),
            cat_sane(cat),
            forall|k: int|
                0 <= k < i ==> covers_from(regs, (#[trigger] cat[k]).0, 0, cat[k].1 as u32),
        decreases catalog@.len() - i,
    {
        let size32 = catalog[i].size as u32;
        proof {
            assert(cat[i as int].1 <= u32::MAX);
            assert(regs.skip(0) =~= regs);
        }
        if !check_covers(partitions, 0, &catalog[i].name, 0, size32) {
            return false;
        }
        i = i + 1;
    }
    true
}

/// Whether the partitions from index `j` on, restricted to `name`, tile
/// `[from, size32)` contiguously and in order.
fn check_covers(
    partitions: &Vec<PartInfo>,
    j: usize,
    name: &String,
    from: u32,
    size32: u32,
) -> (b: bool)
    requires
        j <= partitions@.len(),
    ensures
        b == covers_from(regions_of(partitions@).skip(j as int), name@, from, size32),
    decreases partitions@.len() - j,
{
    let ghost regs = regions_of(partitions@);
    if j == partitions.len() {
        proof {
            assert(regs.skip(j as int).len() == 0);
        }
        from == size32
    } else {
        proof {
            assert(regs.skip(j as int)[0] == regs[j as int]);
            assert(regs.skip(j as int).drop_first() =~= regs.skip(j as int + 1));
        }
        if partitions[j].chrom == *name {
            partitions[j].begin == from && partitions[j].begin <= partitions[j].end
                && check_covers(partitions, j + 1, name, partitions[j].end, size32)
        } else {
            check_covers(partitions, j + 1, name, from, size32)
        }
    }
}

} // verus!
