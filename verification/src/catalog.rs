//! The chromosome catalog: the ordered (name, size) list from the file
//! header, loaded once per open file and read-only afterwards.

use vstd::prelude::*;

verus! {

/// One catalog entry: a chromosome name and its length in bases.
pub struct ChromEntry {
    pub name: String,
    pub size: usize,
}

/// The mathematical view of a catalog: the ordered sequence of
/// (name, size) pairs.
pub open spec fn cat_view(cat: Seq<ChromEntry>) -> Seq<(Seq<char>, usize)> {
    cat.map_values(|e: ChromEntry| (e.name@, e.size))
}

/// Whether a catalog holds an entry with the given name.
pub open spec fn cat_has(cat: Seq<(Seq<char>, usize)>, name: Seq<char>) -> bool {
    exists|i: int| 0 <= i < cat.len() && cat[i].0 == name
}

/// The size recorded for the first entry with the given name, if any.
pub open spec fn cat_lookup(cat: Seq<(Seq<char>, usize)>, name: Seq<char>) -> Option<usize>
    decreases cat.len(),
{
    if cat.len() == 0 {
        None
    } else if cat[0].0 == name {
        Some(cat[0].1)
    } else {
        cat_lookup(cat.drop_first(), name)
    }
}

/// A name is found exactly when some entry carries it.
pub proof fn lemma_cat_lookup_has(cat: Seq<(Seq<char>, usize)>, name: Seq<char>)
    ensures
        cat_lookup(cat, name) is Some <==> cat_has(cat, name),
    decreases cat.len(),
{
    if cat.len() > 0 {
        lemma_cat_lookup_has(cat.drop_first(), name);
        if cat[0].0 == name {
            assert(cat_has(cat, name));
        } else {
            if cat_has(cat.drop_first(), name) {
                let i = choose|i: int|
                    0 <= i < cat.drop_first().len() && cat.drop_first()[i].0 == name;
                assert(cat[i + 1].0 == name);
            }
            if cat_has(cat, name) {
                let i = choose|i: int| 0 <= i < cat.len() && cat[i].0 == name;
                assert(cat.drop_first()[i - 1].0 == name);
            }
        }
    }
}

/// The catalog shapes this library accepts at open time: chromosome names
/// are distinct, and every size fits the 32-bit position space the D4
/// partition layout uses.
pub open spec fn cat_sane(cat: Seq<(Seq<char>, usize)>) -> bool {
    &&& forall|i: int, k: int| 0 <= i < k < cat.len() ==> cat[i].0 != cat[k].0
    &&& forall|i: int| 0 <= i < cat.len() ==> cat[i].1 <= u32::MAX
}

/// In a sane catalog, looking a name up finds the entry that carries it.
pub proof fn lemma_cat_lookup_unique(cat: Seq<(Seq<char>, usize)>, i: int)
    requires
        cat_sane(cat),
        0 <= i < cat.len(),
    ensures
        cat_lookup(cat, cat[i].0) == Some(cat[i].1),
    decreases cat.len(),
{
    if i == 0 {
    } else {
        assert(cat[0].0 != cat[i].0);
        assert(cat_sane(cat.drop_first())) by {
            assert(forall|a: int, b: int|
                0 <= a < b < cat.drop_first().len() ==> cat.drop_first()[a] == cat[a + 1]
                    && cat.drop_first()[b] == cat[b + 1]);
        }
        assert(cat.drop_first()[i - 1] == cat[i]);
        lemma_cat_lookup_unique(cat.drop_first(), i - 1);
    }
}

/// Whether the catalog meets `cat_sane`: names distinct, sizes within the
/// 32-bit position space.
pub fn catalog_supported(catalog: &Vec<ChromEntry>) -> (b: bool)
    ensures
        b == cat_sane(cat_view(catalog@)),
{
    let ghost cat = cat_view(catalog@);
    let mut i: usize = 0;
    while i < catalog.len()
        invariant
            0 <= i <= catalog.len(),
            cat == cat_view(catalog@),
            forall|a: int, b: int| 0 <= a < b < cat.len() && a < i ==> cat[a].0 != cat[b].0,
            forall|a: int| 0 <= a < i ==> cat[a].1 <= u32::MAX,
        decreases catalog.len() - i,
    {
        if catalog[i].size > u32::MAX as usize {
            proof {
                assert(cat[i as int].1 > u32::MAX);
            }
            return false;
        }
        let mut k: usize = i + 1;
        while k < catalog.len()
            invariant
                i < k <= catalog.len(),
                cat == cat_view(catalog@),
                forall|b: int| i < b < k ==> cat[i as int].0 != cat[b].0,
            decreases catalog.len() - k,
        {
            if catalog[i].name == catalog[k].name {
                proof {
                    assert(cat[i as int].0 == cat[k as int].0);
                }
                return false;
            }
            k = k + 1;
        }
        i = i + 1;
    }
    true
}

/// Find the first catalog entry with the given name and return its size.
pub fn find_size(catalog: &Vec<ChromEntry>, name: &String) -> (r: Option<usize>)
    ensures
        r == cat_lookup(cat_view(catalog@), name@),
{
    let ghost cat = cat_view(catalog@);
    proof {
        assert(cat.skip(0) =~= cat);
    }
    let mut i: usize = 0;
    while i < catalog.len()
        invariant
            0 <= i <= catalog.len(),
            cat == cat_view(catalog@),
            cat_lookup(cat, name@) == cat_lookup(cat.skip(i as int), name@),
        decreases catalog.len() - i,
    {
        proof {
            assert(cat.skip(i as int)[0] == cat[i as int]);
        }
        if catalog[i].name == *name {
            proof {
                assert(cat[i as int] == (catalog@[i as int].name@, catalog@[i as int].size));
            }
            return Some(catalog[i].size);
        }
        proof {
            assert(cat.skip(i as int).drop_first() =~= cat.skip(i + 1));
        }
        i = i + 1;
    }
    proof {
        assert(cat.skip(i as int).len() == 0);
    }
    None
}

} // verus!
