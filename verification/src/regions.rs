//! Region specifications and their resolution against the catalog.

use vstd::prelude::*;

use crate::catalog::cat_has;
use crate::catalog::cat_lookup;
use crate::catalog::cat_view;
use crate::catalog::find_size;
use crate::catalog::ChromEntry;
use crate::errors::D4Error;

verus! {

/// A caller-supplied region description, before resolution.
///
/// `Whole(c)` asks for all of chromosome `c`; `From(c, b)` for `[b, size)`;
/// `Span(c, b, e)` for the explicit half-open span `[b, e)`.
#[derive(Clone)]
pub enum RegionSpec {
    Whole(String),
    From(String, u32),
    Span(String, u32, u32),
}

/// A region resolved against the catalog: explicit half-open bounds on a
/// named chromosome. An explicit end beyond the chromosome's extent is
/// tolerated here; partition clipping trims it later.
pub struct ResolvedRegion {
    pub chrom: String,
    pub begin: u32,
    pub end: u32,
}

impl RegionSpec {
    /// The chromosome name the spec refers to.
    pub open spec fn spec_name(self) -> Seq<char> {
        match self {
            RegionSpec::Whole(c) => c@,
            RegionSpec::From(c, _) => c@,
            RegionSpec::Span(c, _, _) => c@,
        }
    }
}

/// What resolution produces when the name is present in the catalog with
/// the given size: missing bounds default to 0 and to the chromosome's full
/// length (truncated to the 32-bit position space the format uses).
pub open spec fn spec_resolved(rs: RegionSpec, size: usize) -> (Seq<char>, u32, u32) {
    match rs {
        RegionSpec::Whole(c) => (c@, 0u32, size as u32),
        RegionSpec::From(c, b) => (c@, b, size as u32),
        RegionSpec::Span(c, b, e) => (c@, b, e),
    }
}

/// The view of a resolved region.
pub open spec fn resolved_view(r: ResolvedRegion) -> (Seq<char>, u32, u32) {
    (r.chrom@, r.begin, r.end)
}

/// Resolve one region spec against the catalog.
///
/// Fails with `NotFound`, carrying the offending name, exactly when the
/// catalog has no entry with that name; otherwise fills the missing bounds
/// from the catalog entry.
pub fn resolve(rs: &RegionSpec, catalog: &Vec<ChromEntry>) -> (r: Result<
    ResolvedRegion,
    D4Error,
>)
    ensures
        r matches Ok(rr) ==> {
            &&& cat_lookup(cat_view(catalog@), rs.spec_name()) matches Some(size)
                && resolved_view(rr) == spec_resolved(*rs, size)
            &&& cat_has(cat_view(catalog@), rs.spec_name())
        },
        r matches Err(e) ==> {
            &&& cat_lookup(cat_view(catalog@), rs.spec_name()) is None
            &&& !cat_has(cat_view(catalog@), rs.spec_name())
            &&& e matches D4Error::NotFound(n) && n@ == rs.spec_name()
        },
{
    proof {
        crate::catalog::lemma_cat_lookup_has(cat_view(catalog@), rs.spec_name());
    }
    let name: &String = match rs {
        RegionSpec::Whole(c) => c,
        RegionSpec::From(c, _) => c,
        RegionSpec::Span(c, _, _) => c,
    };
    let size = match find_size(catalog, name) {
        Some(size) => size,
        None => {
            return Err(D4Error::NotFound(name.clone()));
        },
    };
    match rs {
        RegionSpec::Whole(c) => Ok(
            ResolvedRegion { chrom: c.clone(), begin: 0, end: size as u32 },
        ),
        RegionSpec::From(c, b) => Ok(
            ResolvedRegion { chrom: c.clone(), begin: *b, end: size as u32 },
        ),
        RegionSpec::Span(c, b, e) => Ok(ResolvedRegion { chrom: c.clone(), begin: *b, end: *e }),
    }
}

} // verus!
