//! Random-access reading and statistical aggregation over a per-base numeric
//! signal stored in the two-tier D4 encoding: a dense primary table gives a
//! fast per-position decode, and a sparse secondary table overrides the rare
//! positions the primary encoding cannot represent.

use vstd::prelude::*;

mod catalog;
mod counts;
mod decode;
mod errors;
mod hist;
mod parts;
mod regions;

pub use catalog::ChromEntry;
pub use decode::reconstruct;
pub use decode::DecodeOutcome;
pub use errors::D4Error;
pub use hist::Histogram;
pub use regions::resolve;
pub use regions::RegionSpec;
pub use regions::ResolvedRegion;

mod file;

pub use file::D4File;
pub use file::D4Iter;
pub use file::PartInfo;
pub use file::histogram_of;

