//! The error taxonomy of the library: every failure a query can report.

use vstd::prelude::*;

verus! {

/// Why an operation on a D4 file failed.
///
/// `NotFound` carries the chromosome name that was asked for but is absent
/// from the file's catalog; it is raised at region-resolution time, before
/// any decoding starts. `InvalidRegionSpec` reports a region description
/// whose shape could not be understood. `Io` reports that the underlying
/// file could not be opened or its header could not be parsed.
#[derive(Debug)]
pub enum D4Error {
    NotFound(String),
    InvalidRegionSpec,
    Io(String),
}

impl D4Error {
    /// A short human-readable description of the failure.
    pub fn describe(&self) -> (r: String)
        ensures
            self is NotFound ==> r@ == "chromosome not found"@,
            self is InvalidRegionSpec ==> r@ == "invalid range spec"@,
            self is Io ==> r@ == "i/o failure"@,
    {
        match self {
            D4Error::NotFound(_) => "chromosome not found".to_owned(),
            D4Error::InvalidRegionSpec => "invalid range spec".to_owned(),
            D4Error::Io(_) => "i/o failure".to_owned(),
        }
    }
}

} // verus!
