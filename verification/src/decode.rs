//! Per-position value reconstruction: combining the primary-table decode
//! with the secondary-table exception lookup.

use vstd::prelude::*;

verus! {

/// What the primary table says about one position.
///
/// `Definite(v)` means the primary table is authoritative: the value is `v`
/// and the secondary table must not be consulted. `Tentative(v)` means `v`
/// is a fallback that an exception record at the same position overrides.
pub enum DecodeOutcome {
    Definite(i32),
    Tentative(i32),
}

/// The true value at a position, given the primary outcome and the result of
/// the secondary-table lookup at exactly that position.
pub open spec fn reconstructed(primary: DecodeOutcome, exception: Option<i32>) -> i32 {
    match primary {
        DecodeOutcome::Definite(v) => v,
        DecodeOutcome::Tentative(v) => match exception {
            Some(e) => e,
            None => v,
        },
    }
}

/// Combine a primary decode with the secondary lookup for the same position.
///
/// A definite primary value stands regardless of the secondary table; a
/// tentative one is overridden by an exception when one exists and stands
/// otherwise.
pub fn reconstruct(primary: DecodeOutcome, exception: Option<i32>) -> (v: i32)
    ensures
        v == reconstructed(primary, exception),
        primary matches DecodeOutcome::Definite(x) ==> v == x,
        exception is None ==> (primary matches DecodeOutcome::Tentative(x) ==> v == x),
        exception matches Some(e) ==> (primary matches DecodeOutcome::Tentative(x) ==> v == e),
{
    match primary {
        DecodeOutcome::Definite(v) => v,
        DecodeOutcome::Tentative(v) => match exception {
            Some(e) => e,
            None => v,
        },
    }
}

} // verus!
