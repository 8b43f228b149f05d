//! Turning the outcome of the one catalog fetch into a catalog or an error.

use vstd::prelude::*;
use crate::codec::{catalog_of_bytes, decode_catalog, opt_catalog_view};
use crate::model::Catalog;

verus! {

/// Status of a fetch that succeeded.
pub const FETCH_OK_STATUS: u16 = 200;

/// Why no catalog could be loaded.
#[derive(PartialEq, Eq, Structural, Clone, Copy, Debug)]
pub enum LoadError {
    /// The fetch failed or answered with another status than success.
    SourceUnavailable,
    /// The fetched bytes are not an encoded catalog.
    DecodeError,
}

/// The catalog held in a fetch's body: `SourceUnavailable` unless the
/// fetch answered with success, `DecodeError` where the body is not a
/// well-formed catalog record.
pub fn catalog_from_fetch(status: u16, body: &[u8]) -> (r: Result<Catalog, LoadError>)
    ensures
        status != FETCH_OK_STATUS ==> r == Err::<Catalog, LoadError>(LoadError::SourceUnavailable),
        status == FETCH_OK_STATUS ==> match r {
            Ok(c) => catalog_of_bytes(body@) == Some(c@),
            Err(e) => e == LoadError::DecodeError && catalog_of_bytes(body@) is None,
        },
{
    if status != FETCH_OK_STATUS {
        return Err(LoadError::SourceUnavailable);
    }
    match decode_catalog(body) {
        Some(c) => Ok(c),
        None => Err(LoadError::DecodeError),
    }
}

} // verus!
