//! Failures that the registry passes on from the backend.

use vstd::prelude::*;

verus! {

/// The ways in which the backend can fail a request. `E` is the backend's own
/// error, handed on as it came.
#[derive(Debug)]
pub enum TelemetryError<E> {
    /// The backend did not create the instrument that was asked for.
    BackendCreationFailure(E),
    /// The backend rejected an addition to an existing instrument.
    BackendAdditionFailure(E),
}

} // verus!
