use vstd::prelude::*;

verus! {

/// The failures the merge core can signal.
///
/// `InvalidInput` and `SerializationFailure` arise at the codec boundary
/// (a part's bytes do not parse; finalizing the output buffer fails) and are
/// produced by the unverified adapter around this library. `NotFound` comes
/// from the part store when a requested slot was never written, and
/// `DefinitionConflict` from the merge engine when a definition cannot be
/// added to the destination schema.
#[derive(Clone, Copy, PartialEq, Eq, Structural, Debug)]
pub enum MergeError {
    InvalidInput,
    NotFound,
    DefinitionConflict,
    SerializationFailure,
}

} // verus!
