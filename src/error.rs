use vstd::prelude::*;
use crate::mapper::MapOp;

verus! {

/// std's `io::ErrorKind`, the category of an operating-system error, carried
/// through unread in `Errors::IOError`.
#[verifier::external_type_specification]
#[verifier::external_body]
pub struct ExErrorKind(std::io::ErrorKind);

/// Why a run stops.
#[derive(Debug)]
pub enum Errors {
    /// The root given (first) lacks the media folder (second).
    InvalidRoot(String, String),
    OutputDirectoryNotFound,
    OutputDirectoryNotEmpty,
    NoVideos,
    ValidationError(OpValidationResult),
    IOError(std::io::ErrorKind),
}

/// The verdict on a set of operations.
#[derive(Debug)]
pub enum OpValidationResult {
    Valid,
    /// The first pair found whose ranges overlap.
    OverlappingRange(MapOp, MapOp),
    /// No operation was defined.
    Empty,
}

} // verus!
