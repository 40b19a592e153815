//! The errors of the library.
use vstd::prelude::*;

verus! {

/// What went wrong.
#[derive(Clone, Debug, PartialEq, Eq)]
pub enum Error {
    /// The sector size or partition count is out of range.
    ConfigMismatch,
    /// A buffer does not have the size that the sector asks for.
    DataSizeMismatch,
    /// Bytes that should encode a field element do not do so canonically.
    FieldEncoding,
    /// A proof does not have the length that its partitions ask for.
    MalformedProof,
    /// A proof that was just produced does not verify.
    InternalConsistency,
    /// A sector could not be accessed; faulted sectors are not proved.
    FaultsUnsupported,
    /// The proving backend failed, with its message.
    Backend(String),
}

} // verus!
