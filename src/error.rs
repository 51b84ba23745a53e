//! The ways exporting or importing a deck can fail.
use vstd::prelude::*;

verus! {

/// Why an export or an import did not complete.
#[derive(Clone, Debug, PartialEq)]
pub enum PortError {
    /// The archive's format version is not one this library reads.
    UnsupportedVersion { got: u32, supported: u32 },
    /// The archive holds no metadata document, or one that does not parse.
    MalformedMetadata { detail: String },
    /// A block references a blob that is not there: an archive entry absent
    /// from the archive, or a virtual path absent from the file store.
    MissingBlob { path: String },
    /// Reading or writing the archive or a blob failed.
    Io { detail: String },
    /// The deck and card repository failed.
    Store { detail: String },
}

} // verus!
