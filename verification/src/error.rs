use vstd::prelude::*;

verus! {

/// Failures of the container codec.
///
/// Every structural violation of the binary layout is fatal to the current
/// operation: there is no degraded or partial-result mode.
#[derive(Clone, Copy, Debug, PartialEq, Eq, Structural)]
pub enum CpkError {
    /// A packet or table did not start with the expected magic tag.
    BadMagic,
    /// The fixed little-endian marker after a packet tag was not 0xFF,
    /// or a mirrored little/big-endian field pair disagreed.
    BadMarker,
    /// A column flags byte carried an unknown type tag or storage mode.
    BadFlags,
    /// A value's kind did not match the declared column type.
    TypeMismatch,
    /// A required column was looked up by name and was not there.
    MissingColumn,
    /// A column was added under a name that is already taken.
    DuplicateColumn,
    /// A table row referenced a file id with no matching input file.
    MissingFile,
    /// A read or write fell outside the buffer, or a compressed stream
    /// ran its backward cursor below the valid region.
    OutOfBounds,
    /// A size or offset does not fit the field that must carry it.
    TooLarge,
    /// Nested tables are read-capable only; encoding one is not supported,
    /// and nesting deeper than the fixed recursion budget is refused.
    Unsupported,
}

impl CpkError {
    /// A short human-readable description of the error.
    pub fn describe(&self) -> (r: &'static str)
        ensures
            r@.len() > 0,
    {
        proof {
            reveal_strlit("bad magic");
            reveal_strlit("bad marker");
            reveal_strlit("bad column flags");
            reveal_strlit("value kind does not match column type");
            reveal_strlit("missing column");
            reveal_strlit("duplicate column");
            reveal_strlit("missing input file");
            reveal_strlit("out of bounds");
            reveal_strlit("size does not fit");
            reveal_strlit("unsupported");
        }
        match self {
            CpkError::BadMagic => "bad magic",
            CpkError::BadMarker => "bad marker",
            CpkError::BadFlags => "bad column flags",
            CpkError::TypeMismatch => "value kind does not match column type",
            CpkError::MissingColumn => "missing column",
            CpkError::DuplicateColumn => "duplicate column",
            CpkError::MissingFile => "missing input file",
            CpkError::OutOfBounds => "out of bounds",
            CpkError::TooLarge => "size does not fit",
            CpkError::Unsupported => "unsupported",
        }
    }
}

} // verus!
