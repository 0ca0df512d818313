use vstd::prelude::*;
use vstd::string::*;

verus! {

/// What can go wrong across the library; each variant names one failure.
#[derive(Debug, Clone, Copy, PartialEq, Eq, Structural)]
pub enum ErrorKind {
    /// No target process is attached.
    NotAttached,
    /// No signature candidate resolved to a plausible address.
    AnchorNotFound,
    /// The name pool's string offset has not been discovered yet.
    NamePoolUninitialised,
    /// An address or address string that cannot be used.
    InvalidAddress,
    /// A read of target memory failed.
    ReadFailed,
    /// A signature with no tokens.
    InvalidSignature,
    /// The size of the memory region could not be queried.
    RegionQueryFailed,
    /// The address is not in the catalog.
    CatalogMiss,
    /// A name record whose length is outside 1..=200.
    InvalidNameLength,
    /// A query ran before the object array was parsed.
    NotParsed,
}

impl ErrorKind {
    /// A human-readable message for the command surface.
    pub fn message(&self) -> (r: String) {
        let s = match self {
            ErrorKind::NotAttached => "No process attached",
            ErrorKind::AnchorNotFound => "Could not find the anchor with any of the known signatures",
            ErrorKind::NamePoolUninitialised => "Name pool string offset not initialized yet",
            ErrorKind::InvalidAddress => "Invalid address",
            ErrorKind::ReadFailed => "Failed to read memory",
            ErrorKind::InvalidSignature => "Invalid signature",
            ErrorKind::RegionQueryFailed => "Memory region query failed",
            ErrorKind::CatalogMiss => "Object not found",
            ErrorKind::InvalidNameLength => "Invalid name length",
            ErrorKind::NotParsed => "FNamePool not yet parsed. Please parse GUObjectArray first.",
        };
        String::from_str(s)
    }
}

} // verus!
