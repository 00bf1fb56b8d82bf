use vstd::prelude::*;

verus! {

/// Why an operation on a device or on its register window failed.
#[derive(Clone, Copy, Debug, PartialEq, Eq, Structural)]
pub enum DeviceError {
    /// Fewer bytes were available than a fixed-size record needs.
    ShortRead,
    /// The vendor and device ids are not those of the supported GPU.
    UnexpectedDevice,
    /// The capabilities pointer holds the "none" sentinel.
    NoCapabilities,
    /// The capability chain did not end within the bound that the size of
    /// configuration space allows, so it loops.
    MalformedCapabilityChain,
    /// A line of the resource table or of the region listing is malformed.
    ParseError,
    /// The boot register reads all-ones, or two mappings disagree on it.
    SanityCheckFailed,
    /// An access would reach past the end of the mapped window.
    OutOfRange,
    /// A resource could not be opened, sought, read or mapped.
    IoError,
}

impl DeviceError {
    /// A short description of the failure, for messages.
    pub fn message(&self) -> (text: &'static str)
        ensures
            text@ == self.spec_message()@,
    {
        match self {
            DeviceError::ShortRead => "short read",
            DeviceError::UnexpectedDevice => "invalid device found",
            DeviceError::NoCapabilities => "no capabilities found",
            DeviceError::MalformedCapabilityChain => "capability chain does not end",
            DeviceError::ParseError => "malformed line",
            DeviceError::SanityCheckFailed => "sanity check failed",
            DeviceError::OutOfRange => "access out of range",
            DeviceError::IoError => "i/o error",
        }
    }

    /// The text that [`DeviceError::message`] returns.
    pub open spec fn spec_message(&self) -> &'static str {
        match self {
            DeviceError::ShortRead => "short read",
            DeviceError::UnexpectedDevice => "invalid device found",
            DeviceError::NoCapabilities => "no capabilities found",
            DeviceError::MalformedCapabilityChain => "capability chain does not end",
            DeviceError::ParseError => "malformed line",
            DeviceError::SanityCheckFailed => "sanity check failed",
            DeviceError::OutOfRange => "access out of range",
            DeviceError::IoError => "i/o error",
        }
    }
}

} // verus!
