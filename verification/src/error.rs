//! Failures reported by the index engine.

use crate::format::{decimal, decimal_text};
use vstd::prelude::*;
use vstd::string::StringExecFns;

verus! {

/// A typed failure of the index engine. The engine never retries and never
/// drops an error: every failure reaches the caller as one of these.
#[derive(Debug, Clone, Copy, PartialEq, Eq, Structural)]
pub enum IndexError {
    /// A sector address exceeds what the largest compressed-address class holds.
    AddressTooLarge { address: u64 },
    /// Fewer bytes are available than the header of a compressed address demands.
    TruncatedInput,
    /// A persisted index is malformed; `record_offset` is the byte offset of
    /// the segment record at which the fault was found.
    CorruptIndex { record_offset: usize },
    /// The device source failed while reading at `byte_offset`.
    DeviceReadError { byte_offset: u64 },
}

impl IndexError {
    /// The one-line diagnostic of the failure: the operation that failed,
    /// and the address that it failed at.
    pub open spec fn message(self) -> Seq<char> {
        match self {
            IndexError::AddressTooLarge { address } => "cannot encode sector address "@ + decimal(
                address as nat,
            ) + ": it exceeds the largest compressed address"@,
            IndexError::TruncatedInput =>
                "cannot decode a sector address: the input ends within it"@,
            IndexError::CorruptIndex { record_offset } =>
                "cannot read the index: the record at byte "@ + decimal(record_offset as nat)
                    + " is malformed"@,
            IndexError::DeviceReadError { byte_offset } => "cannot read the device at byte "@
                + decimal(byte_offset as nat),
        }
    }

    /// The one-line diagnostic of the failure.
    pub fn describe(&self) -> (text: String)
        ensures
            text@ == self.message(),
    {
        match self {
            IndexError::AddressTooLarge { address } => String::from_str(
                "cannot encode sector address ",
            ).concat(decimal_text(*address).as_str()).concat(
                ": it exceeds the largest compressed address",
            ),
            IndexError::TruncatedInput => String::from_str(
                "cannot decode a sector address: the input ends within it",
            ),
            IndexError::CorruptIndex { record_offset } => String::from_str(
                "cannot read the index: the record at byte ",
            ).concat(decimal_text(*record_offset as u64).as_str()).concat(" is malformed"),
            IndexError::DeviceReadError { byte_offset } => String::from_str(
                "cannot read the device at byte ",
            ).concat(decimal_text(*byte_offset).as_str()),
        }
    }
}

} // verus!
