use vstd::prelude::*;

verus! {

/// Errors raised by the BES link protocol logic.
#[derive(Debug, Clone, PartialEq, Eq)]
pub enum BESLinkError {
    /// An argument, a reply or a blob did not have the expected shape.
    InvalidArgs,
    /// A received packet whose last byte is not the checksum of the rest.
    BadChecksumError { failed_packet: Vec<u8>, got: u8, wanted: u8 },
    /// A reply whose status code is not the one that was expected.
    BadResponseCode { failed_packet: Vec<u8>, got: u8, wanted: u8 },
}

} // verus!
