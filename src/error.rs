use vstd::prelude::*;

verus! {

/// Everything that can go wrong while reading captures or decoding packets.
#[derive(Debug, Clone, Copy, PartialEq, Eq, Structural)]
pub enum ProtocolError {
    /// A capture row whose time or byte field does not parse.
    MalformedRow,
    /// A packet too short to hold the fields that were asked for.
    TruncatedPacket,
    /// The stored checksum differs from the computed one.
    InvalidChecksum,
    /// A prefix or id byte that names no known command.
    UnrecognizedCommand(u8),
    /// A change-height direction byte that is neither up nor down.
    UnrecognizedChangeHeightCommand(u8),
    /// A report-height sub-command other than the known one.
    UnrecognizedReportHeightCommand(u8),
    /// A motion byte that is neither stop nor start.
    UnrecognizedMoveState(u8),
    /// A response or status byte with no known meaning.
    UnrecognizedResponseState(u8),
}

} // verus!
