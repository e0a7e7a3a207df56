//! The failures that the protocol layer reports.
use vstd::prelude::*;

verus! {

/// What was wrong with an incoming frame.
#[derive(Clone, Copy, Debug, PartialEq, Eq, Structural)]
pub enum ParseFailure {
    /// The stream ended or failed before a complete frame arrived.
    NoFrame,
    /// The frame's bytes are not UTF-8 text.
    InvalidText,
    /// The field before the opcode is not a number from 0 to 255.
    InvalidAddress,
    /// The opcode does not occur in the reply, so there is no value field.
    MissingValue,
    /// The value field is not an `i32`.
    InvalidValue,
}

/// Which coded reply an integer failed to decode as.
#[derive(Clone, Copy, Debug, PartialEq, Eq, Structural)]
pub enum CodeKind {
    LedColor,
    MotorStatus,
    SafeModeStatus,
}

/// A reply that could not be parsed, with the opcode that was looked for and
/// the raw frame text. Both texts are empty for a frame that is not text.
#[derive(Clone, Debug, PartialEq)]
pub struct PacketParsingError {
    pub reason: ParseFailure,
    pub opcode: String,
    pub raw: String,
}

impl PacketParsingError {
    pub fn new(reason: ParseFailure, opcode: &str, raw: &str) -> (r: PacketParsingError)
        ensures
            r.reason == reason,
            r.opcode@ == opcode@,
            r.raw@ == raw@,
    {
        PacketParsingError { reason, opcode: opcode.to_owned(), raw: raw.to_owned() }
    }
}

/// Every failure of the protocol layer.
#[derive(Clone, Debug, PartialEq)]
pub enum LssDriverError {
    /// The serial port could not be opened.
    TransportOpenFailed,
    /// The serial port did not accept a command.
    SendFailed,
    /// No complete frame arrived in time.
    ReceiveTimeout,
    /// A frame arrived but its payload could not be read.
    PayloadParseError(PacketParsingError),
    /// A coded reply value outside the known range.
    UnrecognizedEnumValue { kind: CodeKind, value: i32 },
}

} // verus!
