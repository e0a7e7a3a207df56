//! Host-side protocol layer for serial-bus servos that speak a line-oriented
//! ASCII command/response protocol: the frame codec, command rendering,
//! response parsing, the decoding of coded reply values, and the decisions of
//! the transport session.

use vstd::prelude::*;

mod codec;
mod command;
mod error;
mod message_types;
mod response;
mod session;
mod text;

pub use codec::{
    buffer_contents, first_delimiter_at, frame_decoded, holds_no_delimiter, lemma_codec_round_trip,
    lemma_frames_one_at_a_time, lemma_partial_frame, LssCodec, FRAME_DELIMITER,
};
pub use command::{
    command_text, is_wire_text, lemma_command_text_is_frame, modifiers_text, CommandModifier,
    LssCommand,
};
pub use error::{CodeKind, LssDriverError, PacketParsingError, ParseFailure};
pub use message_types::{
    clamped_flags, flags_sum, LedBlinking, LedColor, Model, MotorStatus, SafeModeStatus,
    MAX_BLINKING,
};
pub use response::{
    fields, find_from, frame_body, lemma_reply_round_trip, parse_failure, reply_text,
    separate_result, separate_string_result, value_only_result, LssResponse,
};
pub use session::{receive_result, Delivery};
pub use text::{
    all_digits, byte_value, decimal, digit_char, digit_value, digits_value, is_digit,
    lemma_signed_decimal_round_trip, signed_decimal, signed_value,
};

verus! {

/// The address that reaches every servo on the bus at once; such commands get no reply.
pub const BROADCAST_ID: u8 = 254;

} // verus!
