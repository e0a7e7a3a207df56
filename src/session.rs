//! The decisions of the transport session; the port, the timer and the
//! waiting belong to the caller.
use vstd::prelude::*;

use crate::error::{LssDriverError, PacketParsingError, ParseFailure};
use crate::response::{parse_failure, LssResponse};

verus! {

/// How waiting for the next frame ended.
pub enum Delivery {
    /// The timeout expired first. Bytes already buffered stay buffered.
    TimedOut,
    /// The stream ended, or reading from it failed, first.
    Interrupted,
    /// The codec produced a frame, or failed to decode one.
    Frame(Result<LssResponse, LssDriverError>),
}

/// The result of a `receive` that ended as `delivery` says.
pub fn receive_result(delivery: Delivery) -> (r: Result<LssResponse, LssDriverError>)
    ensures
        delivery is TimedOut ==> r == Err::<LssResponse, LssDriverError>(
            LssDriverError::ReceiveTimeout,
        ),
        delivery is Interrupted ==> (r matches Err(e) && parse_failure(
            e,
            ParseFailure::NoFrame,
            Seq::empty(),
            Seq::empty(),
        )),
        delivery matches Delivery::Frame(frame) ==> r == frame,
{
    match delivery {
        Delivery::TimedOut => Err(LssDriverError::ReceiveTimeout),
        Delivery::Interrupted => {
            proof {
                reveal_strlit("");
                assert(""@ =~= Seq::<char>::empty());
            }
            Err(
                LssDriverError::PayloadParseError(
                    PacketParsingError::new(ParseFailure::NoFrame, "", ""),
                ),
            )
        },
        Delivery::Frame(frame) => frame,
    }
}

} // verus!
