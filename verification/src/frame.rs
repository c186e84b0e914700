//! Inbound transport frames.
//!
//! Only binary frames carry client messages. Text, ping, pong and close
//! frames are dropped before any decoding is attempted.

use vstd::prelude::*;
use warp::ws::Message;

verus! {

/// A frame of the WebSocket transport. Nothing is known of what is inside
/// one but through the two names below.
#[verifier::external_type_specification]
#[verifier::external_body]
pub struct ExMessage(warp::ws::Message);

/// What `warp::ws::Message::is_binary` answers for `frame`.
pub uninterp spec fn frame_is_binary(frame: Message) -> bool;

/// The bytes that `warp::ws::Message::into_bytes` takes out of `frame`.
pub uninterp spec fn frame_payload(frame: Message) -> Seq<u8>;

/// `warp::ws::Message::is_binary` looks at the kind of the frame and at
/// nothing else: the same frame always gets the same answer.
pub assume_specification[ warp::ws::Message::is_binary ](frame: &Message) -> (binary: bool)
    ensures
        binary == frame_is_binary(*frame),
;

/// `warp::ws::Message::into_bytes` consumes the frame and returns the bytes it
/// carried, which depend on the frame alone. It does not fail.
pub assume_specification[ warp::ws::Message::into_bytes ](frame: Message) -> (bytes: Vec<u8>)
    ensures
        bytes@ == frame_payload(frame),
;

/// The payload of `frame` if it is a binary frame, and `None` for a frame of
/// any other kind.
pub fn binary_payload(frame: Message) -> (payload: Option<Vec<u8>>)
    ensures
        frame_is_binary(frame) ==> payload is Some && payload->0@ == frame_payload(frame),
        !frame_is_binary(frame) ==> payload is None,
{
    if frame.is_binary() {
        Some(frame.into_bytes())
    } else {
        None
    }
}

} // verus!
