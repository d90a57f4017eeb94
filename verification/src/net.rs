//! Decisions of the datagram listener: which channel carries an outgoing
//! message, and what an incoming stream message asks for.
use vstd::prelude::*;

use crate::text::str_eq;

verus! {

/// How an outgoing message is sent to a QUIC client.
#[derive(Clone, Copy, Debug, PartialEq, Eq, Structural)]
pub enum QuicChannel {
    /// Reliably, on a stream.
    Stream,
    /// As a datagram.
    Datagram,
}

/// Message types that are sent on a stream.
pub open spec fn is_stream_type(t: Seq<char>) -> bool {
    ||| t == "message"@
    ||| t == "private_message"@
    ||| t == "group_message"@
    ||| t == "message_sent"@
    ||| t == "pong"@
}

/// The channel of an outgoing message whose `type` field is `msg_type`
/// (`None` when the text is not JSON or has no such string field): chat
/// messages, their receipts and pongs go on a stream, everything else as a
/// datagram.
pub fn outgoing_channel(msg_type: Option<&str>) -> (c: QuicChannel)
    ensures
        c == (match msg_type {
            Some(t) => if is_stream_type(t@) {
                QuicChannel::Stream
            } else {
                QuicChannel::Datagram
            },
            None => QuicChannel::Datagram,
        }),
{
    match msg_type {
        Some(t) => {
            if str_eq(t, "message") || str_eq(t, "private_message") || str_eq(t, "group_message") || str_eq(
                t,
                "message_sent",
            ) || str_eq(t, "pong") {
                QuicChannel::Stream
            } else {
                QuicChannel::Datagram
            }
        },
        None => QuicChannel::Datagram,
    }
}

/// What a message read from a QUIC stream asks for.
#[derive(Debug)]
pub enum QuicStreamAction {
    /// Bind `uid` to the client and answer `auth_ok`.
    Authenticate { uid: String },
    /// Hand the text to the ordinary message handling.
    Dispatch,
    /// Nothing.
    Ignore,
}

/// The action for a stream message whose `type` field is `msg_type` and whose
/// `data.uid` field is `uid` (each `None` when absent or not a string): an
/// `auth` message with a uid authenticates, one without is ignored, a message
/// of any other type is handled as usual, one without a type is ignored.
pub fn stream_action(msg_type: Option<&str>, uid: Option<&str>) -> (a: QuicStreamAction)
    ensures
        match msg_type {
            None => a is Ignore,
            Some(t) => if t@ == "auth"@ {
                match uid {
                    Some(u) => a matches QuicStreamAction::Authenticate { uid: x } && x@ == u@,
                    None => a is Ignore,
                }
            } else {
                a is Dispatch
            },
        },
{
    match msg_type {
        None => QuicStreamAction::Ignore,
        Some(t) => {
            if str_eq(t, "auth") {
                match uid {
                    Some(u) => QuicStreamAction::Authenticate { uid: u.to_string() },
                    None => QuicStreamAction::Ignore,
                }
            } else {
                QuicStreamAction::Dispatch
            }
        },
    }
}

} // verus!
