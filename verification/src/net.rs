//! The outbound side of a client connection.
//!
//! A connection owns an unbounded channel of websocket messages; a
//! dedicated task outside the library drains it to the transport.  The
//! registry and the entity spawned from a connection each hold one handle
//! to the same channel.  Sending never blocks; it fails exactly when the
//! draining task is gone, and every caller treats that as "peer
//! disconnected".

use vstd::prelude::*;

verus! {

/// The outbound handle of one client connection.
pub type Connection = tokio::sync::mpsc::UnboundedSender<warp::ws::Message>;

/// The peer's delivery task is gone; the caller treats the connection as
/// closed.
#[derive(Clone, Copy, PartialEq, Eq, Structural, Debug)]
pub struct ChannelClosed;

/// Declares tokio's `UnboundedSender` so connection handles may stand in
/// verified signatures and fields; its value stays opaque.
#[verifier::external_type_specification]
#[verifier::external_body]
#[verifier::reject_recursive_types(T)]
pub struct ExUnboundedSender<T>(tokio::sync::mpsc::UnboundedSender<T>);

/// Declares warp's websocket `Message` so frames may pass through
/// verified signatures; its value stays opaque.
#[verifier::external_type_specification]
#[verifier::external_body]
pub struct ExWsMessage(warp::ws::Message);

/// Relies on tokio's `UnboundedSender::clone`: another handle to the same
/// receiver.
pub assume_specification<T>[ <tokio::sync::mpsc::UnboundedSender<T> as Clone>::clone ](
    s: &tokio::sync::mpsc::UnboundedSender<T>,
) -> tokio::sync::mpsc::UnboundedSender<T>;

/// Relies on warp's `ws::Message::binary`: wraps the bytes as one binary
/// frame.
#[verifier::external_body]
pub fn ws_binary(bytes: Vec<u8>) -> warp::ws::Message {
    warp::ws::Message::binary(bytes)
}

/// Relies on warp's `ws::Message::close`: the default close frame.
#[verifier::external_body]
pub fn ws_close() -> warp::ws::Message {
    warp::ws::Message::close()
}

/// Relies on tokio's `UnboundedSender::send`: queues the message without
/// blocking and fails exactly when the receiving half is closed or
/// dropped.  Which of the two happens depends on the peer task, so nothing
/// is promised of the outcome and callers handle both.
#[verifier::external_body]
pub fn channel_send(conn: &Connection, msg: warp::ws::Message) -> bool {
    conn.send(msg).is_ok()
}

} // verus!
