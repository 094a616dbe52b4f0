use vstd::prelude::*;

verus! {

/// The errors a channel operation can surface.
///
/// Each is a terminal outcome for the operation in which it arises; none is
/// retried by this layer.
#[derive(Clone, Copy, Debug, PartialEq, Eq, Structural)]
pub enum ChannelError {
    /// The outbound path rejected the message (or it could not be encoded).
    CantSend,
    /// An inbound message was malformed or could not be dispatched.
    RecvError,
    /// The message type is unsupported on the path it arrived on.
    NotImplemented,
    /// A lifecycle failure, e.g. a channel could not be allocated or its
    /// nonce counter is exhausted.
    State,
    /// A command or argument at the given position was invalid.
    InvalidParam(usize),
}

} // verus!
