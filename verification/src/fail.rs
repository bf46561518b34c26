use vstd::prelude::*;

verus! {

/// Why a socket call or an in-flight operation failed.
#[derive(Clone, Copy, Debug, PartialEq, Eq, Structural)]
pub enum Fail {
    /// A frame or header could not be parsed, or a checksum did not validate.
    Malformed,
    /// The requested local address tuple is already bound by another socket.
    AddressInUse,
    /// The call does not apply to the socket in its current state.
    InvalidState,
    /// Data transfer was requested on a socket that is not established.
    NotConnected,
    /// The peer rejected the handshake.
    ConnectionRefused,
    /// The retransmission budget was exhausted without an acknowledgment.
    ConnectionTimedOut,
    /// A segment arrived whose flags are not acceptable in the current state.
    ProtocolError,
    /// The operation was aborted because the socket was closed locally.
    ConnectionClosed,
}

} // verus!
