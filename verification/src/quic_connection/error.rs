//! Errors of QUIC connections and datagrams.

use vstd::prelude::*;

verus! {

/// An error of the QUIC transport, as far as anything depends on which one it is.
#[derive(Clone, Copy, Debug, PartialEq, Eq, Structural)]
pub enum TransportError {
    /// Nothing more can be done now.
    Done,
    BufferTooShort,
    InvalidState,
    InvalidStreamState(u64),
    StreamStopped(u64),
    /// Any other error, by its wire code.
    Other(u64),
}

/// Why a connection was closed, as one of its ends gave it.
#[derive(Clone, Debug, PartialEq, Eq)]
pub struct ConnectionError {
    pub is_app: bool,
    pub error_code: u64,
    pub reason: Vec<u8>,
}

#[derive(Clone, Debug, PartialEq, Eq)]
pub enum QuicConnectionError {
    QuicheConnectionLocal(ConnectionError),
    QuicheConnectionPeer(ConnectionError),
    DriverFailed,
    UnderlyingTransportClosed,
}

#[derive(Clone, Copy, Debug, PartialEq, Eq, Structural)]
pub enum QuicDatagramSendError {
    Unavailable,
    TooLarge { length: usize, maximum: Option<usize> },
    QueueFull,
    Quiche(TransportError),
}

} // verus!
