//! The bookkeeping of a QUIC connection that runs over a packet transport.

pub mod config;
pub mod connection;
pub mod diagnostics;
pub mod error;
pub mod packet;
pub mod state;
pub mod stream_tasks;
pub mod underlay;

pub use error::{ConnectionError, QuicConnectionError, QuicDatagramSendError, TransportError};
pub use state::{State, StateUpdater, TransportPhase};
