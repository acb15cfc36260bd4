//! A QUIC connection tunnelled over several TCP connections.

pub mod quic_connection;

pub use quic_connection::{QuicConnection, QuicConnectionSide};
