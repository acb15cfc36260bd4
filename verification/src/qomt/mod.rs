//! The main QUIC connection over TCP, its UDP bypass and the packets that use both.

pub mod connection;
pub mod datagram_router;
pub mod packet_stream;

pub use datagram_router::{
    QomtDatagramRegistration, QomtDatagramRouter, QomtDatagramSendOutcome, QomtDatagramStats,
};
