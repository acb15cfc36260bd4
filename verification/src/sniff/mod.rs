//! Finds the domain that a TCP stream or a QUIC flow is meant for.

pub mod cursor;
pub mod domain;
pub mod http;
pub mod outcome;
pub mod quic;
pub mod tcp;
pub mod tls;

pub use outcome::{SniffOutcome, SniffedDomain, SniffedProtocol};
pub use quic::{QuicSniffStep, QuicSniffer};
pub use tcp::{
    sniff_tcp_prefix, ReplayStream, SniffedTcpStream, TcpSniffAction, TcpSniffEvent,
    TcpSniffOptions, TcpSniffer,
};
