//! Multi-node proxy core: sniffing, routing, relaying and tunnel bookkeeping.

pub mod address;
pub mod assoc;
pub mod buffers;
pub mod framing;
pub mod out;
pub mod output;
pub mod primitives;
pub mod qomt;
pub mod qomt_tunnel;
pub mod quic_connection;
pub mod quic_tunnel;
pub mod relay;
pub mod route;
pub mod sniff;
pub mod socks5;
pub mod text;
pub mod time;
