//! SOCKS5: UDP packets and the server's decisions.

pub mod server;
pub mod udp;

pub use server::{Socks5Command, Socks5Error};
pub use udp::{Socks5UdpError, Socks5UdpPacket};
