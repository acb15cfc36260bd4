//! Relaying of TCP connections and UDP datagrams between clients and the proxy.

pub mod datagram;
pub mod tcp;
pub mod udp;

pub use datagram::{Datagram, DatagramError};
pub use tcp::{
    resolve_target, resolve_target_from_socks5_address, FakeIpEntry, ResolvedTarget, Socks5Address,
    TcpRelayError, TcpRelayLogConfig,
};
pub use udp::{
    DirectUdpForwarder, SessionTracker, UdpClientDatagram, UdpRelayError, UdpRelayLogConfig,
};
