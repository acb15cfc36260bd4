//! QUIC over multiple TCP connections: packets, handshake heads and stream bookkeeping.

pub mod bytes_packet;
pub mod mt_connections;
pub mod qomt_connection;

pub use bytes_packet::BytesPacket;
pub use mt_connections::{
    MtConnectionsError, MtConnectionsId, MtConnectionsMagic, MtConnectionsRequestHead,
    MtConnectionsRequestHeadData, MtConnectionsResponseHead, MtConnectionsResponseHeadData,
};
pub use qomt_connection::{QomtConnection, QomtConnectionError};
