//! Values shared by every part of the proxy.

pub mod net;
pub mod node;
pub mod route;
pub mod side;

pub use crate::sniff::SniffedProtocol;
pub use node::NodeId;
pub use net::{SocketDestination, SocketDestinationHost};
pub use route::{OutExit, OutExitMatch, OutExitMatchPriority, OutExitTag, OutExits};
pub use side::ConnectionSide;
