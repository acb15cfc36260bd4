//! How traffic leaves the node. The tag of a routing rule selects the output.

pub mod config;
pub mod error;
pub mod local;
pub mod socks5;

pub use config::{
    LocalOutputConfig, OutputConfig, OutputMap, OutputPlan, Socks5AuthConfig, Socks5OutputConfig,
};
pub use error::OutputError;
pub use local::{LocalIpOrInterface, LocalOutput};
pub use socks5::Socks5Output;
