//! A node through which traffic leaves.

pub mod config;
pub mod dispatcher;
pub mod node;

pub use crate::primitives::{OutExit, OutExitTag};
pub use config::{
    build_local_out_dispatchers, ExitConfig, LocalExitBindConfig, LocalExitConfig, OutConfig,
    OutExitConfig, OutHubConfig,
};
pub use dispatcher::{DefaultLocalExit, LocalOutDispatcher};
pub use node::{advertised_peer_endpoint, Out, OutHubOptions, OutOptions, PeerOut};
