//! Which exits a destination may use.

pub mod cache;
pub mod config;
pub mod domain;
pub mod geolite2;
pub mod geosite;
pub mod ip_net;
pub mod order;
pub mod patterns;
pub mod router;
pub mod routes;
pub mod rule;
pub mod selector;
pub mod update;
