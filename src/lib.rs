//! Keeps DNS address records of this host in step with its local IPv4
//! addresses: the decisions of one update pass, verified.

pub mod ipv4;
pub mod error;
pub mod label;
pub mod resolver;
pub mod matcher;
pub mod plan;
pub mod reconcile;
pub mod credentials;
