//! Dynamic DNS reconciliation: keeps a curated inventory of DNS address
//! records in step with the host's public address.
//!
//! The library holds the verified logic: layered configuration, the
//! inventory model, record classification, the commit policy and the watch
//! schedule. Network access, terminal input and files are left to callers.
pub mod text;
pub mod cloudflare;
pub mod inventory;
pub mod reconcile;
pub mod commit;
pub mod config;
pub mod filters;
pub mod watch;
pub mod prompt;
pub mod annotate;
pub mod session;
pub mod order;
