//! Node ads: what each node says of its hardware, and how the cluster learns
//! of it.
pub mod config;
pub mod discovery;
pub mod frames;
pub mod gossip;
pub mod outcome_laws;
pub mod refresh;
pub mod refresh_laws;
pub mod schema;
pub mod store;
pub mod store_laws;
