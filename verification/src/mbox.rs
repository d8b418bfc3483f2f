//! Mailboxes and the cluster-wide service directory.
pub mod directory;
pub mod directory_effects;
pub mod directory_laws;
pub mod error;
pub mod frames;
pub mod gc;
pub mod gossip;
pub mod gossip_emit;
pub mod gossip_laws;
pub mod handler;
pub mod history_laws;
pub mod mailbox;
pub mod outcome_laws;
pub mod send;
pub mod service_effects;
