//! The 9P2000.L file service.
pub mod client;
pub mod client_laws;
pub mod codec;
pub mod codec_laws;
pub mod errno;
pub mod layout_laws;
pub mod namespace;
pub mod namespace_laws;
pub mod outcome_laws;
pub mod path;
pub mod prefix_laws;
pub mod reading_laws;
pub mod server;
pub mod server_laws;
pub mod services;
pub mod show;
pub mod synthetic;
pub mod synthetic_laws;
pub mod tcode;
pub mod tree;
pub mod tree_laws;
pub mod types;
pub mod wire;
