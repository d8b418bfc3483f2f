//! Classic: the verified core of a small cluster runtime.
pub mod ad;
pub mod bytes;
pub mod cap;
pub mod cli;
pub mod fs;
pub mod ident;
pub mod mbox;
pub mod order;
pub mod packed;
pub mod packed_laws;
pub mod render;
pub mod scan;
pub mod scan_laws;
pub mod text;
pub mod time;
