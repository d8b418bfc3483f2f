//! Errors of the mailbox subsystem.
use crate::ident::NodeId;
use vstd::prelude::*;

verus! {

/// What is wrong with a service request.
#[derive(Copy, Clone, Debug, PartialEq, Eq, Structural)]
pub enum ServiceError {
    /// The name is longer than 256 bytes of UTF-8. Declaring without a current
    /// task or node is reported the same way, with a length that no name has.
    NameTooLong(usize),
}

/// What is wrong with a send.
#[derive(Copy, Clone, Debug, PartialEq, Eq, Structural)]
pub enum MailError {
    /// The payload exceeds `MAX_MAIL_BYTES`.
    PayloadTooLarge(usize),
    /// No live connection to the target node.
    NoPeer(NodeId),
    /// Cross-node dispatch is not there.
    NotConnected,
    /// The own node is not set yet.
    NotInitialized,
}

} // verus!
