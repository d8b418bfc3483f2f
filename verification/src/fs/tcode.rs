//! Op-code constants for every 9P2000.L T-message the server inspects.
//! `R<op>` codes are `T<op> + 1` per the protocol. Numbers from
//! https://github.com/chaos/diod/blob/master/protocol.md.
use vstd::prelude::*;

verus! {

/// Never sent by clients; reserved.
pub const TLERROR: u8 = 6;
pub const RLERROR: u8 = 7;
pub const TSTATFS: u8 = 8;
pub const TLOPEN: u8 = 12;
pub const TLCREATE: u8 = 14;
pub const TSYMLINK: u8 = 16;
pub const TMKNOD: u8 = 18;
pub const TRENAME: u8 = 20;
pub const TREADLINK: u8 = 22;
pub const TGETATTR: u8 = 24;
pub const TSETATTR: u8 = 26;
pub const TXATTRWALK: u8 = 30;
pub const TXATTRCREATE: u8 = 32;
pub const TREADDIR: u8 = 40;
pub const TFSYNC: u8 = 50;
pub const TLOCK: u8 = 52;
pub const TGETLOCK: u8 = 54;
pub const TLINK: u8 = 70;
pub const TMKDIR: u8 = 72;
pub const TRENAMEAT: u8 = 74;
pub const TUNLINKAT: u8 = 76;
pub const TVERSION: u8 = 100;
pub const TAUTH: u8 = 102;
pub const TATTACH: u8 = 104;
pub const TFLUSH: u8 = 108;
pub const TWALK: u8 = 110;
pub const TREAD: u8 = 116;
pub const TWRITE: u8 = 118;
pub const TCLUNK: u8 = 120;
pub const TREMOVE: u8 = 122;
pub const TSTAT: u8 = 124;
pub const TWSTAT: u8 = 126;

} // verus!
