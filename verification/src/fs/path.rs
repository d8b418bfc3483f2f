//! Stable `path` ids of the synthetic tree, in coarse buckets so that it is
//! plain which node is which.
use vstd::prelude::*;

verus! {

pub const ROOT: u64 = 0;

pub const NODE_FILE: u64 = 1;

pub const DEV_DIR: u64 = 2;

pub const DEV_GPU_DIR: u64 = 3;

pub const SVC_DIR: u64 = 4;

/// GPU entries start here: `GPU_BASE + gpu_index * 16 + field_idx`.
pub const GPU_BASE: u64 = 0x1000;

/// Service symlinks start here.
pub const SVC_BASE: u64 = 0x2000;

} // verus!
