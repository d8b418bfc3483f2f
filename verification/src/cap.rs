//! Device capabilities: who may use which device, and how the kernel is told.
pub mod broker;
pub mod broker_laws;
pub mod cgroup;
pub mod devctrl;
pub mod kernel_laws;
pub mod nvidia;
pub mod outcome_laws;
pub mod pci;
