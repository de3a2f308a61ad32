//! Secure memory management and cluster-wide PMP synchronisation for a
//! PMP-based secure monitor.
//!
//! The library keeps the state of the monitor as plain values: the region
//! table, the PMP slot bitmap, a model of each hart's PMP register file and
//! the per-hart mailboxes. Hardware access (CSR writes, IPIs, reads of host
//! memory) is performed by the caller with the values the library hands back.
pub mod sbi;
pub mod pmp_addr;
pub mod bitmap;
pub mod buddy;
pub mod pmpsync;
pub mod smm;
pub mod host;
pub mod enclave;
pub mod platform;
