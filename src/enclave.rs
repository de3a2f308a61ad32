//! Enclave-side entry points and the records that describe an enclave.
use vstd::prelude::*;
use crate::sbi::SbiRet;

verus! {

/// Size in bytes of an enclave measurement and of a signer key.
pub const ENCLAVE_HASH_SIZE: usize = 32;

/// A range `[hpa, hpa + len)` of physical memory.
#[derive(Clone, Copy, Debug, PartialEq, Eq, Structural)]
pub struct PhyMemRegion {
    pub hpa: u64,
    pub len: u64,
}

/// Arguments of a call from an enclave out to its host.
#[derive(Clone, Copy, Debug)]
pub struct OcallArgs {
    pub func_id: u64,
    pub syscall_num: u64,
    pub args: [u64; 2],
}

/// Life-cycle state of an enclave.
#[allow(non_camel_case_types)]
#[derive(Clone, Copy, Debug, PartialEq, Eq, Structural)]
pub enum EnclaveState {
    DESTROYED,
    INVALID,
    FRESH,
    RUNNABLE,
    RUNNING,
    STOPPED,
}

/// What the monitor records of an enclave.
pub struct EnclaveMetadata {
    /// Secure memory of the enclave; `free` bytes of it are unused.
    pub sec: PhyMemRegion,
    pub free: u64,
    /// Untrusted buffer shared with the host application.
    pub ubuf: PhyMemRegion,
    /// Untrusted buffer shared with the host kernel.
    pub kbuf: PhyMemRegion,
    /// Root page table.
    pub ept: u64,
    /// Entry point.
    pub entry: u64,
    pub state: EnclaveState,
    /// Measurement.
    pub hash: [u8; 32],
    /// Public key of the enclave's developer.
    pub signer: [u8; 32],
}

/// Runs enclave function `function`; no enclave function is handled here, and
/// every call succeeds with nothing done.
pub fn handle_ecall_fast(function: usize, param: [u64; 6]) -> (r: SbiRet)
    ensures
        r == SbiRet::success_spec(0),
{
    SbiRet::success(0)
}

} // verus!
