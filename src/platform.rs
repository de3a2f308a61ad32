//! The secure monitor as an SBI extension: routes host and enclave calls.
use vstd::prelude::*;
use crate::sbi::SbiRet;
use crate::smm::SecMonitor;
use crate::host::EnclaveMemArgs;

verus! {

/// Extension of calls from the host.
pub const EID_PENGLAI_HOST: usize = 0x100100;

/// Extension of calls from an enclave.
pub const EID_PENGLAI_ENCLAVE: usize = 0x100101;

/// The monitor, its enclave-creation flag and the range of the firmware it
/// protects.
pub struct PenglaiPlatform {
    pub sm: SecMonitor,
    pub creating: bool,
    pub sbi_start: u64,
    pub sbi_end: u64,
}

impl PenglaiPlatform {
    pub open spec fn wf(&self) -> bool {
        self.sm.wf() && self.sbi_start <= self.sbi_end
    }

    /// A platform of `nharts` harts whose firmware spans `[sbi_start, sbi_end)`.
    pub fn new(nharts: usize, sbi_start: u64, sbi_end: u64) -> (r: PenglaiPlatform)
        requires
            nharts > 0,
            sbi_start <= sbi_end,
        ensures
            r.wf(),
            r.sm.pmp@.len() == nharts,
            !r.creating,
            r.sbi_start == sbi_start,
            r.sbi_end == sbi_end,
    {
        PenglaiPlatform { sm: SecMonitor::new(nharts), creating: false, sbi_start, sbi_end }
    }

    /// Handles call `function` of `extension` made on hart `hart`.
    pub fn handle_ecall(
        &mut self,
        hart: usize,
        extension: usize,
        function: usize,
        param: [u64; 6],
        host_args: Option<EnclaveMemArgs>,
    ) -> (r: (SbiRet, Option<EnclaveMemArgs>))
        requires
            old(self).wf(),
            hart < old(self).sm.pmp@.len(),
        ensures
            final(self).wf(),
            final(self).sbi_start == old(self).sbi_start,
            final(self).sbi_end == old(self).sbi_end,
            extension == EID_PENGLAI_ENCLAVE ==> r.0 == SbiRet::success_spec(0) && r.1 is None,
            extension != EID_PENGLAI_HOST && extension != EID_PENGLAI_ENCLAVE ==> r.0
                == SbiRet::invalid_param_spec() && r.1 is None,
            extension == EID_PENGLAI_HOST ==> crate::host::host_ecall_post(
                old(self).sm,
                final(self).sm,
                old(self).creating,
                final(self).creating,
                hart,
                old(self).sbi_start,
                old(self).sbi_end,
                function,
                param,
                host_args,
                r,
            ),
            extension != EID_PENGLAI_HOST ==> final(self).sm.regions.region@ == old(self).sm.regions.region@
                && final(self).sm.pmp@ == old(self).sm.pmp@ && final(self).creating == old(self).creating,
    {
        if extension == EID_PENGLAI_HOST {
            crate::host::handle_ecall_fast(
                &mut self.sm,
                &mut self.creating,
                hart,
                self.sbi_start,
                self.sbi_end,
                function,
                param,
                host_args,
            )
        } else if extension == EID_PENGLAI_ENCLAVE {
            (crate::enclave::handle_ecall_fast(function, param), None)
        } else {
            (SbiRet::invalid_param(), None)
        }
    }
}

} // verus!
