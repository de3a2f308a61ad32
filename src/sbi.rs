//! SBI return values in the standard binary encoding.
use vstd::prelude::*;

verus! {

/// Error code of a successful call.
pub const RET_SUCCESS: usize = 0;

/// `SBI_ERR_FAILED` (-1).
pub const RET_ERR_FAILED: usize = usize::MAX;

/// `SBI_ERR_INVALID_PARAM` (-3).
pub const RET_ERR_INVALID_PARAM: usize = usize::MAX - 2;

/// `SBI_ERR_INVALID_ADDRESS` (-5).
pub const RET_ERR_INVALID_ADDRESS: usize = usize::MAX - 4;

/// `SBI_ERR_ALREADY_STARTED` (-7).
pub const RET_ERR_ALREADY_STARTED: usize = usize::MAX - 6;

/// The `(error, value)` pair that every SBI handler returns.
#[derive(Clone, Copy, Debug, PartialEq, Eq, Structural)]
pub struct SbiRet {
    pub error: usize,
    pub value: usize,
}

impl SbiRet {
    pub open spec fn is_success(self) -> bool {
        self.error == RET_SUCCESS
    }

    pub open spec fn success_spec(value: usize) -> SbiRet {
        SbiRet { error: RET_SUCCESS, value }
    }

    pub open spec fn failed_spec() -> SbiRet {
        SbiRet { error: RET_ERR_FAILED, value: 0 }
    }

    pub open spec fn invalid_param_spec() -> SbiRet {
        SbiRet { error: RET_ERR_INVALID_PARAM, value: 0 }
    }

    pub open spec fn invalid_address_spec() -> SbiRet {
        SbiRet { error: RET_ERR_INVALID_ADDRESS, value: 0 }
    }

    pub open spec fn already_started_spec() -> SbiRet {
        SbiRet { error: RET_ERR_ALREADY_STARTED, value: 0 }
    }

    pub fn success(value: usize) -> (r: SbiRet)
        ensures
            r == (SbiRet { error: RET_SUCCESS, value }),
    {
        SbiRet { error: RET_SUCCESS, value }
    }

    pub fn failed() -> (r: SbiRet)
        ensures
            r == (SbiRet { error: RET_ERR_FAILED, value: 0 }),
    {
        SbiRet { error: RET_ERR_FAILED, value: 0 }
    }

    pub fn invalid_param() -> (r: SbiRet)
        ensures
            r == (SbiRet { error: RET_ERR_INVALID_PARAM, value: 0 }),
    {
        SbiRet { error: RET_ERR_INVALID_PARAM, value: 0 }
    }

    pub fn invalid_address() -> (r: SbiRet)
        ensures
            r == (SbiRet { error: RET_ERR_INVALID_ADDRESS, value: 0 }),
    {
        SbiRet { error: RET_ERR_INVALID_ADDRESS, value: 0 }
    }

    pub fn already_started() -> (r: SbiRet)
        ensures
            r == (SbiRet { error: RET_ERR_ALREADY_STARTED, value: 0 }),
    {
        SbiRet { error: RET_ERR_ALREADY_STARTED, value: 0 }
    }
}

} // verus!
