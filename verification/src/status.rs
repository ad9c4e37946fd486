use vstd::prelude::*;

verus! {

// Raw status codes: zero and positive values mean success, negative values
// name a failure kind. The numbering is the kernel ABI's and is preserved
// losslessly so a caller can distinguish specific error kinds.
pub const NO_ERROR: i32 = 0;

pub const ERR_INTERNAL: i32 = -1;

pub const ERR_NOT_SUPPORTED: i32 = -2;

pub const ERR_NOT_FOUND: i32 = -3;

pub const ERR_NO_MEMORY: i32 = -4;

pub const ERR_NO_RESOURCES: i32 = -5;

pub const ERR_INVALID_ARGS: i32 = -10;

pub const ERR_BAD_HANDLE: i32 = -12;

pub const ERR_OUT_OF_RANGE: i32 = -13;

pub const ERR_BUFFER_TOO_SMALL: i32 = -14;

pub const ERR_ALREADY_EXISTS: i32 = -15;

pub const ERR_ALREADY_BOUND: i32 = -16;

pub const ERR_BAD_STATE: i32 = -20;

pub const ERR_TIMED_OUT: i32 = -23;

pub const ERR_HANDLE_CLOSED: i32 = -24;

pub const ERR_REMOTE_CLOSED: i32 = -25;

pub const ERR_SHOULD_WAIT: i32 = -27;

pub const ERR_ACCESS_DENIED: i32 = -30;

pub const ERR_WRONG_TYPE: i32 = -54;

/// A failed kernel operation's status code, preserved losslessly.
#[derive(Debug, Clone, Copy, PartialEq, Eq, Structural)]
pub struct Status(pub i32);

/// Classify a raw status code: non-negative values are success, carrying the
/// payload produced by `f` (computed only on that branch); negative values
/// are a failure preserving the exact code.
pub fn into_result<T, F: FnOnce() -> T>(status: i32, f: F) -> (r: Result<T, Status>)
    requires
        status >= 0 ==> call_requires(f, ()),
    ensures
        status >= 0 ==> r is Ok && call_ensures(f, (), r->Ok_0),
        status < 0 ==> r == Result::<T, Status>::Err(Status(status)),
{
    if status >= 0 {
        Ok(f())
    } else {
        Err(Status(status))
    }
}

} // verus!
