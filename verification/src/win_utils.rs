//! What the results of Windows calls mean.
use vstd::prelude::*;

verus! {

/// A call that answers with a truth value failed if the answer is zero. `last_os_error` is the
/// error that the system reports then.
pub fn result_bool(ret: i32, last_os_error: i32) -> (r: Result<(), i32>)
    ensures
        r is Err <==> ret == 0,
        r matches Err(e) ==> e == last_os_error,
{
    if ret == 0 {
        Err(last_os_error)
    } else {
        Ok(())
    }
}

/// A call that answers with a number failed if the answer is the greatest one. `last_os_error` is
/// the error that the system reports then.
pub fn result_dword(ret: u32, last_os_error: i32) -> (r: Result<(), i32>)
    ensures
        r is Err <==> ret == u32::MAX,
        r matches Err(e) ==> e == last_os_error,
{
    if ret == u32::MAX {
        Err(last_os_error)
    } else {
        Ok(())
    }
}

} // verus!
