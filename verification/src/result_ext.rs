use vstd::prelude::*;

verus! {

/// Keeps the value of a successful result and drops the error of a failed
/// one, which the caller reports.
pub trait ResultExt<OK, ERR> {
    fn ok_log_errors(self) -> Option<OK>;
}

impl<OK, ERR> ResultExt<OK, ERR> for Result<OK, ERR> {
    fn ok_log_errors(self) -> (res: Option<OK>)
        ensures
            res == match self {
                Ok(v) => Some(v),
                Err(_) => None,
            },
    {
        match self {
            Ok(v) => Some(v),
            Err(_) => None,
        }
    }
}

/// Keeps the value of a successful result and drops the errors of a failed
/// one, which the caller reports.
pub fn ok_log_errors<T, E>(result: Result<T, Vec<E>>) -> (res: Option<T>)
    ensures
        res == match result {
            Ok(v) => Some(v),
            Err(_) => None,
        },
{
    match result {
        Ok(value) => Some(value),
        Err(_) => None,
    }
}

} // verus!
