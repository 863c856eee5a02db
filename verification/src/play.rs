//! Small helpers that turn a condition into an optional value.
use vstd::prelude::*;

verus! {

/// `val` if `pred` holds, nothing otherwise.
pub fn if_some<T>(pred: bool, val: T) -> (out: Option<T>)
    ensures
        out == (if pred {
            Some(val)
        } else {
            None
        }),
{
    if pred {
        Some(val)
    } else {
        None
    }
}

/// What `f` returns if `pred` holds, nothing otherwise. `f` is called only if
/// `pred` holds.
pub fn if_some_with<T, F: FnOnce() -> T>(pred: bool, f: F) -> (out: Option<T>)
    requires
        pred ==> f.requires(()),
    ensures
        pred ==> (out matches Some(val) && f.ensures((), val)),
        !pred ==> out is None,
{
    if pred {
        Some(f())
    } else {
        None
    }
}

} // verus!
