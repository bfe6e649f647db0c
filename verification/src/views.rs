//! Views of optional values and of results.

use vstd::prelude::*;

verus! {

/// The view of what an option holds, if it holds anything.
pub open spec fn view_option<T: View>(o: Option<T>) -> Option<T::V> {
    match o {
        Some(t) => Some(t@),
        None => None,
    }
}

/// The view of what a result holds, on either side.
pub open spec fn view_result<T: View, E: View>(r: Result<T, E>) -> Result<T::V, E::V> {
    match r {
        Ok(t) => Ok(t@),
        Err(e) => Err(e@),
    }
}

} // verus!
