use vstd::prelude::*;

verus! {

/// What one poll of a future reports.
#[derive(Debug, PartialEq, Eq)]
pub enum Poll<T> {
    /// The future has produced its value.
    Ready(T),
    /// The future is not done; it is to be polled again once its waker was woken.
    Pending,
}

} // verus!
