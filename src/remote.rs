use vstd::prelude::*;

verus! {

/// The lifecycle of one lookup of one piece of data.
///
/// A slot starts as `Loading` and moves once to `Error` or `Success`; a
/// failed lookup is never retried within a session.
#[derive(Clone, Copy, Debug)]
pub enum Remote<T> {
    Loading,
    Error,
    Success(T),
}

impl<T> Default for Remote<T> {
    fn default() -> (r: Self)
        ensures
            r is Loading,
    {
        Remote::Loading
    }
}

} // verus!
