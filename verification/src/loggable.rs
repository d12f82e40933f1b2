use vstd::prelude::*;

verus! {

/// A value that can report its failure as it passes through a pipeline.
pub trait Loggable {
    fn log_if_error(self) -> (r: Self)
        ensures
            r == self,
    ;
}

impl<T, E> Loggable for Result<T, E> {
    /// Hands the result back unchanged; the reporting itself is the
    /// caller's concern.
    fn log_if_error(self) -> (r: Self) {
        self
    }
}

} // verus!
