use vstd::prelude::*;

verus! {

/// Splitting an optional pair into a pair of options.
pub trait TupleOption<T, U> {
    /// Converts an `Option<(T, U)>` into an `(Option<T>, Option<U>)`.
    fn deconstruct(self) -> (Option<T>, Option<U>);
}

impl<T, U> TupleOption<T, U> for Option<(T, U)> {
    fn deconstruct(self) -> (res: (Option<T>, Option<U>))
        ensures
            match self {
                Some((first, second)) => res == (Some(first), Some(second)),
                None => res == (None::<T>, None::<U>),
            },
    {
        if let Some((first, second)) = self {
            (Some(first), Some(second))
        } else {
            (None, None)
        }
    }
}

} // verus!
