//! Small helpers shared by the other modules.

use vstd::prelude::*;

verus! {

/// Tells whether an optional value is present and satisfies a predicate.
pub trait ExistsExtension<T> {
    /// The value that `exists_with` tests, if there is one.
    spec fn held(&self) -> Option<T>;

    fn exists_with<P: FnOnce(&T) -> bool>(&self, predicate: P) -> (found: bool)
        requires
            self.held() matches Some(value) ==> predicate.requires((&value,)),
        ensures
            match self.held() {
                Some(value) => predicate.ensures((&value,), found),
                None => !found,
            },
    ;
}

impl<T> ExistsExtension<T> for Option<T> {
    open spec fn held(&self) -> Option<T> {
        *self
    }

    fn exists_with<P: FnOnce(&T) -> bool>(&self, predicate: P) -> (found: bool) {
        match self {
            Some(value) => predicate(value),
            None => false,
        }
    }
}

} // verus!
