//! A wrapper that keeps a sensitive value out of logs: it is reached only through `expose`.
use vstd::prelude::*;

verus! {

/// A sensitive value, reachable only through an explicit `expose`.
pub struct Sensitive<T>(T);

impl<T> Sensitive<T> {
    pub closed spec fn value(&self) -> T {
        self.0
    }

    pub fn new(value: T) -> (r: Sensitive<T>)
        ensures
            r.value() == value,
    {
        Sensitive(value)
    }

    /// Explicit access to the value.
    pub fn expose(&self) -> (r: &T)
        ensures
            *r == self.value(),
    {
        &self.0
    }
}

impl Clone for Sensitive<String> {
    fn clone(&self) -> (r: Self)
        ensures
            r == *self,
    {
        Sensitive(self.0.clone())
    }
}

impl<T> Sensitive<T> {
    /// The text shown instead of the value in logs and debug output.
    pub fn redacted(&self) -> (r: &'static str)
        ensures
            r@ == "<redacted>"@,
    {
        "<redacted>"
    }
}

} // verus!
