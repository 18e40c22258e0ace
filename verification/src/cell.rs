//! A cell that gives ownership of its contents to anyone holding a mutable
//! reference, provided a replacement value is put back in the same step.

use vstd::prelude::*;

verus! {

/// Encapsulating type that provides ownership of its contained value
/// without needing ownership of the `ReplaceCell`, provided a replacement
/// value is given.
///
/// see: [replace](ReplaceCell::replace)
pub struct ReplaceCell<T>(Option<T>);

impl<T> ReplaceCell<T> {
    /// What the cell holds.
    pub closed spec fn spec_inner(self) -> Option<T> {
        self.0
    }

    /// The cell holds a value. Every constructor establishes this and
    /// every method keeps it.
    pub open spec fn wf(self) -> bool {
        self.spec_inner() is Some
    }

    /// The held value.
    pub open spec fn value(self) -> T
        recommends
            self.wf(),
    {
        self.spec_inner()->0
    }

    /// A cell holding `value`.
    pub fn new(value: T) -> (r: ReplaceCell<T>)
        ensures
            r.wf(),
            r.value() == value,
    {
        ReplaceCell(Some(value))
    }

    /// Provide access to the contained value through moving out the old
    /// value and replacing it with a new value.
    pub fn replace<F: FnOnce(T) -> T>(&mut self, f: F)
        requires
            old(self).wf(),
            call_requires(f, (old(self).value(),)),
        ensures
            final(self).wf(),
            call_ensures(f, (old(self).value(),), final(self).value()),
    {
        let inner: Option<T> = self.0.take();
        let value: T = match inner {
            Some(value) => value,
            None => vstd::pervasive::unreached(),
        };
        self.0 = Some(f(value));
    }

    /// Consume the object, returning the contained value.
    pub fn into_inner(self) -> (r: T)
        requires
            self.wf(),
        ensures
            r == self.value(),
    {
        match self.0 {
            Some(value) => value,
            None => vstd::pervasive::unreached(),
        }
    }

    /// A reference to the contained value.
    pub fn get_ref(&self) -> (r: &T)
        requires
            self.wf(),
        ensures
            r == self.value(),
    {
        match &self.0 {
            Some(value) => value,
            None => vstd::pervasive::unreached(),
        }
    }

    /// A mutable reference to the contained value.
    pub fn get_mut(&mut self) -> (r: &mut T)
        requires
            old(self).wf(),
        ensures
            *r == old(self).value(),
            final(self).wf(),
            final(self).value() == *final(r),
    {
        match &mut self.0 {
            Some(value) => value,
            None => vstd::pervasive::unreached(),
        }
    }
}

} // verus!
