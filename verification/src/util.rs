//! A generic wrapper pairing a payload with a display label, used to attach
//! a human-readable name (for example a builtin's name) to otherwise
//! anonymous callable payloads. The label serves diagnostics only and is no
//! part of the payload's identity.

use vstd::prelude::*;

verus! {

pub struct Labeled<T> {
    label: String,
    value: T,
}

impl<T> Labeled<T> {
    /// Wraps `value` under the given display label.
    pub fn new(label: String, value: T) -> (r: Labeled<T>)
        ensures
            r.label_spec() == label@,
            r.value_spec() == value,
    {
        Labeled { label, value }
    }

    /// Wraps `value` with an empty label.
    pub fn unlabeled(value: T) -> (r: Labeled<T>)
        ensures
            r.label_spec() == Seq::<char>::empty(),
            r.value_spec() == value,
    {
        Labeled { label: String::new(), value }
    }

    /// The label, as it identifies the wrapper in diagnostics.
    pub closed spec fn label_spec(&self) -> Seq<char> {
        self.label@
    }

    /// The wrapped payload.
    pub closed spec fn value_spec(&self) -> T {
        self.value
    }

    /// Borrows the payload.
    pub fn value(&self) -> (r: &T)
        ensures
            *r == self.value_spec(),
    {
        &self.value
    }

    /// Borrows the payload mutably; the label is untouched.
    pub fn value_mut(&mut self) -> (r: &mut T)
        ensures
            *r == old(self).value_spec(),
            final(self).value_spec() == *final(r),
            final(self).label_spec() == old(self).label_spec(),
    {
        &mut self.value
    }

    /// Borrows the display label.
    pub fn label(&self) -> (r: &String)
        ensures
            r@ == self.label_spec(),
    {
        &self.label
    }
}

} // verus!
