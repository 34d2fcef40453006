use std::marker::PhantomData;
use vstd::prelude::*;

verus! {

/// A numeric row identifier tagged with the kind of row it names, so that an
/// entry id cannot be passed where an embedding id is expected.
pub struct Id<T> {
    value: u32,
    marker: PhantomData<T>,
}

impl<T> Id<T> {
    /// The number behind the id.
    pub closed spec fn spec_value(&self) -> u32 {
        self.value
    }

    pub fn new(value: u32) -> (r: Self)
        ensures
            r.spec_value() == value,
    {
        Id { value, marker: PhantomData }
    }

    pub fn value(&self) -> (r: u32)
        ensures
            r == self.spec_value(),
    {
        self.value
    }

    /// Two ids are equal exactly when their numbers are.
    pub fn same(&self, other: &Self) -> (r: bool)
        ensures
            r == (self.spec_value() == other.spec_value()),
    {
        self.value == other.value
    }
}

impl<T> Clone for Id<T> {
    fn clone(&self) -> (r: Self)
        ensures
            r.spec_value() == self.spec_value(),
    {
        Id { value: self.value, marker: PhantomData }
    }
}

impl<T> Copy for Id<T> {}

impl<T> From<u32> for Id<T> {
    fn from(value: u32) -> (r: Self)
        ensures
            r.spec_value() == value,
    {
        Id { value, marker: PhantomData }
    }
}

impl<T> vstd::std_specs::convert::FromSpecImpl<u32> for Id<T> {
    open spec fn obeys_from_spec() -> bool {
        true
    }

    closed spec fn from_spec(v: u32) -> Self {
        Id { value: v, marker: PhantomData }
    }
}

impl<T> PartialEq for Id<T> {
    fn eq(&self, other: &Self) -> (r: bool) {
        self.value == other.value
    }
}

impl<T> vstd::std_specs::cmp::PartialEqSpecImpl for Id<T> {
    open spec fn obeys_eq_spec() -> bool {
        true
    }

    open spec fn eq_spec(&self, other: &Self) -> bool {
        self.spec_value() == other.spec_value()
    }
}

} // verus!
