//! Equality of types: two types are equal if they are the same up to the
//! names of their type variables.
use crate::module::{equivalent, types_equivalent, Type};
use vstd::prelude::*;
use vstd::std_specs::cmp::PartialEqSpecImpl;

verus! {

impl PartialEq for Type {
    fn eq(&self, other: &Type) -> (res: bool) {
        types_equivalent(self, other)
    }
}

impl PartialEqSpecImpl for Type {
    open spec fn obeys_eq_spec() -> bool {
        true
    }

    open spec fn eq_spec(&self, other: &Type) -> bool {
        equivalent(self@, other@)
    }
}

} // verus!
