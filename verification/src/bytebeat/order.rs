//! The order of values as the standard trait.

use std::cmp::Ordering;
use vstd::prelude::*;
use vstd::std_specs::cmp::PartialOrdSpecImpl;
use crate::bytebeat::value::Val;

verus! {

impl PartialOrd for Val {
    fn partial_cmp(&self, rhs: &Val) -> (order: Option<Ordering>) {
        if self.is_less(*rhs) {
            Some(Ordering::Less)
        } else if rhs.is_less(*self) {
            Some(Ordering::Greater)
        } else if self.is_level(*rhs) {
            Some(Ordering::Equal)
        } else {
            None
        }
    }
}

impl PartialOrdSpecImpl for Val {
    open spec fn obeys_partial_cmp_spec() -> bool {
        true
    }

    open spec fn partial_cmp_spec(&self, rhs: &Val) -> Option<Ordering> {
        if self.less(*rhs) {
            Some(Ordering::Less)
        } else if rhs.less(*self) {
            Some(Ordering::Greater)
        } else if self.level(*rhs) {
            Some(Ordering::Equal)
        } else {
            None
        }
    }
}

} // verus!
