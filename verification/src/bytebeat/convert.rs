//! The conversions between values and plain integers and truth values, and
//! the equality of values, as the standard traits.

use vstd::prelude::*;
use vstd::std_specs::cmp::PartialEqSpecImpl;
use vstd::std_specs::convert::FromSpecImpl;
use crate::bytebeat::value::Val;

verus! {

impl From<bool> for Val {
    fn from(b: bool) -> (val: Val) {
        Val::from_bool(b)
    }
}

impl FromSpecImpl<bool> for Val {
    open spec fn obeys_from_spec() -> bool {
        true
    }

    open spec fn from_spec(b: bool) -> Val {
        Val::flag(b)
    }
}

impl From<i64> for Val {
    fn from(i: i64) -> (val: Val) {
        Val::I(i)
    }
}

impl FromSpecImpl<i64> for Val {
    open spec fn obeys_from_spec() -> bool {
        true
    }

    open spec fn from_spec(i: i64) -> Val {
        Val::I(i)
    }
}

impl From<Val> for bool {
    fn from(val: Val) -> (b: bool) {
        val.to_bool()
    }
}

impl FromSpecImpl<Val> for bool {
    open spec fn obeys_from_spec() -> bool {
        true
    }

    open spec fn from_spec(val: Val) -> bool {
        val.truthy()
    }
}

impl From<Val> for i64 {
    fn from(val: Val) -> (x: i64) {
        val.to_int()
    }
}

impl FromSpecImpl<Val> for i64 {
    open spec fn obeys_from_spec() -> bool {
        true
    }

    open spec fn from_spec(val: Val) -> i64 {
        val.as_int()
    }
}

impl From<Val> for u8 {
    fn from(val: Val) -> (byte: u8) {
        val.to_byte()
    }
}

impl FromSpecImpl<Val> for u8 {
    open spec fn obeys_from_spec() -> bool {
        true
    }

    open spec fn from_spec(val: Val) -> u8 {
        val.as_byte()
    }
}

impl PartialEq for Val {
    fn eq(&self, rhs: &Val) -> (b: bool) {
        self.is_same(*rhs)
    }
}

impl PartialEqSpecImpl for Val {
    open spec fn obeys_eq_spec() -> bool {
        true
    }

    open spec fn eq_spec(&self, rhs: &Val) -> bool {
        self.same(*rhs)
    }
}

} // verus!
