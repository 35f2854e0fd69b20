//! Zero tests that tolerate rounding for floats and are exact for integers.

use vstd::prelude::*;

verus! {

/// A zero test: exact for integers.
pub trait NearZero {
    /// The value is zero, or near enough to it.
    spec fn near_zero_spec(&self) -> bool;

    /// Checks if `self` is near zero for floats or exactly zero for integers.
    fn is_near_zero(&self) -> (r: bool)
        ensures
            r == self.near_zero_spec(),
    ;
}

impl NearZero for i8 {
    open spec fn near_zero_spec(&self) -> bool {
        *self == 0
    }

    fn is_near_zero(&self) -> (r: bool) {
        *self == 0
    }
}

impl NearZero for i16 {
    open spec fn near_zero_spec(&self) -> bool {
        *self == 0
    }

    fn is_near_zero(&self) -> (r: bool) {
        *self == 0
    }
}

impl NearZero for i32 {
    open spec fn near_zero_spec(&self) -> bool {
        *self == 0
    }

    fn is_near_zero(&self) -> (r: bool) {
        *self == 0
    }
}

impl NearZero for i64 {
    open spec fn near_zero_spec(&self) -> bool {
        *self == 0
    }

    fn is_near_zero(&self) -> (r: bool) {
        *self == 0
    }
}

impl NearZero for i128 {
    open spec fn near_zero_spec(&self) -> bool {
        *self == 0
    }

    fn is_near_zero(&self) -> (r: bool) {
        *self == 0
    }
}

impl NearZero for isize {
    open spec fn near_zero_spec(&self) -> bool {
        *self == 0
    }

    fn is_near_zero(&self) -> (r: bool) {
        *self == 0
    }
}

impl NearZero for u8 {
    open spec fn near_zero_spec(&self) -> bool {
        *self == 0
    }

    fn is_near_zero(&self) -> (r: bool) {
        *self == 0
    }
}

impl NearZero for u16 {
    open spec fn near_zero_spec(&self) -> bool {
        *self == 0
    }

    fn is_near_zero(&self) -> (r: bool) {
        *self == 0
    }
}

impl NearZero for u32 {
    open spec fn near_zero_spec(&self) -> bool {
        *self == 0
    }

    fn is_near_zero(&self) -> (r: bool) {
        *self == 0
    }
}

impl NearZero for u64 {
    open spec fn near_zero_spec(&self) -> bool {
        *self == 0
    }

    fn is_near_zero(&self) -> (r: bool) {
        *self == 0
    }
}

impl NearZero for u128 {
    open spec fn near_zero_spec(&self) -> bool {
        *self == 0
    }

    fn is_near_zero(&self) -> (r: bool) {
        *self == 0
    }
}

impl NearZero for usize {
    open spec fn near_zero_spec(&self) -> bool {
        *self == 0
    }

    fn is_near_zero(&self) -> (r: bool) {
        *self == 0
    }
}

} // verus!
