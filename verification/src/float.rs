//! Floating-point numbers as bit patterns, with one pattern for each group of equal numbers.
use std::hash::{Hash, Hasher};

use vstd::prelude::*;

verus! {

/// A single-precision number, held as its bit pattern.
#[derive(Clone, Copy, Debug)]
pub struct F32 {
    pub bits: u32,
}

/// A double-precision number, held as its bit pattern.
#[derive(Clone, Copy, Debug)]
pub struct F64 {
    pub bits: u64,
}

/// The pattern of the not-a-number that stands for all of them.
pub const CANONICAL_NAN_32: u32 = 0x7fc0_0000;

/// The pattern of the not-a-number that stands for all of them.
pub const CANONICAL_NAN_64: u64 = 0x7ff8_0000_0000_0000;

/// `std::hash::Hasher::write_u64`. What a hasher makes of the number is up to the hasher: nothing
/// is claimed of it.
#[verifier::external_body]
pub(crate) fn feed_u64<H: Hasher>(state: &mut H, n: u64) {
    state.write_u64(n)
}

impl Eq for F32 {

}

impl Eq for F64 {

}

impl Hash for F32 {
    /// Numbers that are equal are hashed alike.
    fn hash<H: Hasher>(&self, state: &mut H) {
        feed_u64(state, self.normalized().bits as u64);
    }
}

impl Hash for F64 {
    /// Numbers that are equal are hashed alike.
    fn hash<H: Hasher>(&self, state: &mut H) {
        feed_u64(state, self.normalized().bits);
    }
}

impl F32 {
    /// The exponent is all ones and the fraction is not zero.
    pub open spec fn is_nan(&self) -> bool {
        self.bits % 0x8000_0000 > 0x7f80_0000
    }

    /// All bits but the sign are zero.
    pub open spec fn is_zero(&self) -> bool {
        self.bits % 0x8000_0000 == 0
    }

    /// Both are not a number, both are a zero, or the patterns agree.
    pub open spec fn same_value(&self, other: &Self) -> bool {
        ||| self.is_nan() && other.is_nan()
        ||| self.is_zero() && other.is_zero()
        ||| self.bits == other.bits
    }

    /// The pattern that stands for all numbers equal to `self`.
    pub open spec fn normal_form(&self) -> F32 {
        if self.is_nan() {
            F32 { bits: CANONICAL_NAN_32 }
        } else if self.is_zero() {
            F32 { bits: 0 }
        } else {
            *self
        }
    }

    pub fn normalized(self) -> (r: Self)
        ensures
            r == self.normal_form(),
    {
        let magnitude: u32 = self.bits % 0x8000_0000;
        if magnitude > 0x7f80_0000 {
            F32 { bits: CANONICAL_NAN_32 }
        } else if magnitude == 0 {
            F32 { bits: 0 }
        } else {
            self
        }
    }
}

impl F64 {
    /// The exponent is all ones and the fraction is not zero.
    pub open spec fn is_nan(&self) -> bool {
        self.bits % 0x8000_0000_0000_0000 > 0x7ff0_0000_0000_0000
    }

    /// All bits but the sign are zero.
    pub open spec fn is_zero(&self) -> bool {
        self.bits % 0x8000_0000_0000_0000 == 0
    }

    /// Both are not a number, both are a zero, or the patterns agree.
    pub open spec fn same_value(&self, other: &Self) -> bool {
        ||| self.is_nan() && other.is_nan()
        ||| self.is_zero() && other.is_zero()
        ||| self.bits == other.bits
    }

    /// The pattern that stands for all numbers equal to `self`.
    pub open spec fn normal_form(&self) -> F64 {
        if self.is_nan() {
            F64 { bits: CANONICAL_NAN_64 }
        } else if self.is_zero() {
            F64 { bits: 0 }
        } else {
            *self
        }
    }

    pub fn normalized(self) -> (r: Self)
        ensures
            r == self.normal_form(),
    {
        let magnitude: u64 = self.bits % 0x8000_0000_0000_0000;
        if magnitude > 0x7ff0_0000_0000_0000 {
            F64 { bits: CANONICAL_NAN_64 }
        } else if magnitude == 0 {
            F64 { bits: 0 }
        } else {
            self
        }
    }
}

impl PartialEq for F32 {
    /// All zeros are equal, and so are all not-a-numbers.
    fn eq(&self, other: &Self) -> (r: bool) {
        self.normalized().bits == other.normalized().bits
    }
}

impl vstd::std_specs::cmp::PartialEqSpecImpl for F32 {
    open spec fn obeys_eq_spec() -> bool {
        true
    }

    open spec fn eq_spec(&self, other: &Self) -> bool {
        self.normal_form() == other.normal_form()
    }
}

impl PartialEq for F64 {
    /// All zeros are equal, and so are all not-a-numbers.
    fn eq(&self, other: &Self) -> (r: bool) {
        self.normalized().bits == other.normalized().bits
    }
}

impl vstd::std_specs::cmp::PartialEqSpecImpl for F64 {
    open spec fn obeys_eq_spec() -> bool {
        true
    }

    open spec fn eq_spec(&self, other: &Self) -> bool {
        self.normal_form() == other.normal_form()
    }
}

/// Two single-precision numbers are equal exactly when they have the same normal form.
pub proof fn f32_normal_form_is_canonical(a: F32, b: F32)
    ensures
        a.same_value(&b) <==> a.normal_form() == b.normal_form(),
        a.normal_form().normal_form() == a.normal_form(),
{
}

/// Two double-precision numbers are equal exactly when they have the same normal form.
pub proof fn f64_normal_form_is_canonical(a: F64, b: F64)
    ensures
        a.same_value(&b) <==> a.normal_form() == b.normal_form(),
        a.normal_form().normal_form() == a.normal_form(),
{
}

} // verus!
