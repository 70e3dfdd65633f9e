//! Equality and ordering of decimals of one scale. Two values of one type and
//! scale compare as their raw integers do, which is how their mathematical
//! values compare.
use core::cmp::Ordering;
use vstd::prelude::*;
use vstd::std_specs::cmp::{PartialEqSpec, PartialOrdSpec};

use crate::decimal32::Decimal32;
use crate::decimal64::Decimal64;
use crate::udecimal32::UDecimal32;
use crate::udecimal64::UDecimal64;

verus! {

/// The three-way comparison of two integers.
pub open spec fn compare_ints(a: int, b: int) -> Ordering {
    if a < b {
        Ordering::Less
    } else if a == b {
        Ordering::Equal
    } else {
        Ordering::Greater
    }
}

impl<const S: u32> PartialEq for Decimal32<S> {
    fn eq(&self, other: &Self) -> (r: bool) {
        self.raw() == other.raw()
    }
}

impl<const S: u32> vstd::std_specs::cmp::PartialEqSpecImpl for Decimal32<S> {
    open spec fn obeys_eq_spec() -> bool {
        true
    }

    open spec fn eq_spec(&self, other: &Self) -> bool {
        self@ == other@
    }
}

impl<const S: u32> PartialOrd for Decimal32<S> {
    fn partial_cmp(&self, other: &Self) -> (r: Option<Ordering>) {
        let a = self.raw();
        let b = other.raw();
        if a < b {
            Some(Ordering::Less)
        } else if a == b {
            Some(Ordering::Equal)
        } else {
            Some(Ordering::Greater)
        }
    }
}

impl<const S: u32> vstd::std_specs::cmp::PartialOrdSpecImpl for Decimal32<S> {
    open spec fn obeys_partial_cmp_spec() -> bool {
        true
    }

    open spec fn partial_cmp_spec(&self, other: &Self) -> Option<Ordering> {
        Some(compare_ints(self@, other@))
    }
}

impl<const S: u32> PartialEq for UDecimal32<S> {
    fn eq(&self, other: &Self) -> (r: bool) {
        self.raw() == other.raw()
    }
}

impl<const S: u32> vstd::std_specs::cmp::PartialEqSpecImpl for UDecimal32<S> {
    open spec fn obeys_eq_spec() -> bool {
        true
    }

    open spec fn eq_spec(&self, other: &Self) -> bool {
        self@ == other@
    }
}

impl<const S: u32> PartialOrd for UDecimal32<S> {
    fn partial_cmp(&self, other: &Self) -> (r: Option<Ordering>) {
        let a = self.raw();
        let b = other.raw();
        if a < b {
            Some(Ordering::Less)
        } else if a == b {
            Some(Ordering::Equal)
        } else {
            Some(Ordering::Greater)
        }
    }
}

impl<const S: u32> vstd::std_specs::cmp::PartialOrdSpecImpl for UDecimal32<S> {
    open spec fn obeys_partial_cmp_spec() -> bool {
        true
    }

    open spec fn partial_cmp_spec(&self, other: &Self) -> Option<Ordering> {
        Some(compare_ints(self@, other@))
    }
}

impl<const S: u32> PartialEq for Decimal64<S> {
    fn eq(&self, other: &Self) -> (r: bool) {
        self.raw() == other.raw()
    }
}

impl<const S: u32> vstd::std_specs::cmp::PartialEqSpecImpl for Decimal64<S> {
    open spec fn obeys_eq_spec() -> bool {
        true
    }

    open spec fn eq_spec(&self, other: &Self) -> bool {
        self@ == other@
    }
}

impl<const S: u32> PartialOrd for Decimal64<S> {
    fn partial_cmp(&self, other: &Self) -> (r: Option<Ordering>) {
        let a = self.raw();
        let b = other.raw();
        if a < b {
            Some(Ordering::Less)
        } else if a == b {
            Some(Ordering::Equal)
        } else {
            Some(Ordering::Greater)
        }
    }
}

impl<const S: u32> vstd::std_specs::cmp::PartialOrdSpecImpl for Decimal64<S> {
    open spec fn obeys_partial_cmp_spec() -> bool {
        true
    }

    open spec fn partial_cmp_spec(&self, other: &Self) -> Option<Ordering> {
        Some(compare_ints(self@, other@))
    }
}

impl<const S: u32> PartialEq for UDecimal64<S> {
    fn eq(&self, other: &Self) -> (r: bool) {
        self.raw() == other.raw()
    }
}

impl<const S: u32> vstd::std_specs::cmp::PartialEqSpecImpl for UDecimal64<S> {
    open spec fn obeys_eq_spec() -> bool {
        true
    }

    open spec fn eq_spec(&self, other: &Self) -> bool {
        self@ == other@
    }
}

impl<const S: u32> PartialOrd for UDecimal64<S> {
    fn partial_cmp(&self, other: &Self) -> (r: Option<Ordering>) {
        let a = self.raw();
        let b = other.raw();
        if a < b {
            Some(Ordering::Less)
        } else if a == b {
            Some(Ordering::Equal)
        } else {
            Some(Ordering::Greater)
        }
    }
}

impl<const S: u32> vstd::std_specs::cmp::PartialOrdSpecImpl for UDecimal64<S> {
    open spec fn obeys_partial_cmp_spec() -> bool {
        true
    }

    open spec fn partial_cmp_spec(&self, other: &Self) -> Option<Ordering> {
        Some(compare_ints(self@, other@))
    }
}

/// Two `Decimal32<S>` values compare as their raw integers do, which is how the
/// numbers they stand for compare: `<` holds exactly when the first raw value
/// is smaller (two negatives included), `==` exactly when they are equal.
pub proof fn law_decimal32_order<const S: u32>(a: Decimal32<S>, b: Decimal32<S>)
    ensures
        (a.partial_cmp_spec(&b) == Some(Ordering::Less)) <==> a@ < b@,
        (a.partial_cmp_spec(&b) == Some(Ordering::Equal)) <==> a@ == b@,
        (a.partial_cmp_spec(&b) == Some(Ordering::Greater)) <==> a@ > b@,
        a.eq_spec(&b) <==> a@ == b@,
{
}

/// Two `UDecimal32<S>` values compare as their raw integers do, which is how the
/// numbers they stand for compare: `<` holds exactly when the first raw value
/// is smaller (two negatives included), `==` exactly when they are equal.
pub proof fn law_udecimal32_order<const S: u32>(a: UDecimal32<S>, b: UDecimal32<S>)
    ensures
        (a.partial_cmp_spec(&b) == Some(Ordering::Less)) <==> a@ < b@,
        (a.partial_cmp_spec(&b) == Some(Ordering::Equal)) <==> a@ == b@,
        (a.partial_cmp_spec(&b) == Some(Ordering::Greater)) <==> a@ > b@,
        a.eq_spec(&b) <==> a@ == b@,
{
}

/// Two `Decimal64<S>` values compare as their raw integers do, which is how the
/// numbers they stand for compare: `<` holds exactly when the first raw value
/// is smaller (two negatives included), `==` exactly when they are equal.
pub proof fn law_decimal64_order<const S: u32>(a: Decimal64<S>, b: Decimal64<S>)
    ensures
        (a.partial_cmp_spec(&b) == Some(Ordering::Less)) <==> a@ < b@,
        (a.partial_cmp_spec(&b) == Some(Ordering::Equal)) <==> a@ == b@,
        (a.partial_cmp_spec(&b) == Some(Ordering::Greater)) <==> a@ > b@,
        a.eq_spec(&b) <==> a@ == b@,
{
}

/// Two `UDecimal64<S>` values compare as their raw integers do, which is how the
/// numbers they stand for compare: `<` holds exactly when the first raw value
/// is smaller (two negatives included), `==` exactly when they are equal.
pub proof fn law_udecimal64_order<const S: u32>(a: UDecimal64<S>, b: UDecimal64<S>)
    ensures
        (a.partial_cmp_spec(&b) == Some(Ordering::Less)) <==> a@ < b@,
        (a.partial_cmp_spec(&b) == Some(Ordering::Equal)) <==> a@ == b@,
        (a.partial_cmp_spec(&b) == Some(Ordering::Greater)) <==> a@ > b@,
        a.eq_spec(&b) <==> a@ == b@,
{
}

} // verus!
