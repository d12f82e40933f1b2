use core::cmp::Ordering;
use vstd::prelude::*;

verus! {

/// A pair ordered by its first component alone; the second rides along.
#[derive(Debug)]
pub struct OrdFirst<TA, TB>(pub TA, pub TB);

impl<TB> PartialEq for OrdFirst<u32, TB> {
    fn eq(&self, other: &Self) -> (r: bool) {
        self.0 == other.0
    }
}

impl<TB> vstd::std_specs::cmp::PartialEqSpecImpl for OrdFirst<u32, TB> {
    open spec fn obeys_eq_spec() -> bool {
        true
    }

    open spec fn eq_spec(&self, other: &Self) -> bool {
        self.0 == other.0
    }
}

impl<TB> Eq for OrdFirst<u32, TB> {

}

impl<TB> PartialOrd for OrdFirst<u32, TB> {
    fn partial_cmp(&self, other: &Self) -> (r: Option<Ordering>) {
        if self.0 < other.0 {
            Some(Ordering::Less)
        } else if self.0 == other.0 {
            Some(Ordering::Equal)
        } else {
            Some(Ordering::Greater)
        }
    }
}

impl<TB> vstd::std_specs::cmp::PartialOrdSpecImpl for OrdFirst<u32, TB> {
    open spec fn obeys_partial_cmp_spec() -> bool {
        true
    }

    open spec fn partial_cmp_spec(&self, other: &Self) -> Option<Ordering> {
        if self.0 < other.0 {
            Some(Ordering::Less)
        } else if self.0 == other.0 {
            Some(Ordering::Equal)
        } else {
            Some(Ordering::Greater)
        }
    }
}

} // verus!
