//! The operators `==`, `<`, `<=`, `>` and `>=` on hands. They go by
//! category and ranks, as `Hand::compare` does; suits play no part, so two
//! hands can be `==` without holding the same cards.

use vstd::prelude::*;
use vstd::std_specs::cmp::{PartialEqSpecImpl, PartialOrdSpecImpl};
use std::cmp::Ordering;
use crate::hand::{Hand, Standing};
use crate::model::outcome;

verus! {

impl PartialEq for Hand {
    fn eq(&self, other: &Hand) -> (r: bool) {
        match self.compare(other) {
            Standing::Equal => true,
            _ => false,
        }
    }
}

impl PartialEqSpecImpl for Hand {
    open spec fn obeys_eq_spec() -> bool {
        true
    }

    open spec fn eq_spec(&self, other: &Hand) -> bool {
        outcome(self.kind(), self.layout(), other.kind(), other.layout()) == Standing::Equal
    }
}

impl PartialOrd for Hand {
    fn partial_cmp(&self, other: &Hand) -> (r: Option<Ordering>) {
        match self.compare(other) {
            Standing::Less => Some(Ordering::Less),
            Standing::Equal => Some(Ordering::Equal),
            Standing::Greater => Some(Ordering::Greater),
        }
    }
}

impl PartialOrdSpecImpl for Hand {
    open spec fn obeys_partial_cmp_spec() -> bool {
        true
    }

    open spec fn partial_cmp_spec(&self, other: &Hand) -> Option<Ordering> {
        match outcome(self.kind(), self.layout(), other.kind(), other.layout()) {
            Standing::Less => Some(Ordering::Less),
            Standing::Equal => Some(Ordering::Equal),
            Standing::Greater => Some(Ordering::Greater),
        }
    }
}

} // verus!
