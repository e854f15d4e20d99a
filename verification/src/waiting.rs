//! One pending wake-up.

use crate::time::Time;
use core::cmp::Ordering;
use vstd::prelude::*;
use vstd::std_specs::cmp::PartialEqSpecImpl;
use vstd::std_specs::cmp::PartialOrdSpecImpl;

verus! {

/// A request to resume the task `id` once the clock reaches `time`.
///
/// Entries compare by `time` alone, and the earlier one is the greater: in a
/// collection that hands out its greatest item first, the earliest wake-up
/// comes first.
pub struct Waiting<T: Time> {
    pub id: usize,
    pub time: T,
}

impl<T: Time> View for Waiting<T> {
    type V = (int, usize);

    /// The wake-up instant in ticks, and the task.
    open spec fn view(&self) -> (int, usize) {
        (self.time.ticks(), self.id)
    }
}

impl<T: Time> PartialEq for Waiting<T> {
    fn eq(&self, other: &Self) -> (same: bool) {
        !self.time.is_before(&other.time) && !other.time.is_before(&self.time)
    }
}

impl<T: Time> PartialEqSpecImpl for Waiting<T> {
    open spec fn obeys_eq_spec() -> bool {
        true
    }

    open spec fn eq_spec(&self, other: &Self) -> bool {
        self.time.ticks() == other.time.ticks()
    }
}

impl<T: Time> Eq for Waiting<T> {

}

impl<T: Time> PartialOrd for Waiting<T> {
    fn partial_cmp(&self, other: &Self) -> (order: Option<Ordering>) {
        Some(self.cmp(other))
    }
}

impl<T: Time> PartialOrdSpecImpl for Waiting<T> {
    open spec fn obeys_partial_cmp_spec() -> bool {
        true
    }

    open spec fn partial_cmp_spec(&self, other: &Self) -> Option<Ordering> {
        Some(self.reversed_order(other))
    }
}

impl<T: Time> Waiting<T> {
    /// How this entry stands to `other`: the order of their times, reversed.
    pub open spec fn reversed_order(&self, other: &Self) -> Ordering {
        if self.time.ticks() < other.time.ticks() {
            Ordering::Greater
        } else if other.time.ticks() < self.time.ticks() {
            Ordering::Less
        } else {
            Ordering::Equal
        }
    }

    /// Compares two entries by their times, the earlier one being the greater.
    pub fn cmp(&self, other: &Self) -> (order: Ordering)
        ensures
            order == self.reversed_order(other),
    {
        if self.time.is_before(&other.time) {
            Ordering::Greater
        } else if other.time.is_before(&self.time) {
            Ordering::Less
        } else {
            Ordering::Equal
        }
    }

    /// Whether this entry is due strictly before `other`.
    pub fn is_due_before(&self, other: &Self) -> (earlier: bool)
        ensures
            earlier == (self@.0 < other@.0),
    {
        *self > *other
    }
}

} // verus!
