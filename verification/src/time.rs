//! The time line that the scheduler runs on.

use vstd::prelude::*;

verus! {

/// An instant of virtual time, or a span of it.
///
/// The scheduler orders instants, copies them, and adds a span to an instant.
/// Every contract speaks of a value through `ticks`, its place on the time
/// line as a mathematical integer.
pub trait Time: Sized {
    /// The place of this value on the time line.
    spec fn ticks(&self) -> int;

    /// Whether the type can hold the instant that lies at `ticks`.
    spec fn representable(ticks: int) -> bool;

    /// Whether this instant lies strictly before `other`.
    fn is_before(&self, other: &Self) -> (earlier: bool)
        ensures
            earlier == (self.ticks() < other.ticks()),
    ;

    /// A second value for the same instant.
    fn duplicate(&self) -> (copy: Self)
        ensures
            copy.ticks() == self.ticks(),
    ;

    /// Whether the type can hold the instant that lies `span` after this one.
    fn can_advance_by(&self, span: &Self) -> (fits: bool)
        ensures
            fits == Self::representable(self.ticks() + span.ticks()),
    ;

    /// The instant that lies `span` after this one.
    fn advanced_by(&self, span: &Self) -> (later: Self)
        requires
            Self::representable(self.ticks() + span.ticks()),
        ensures
            later.ticks() == self.ticks() + span.ticks(),
    ;
}

impl Time for u64 {
    open spec fn ticks(&self) -> int {
        *self as int
    }

    open spec fn representable(ticks: int) -> bool {
        0 <= ticks <= u64::MAX
    }

    fn is_before(&self, other: &Self) -> (earlier: bool) {
        *self < *other
    }

    fn duplicate(&self) -> (copy: Self) {
        *self
    }

    fn can_advance_by(&self, span: &Self) -> (fits: bool) {
        *span <= u64::MAX - *self
    }

    fn advanced_by(&self, span: &Self) -> (later: Self) {
        *self + *span
    }
}

impl Time for u32 {
    open spec fn ticks(&self) -> int {
        *self as int
    }

    open spec fn representable(ticks: int) -> bool {
        0 <= ticks <= u32::MAX
    }

    fn is_before(&self, other: &Self) -> (earlier: bool) {
        *self < *other
    }

    fn duplicate(&self) -> (copy: Self) {
        *self
    }

    fn can_advance_by(&self, span: &Self) -> (fits: bool) {
        *span <= u32::MAX - *self
    }

    fn advanced_by(&self, span: &Self) -> (later: Self) {
        *self + *span
    }
}

impl Time for usize {
    open spec fn ticks(&self) -> int {
        *self as int
    }

    open spec fn representable(ticks: int) -> bool {
        0 <= ticks <= usize::MAX
    }

    fn is_before(&self, other: &Self) -> (earlier: bool) {
        *self < *other
    }

    fn duplicate(&self) -> (copy: Self) {
        *self
    }

    fn can_advance_by(&self, span: &Self) -> (fits: bool) {
        *span <= usize::MAX - *self
    }

    fn advanced_by(&self, span: &Self) -> (later: Self) {
        *self + *span
    }
}

impl Time for i64 {
    open spec fn ticks(&self) -> int {
        *self as int
    }

    open spec fn representable(ticks: int) -> bool {
        i64::MIN <= ticks <= i64::MAX
    }

    fn is_before(&self, other: &Self) -> (earlier: bool) {
        *self < *other
    }

    fn duplicate(&self) -> (copy: Self) {
        *self
    }

    fn can_advance_by(&self, span: &Self) -> (fits: bool) {
        if *span >= 0 {
            *self <= i64::MAX - *span
        } else {
            *self >= i64::MIN - *span
        }
    }

    fn advanced_by(&self, span: &Self) -> (later: Self) {
        *self + *span
    }
}

impl Time for i32 {
    open spec fn ticks(&self) -> int {
        *self as int
    }

    open spec fn representable(ticks: int) -> bool {
        i32::MIN <= ticks <= i32::MAX
    }

    fn is_before(&self, other: &Self) -> (earlier: bool) {
        *self < *other
    }

    fn duplicate(&self) -> (copy: Self) {
        *self
    }

    fn can_advance_by(&self, span: &Self) -> (fits: bool) {
        if *span >= 0 {
            *self <= i32::MAX - *span
        } else {
            *self >= i32::MIN - *span
        }
    }

    fn advanced_by(&self, span: &Self) -> (later: Self) {
        *self + *span
    }
}

} // verus!
