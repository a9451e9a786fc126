//! Quantities that measure an extent along a line.

use vstd::prelude::*;

verus! {

/// A quantity that measures an extent: it can be added and subtracted, is
/// totally ordered, and has a zero.
///
/// Every quantity stands for a natural number, its [`value`](Summable::value),
/// and sums are formed as long as they stay within the
/// [`limit`](Summable::limit) of the type. Contracts speak of the measures,
/// never of the representation.
pub trait Summable: Copy {
    /// The measure this quantity stands for.
    spec fn value(self) -> nat;

    /// The largest measure the type can hold.
    spec fn limit() -> nat;

    /// The quantity that measures nothing.
    fn zero() -> (z: Self)
        ensures
            z.value() == 0,
    ;

    /// The sum of two quantities whose sum the type can hold.
    fn plus(self, other: Self) -> (sum: Self)
        requires
            self.value() + other.value() <= Self::limit(),
        ensures
            sum.value() == self.value() + other.value(),
    ;

    /// The sum of two quantities, or `None` when the type cannot hold it.
    fn checked_plus(self, other: Self) -> (sum: Option<Self>)
        ensures
            self.value() + other.value() <= Self::limit() ==> sum.is_some() && sum.unwrap().value()
                == self.value() + other.value(),
            self.value() + other.value() > Self::limit() ==> sum.is_none(),
    ;

    /// What is left of `self` once `other`, which is no larger, is taken away.
    fn minus(self, other: Self) -> (rest: Self)
        requires
            other.value() <= self.value(),
        ensures
            rest.value() == self.value() - other.value(),
    ;

    /// Whether `self` measures strictly less than `other`.
    fn less_than(self, other: Self) -> (less: bool)
        ensures
            less == (self.value() < other.value()),
    ;
}

impl Summable for u8 {
    open spec fn value(self) -> nat {
        self as nat
    }

    open spec fn limit() -> nat {
        u8::MAX as nat
    }

    fn zero() -> (z: Self) {
        0
    }

    fn plus(self, other: Self) -> (sum: Self) {
        self + other
    }

    fn checked_plus(self, other: Self) -> (sum: Option<Self>) {
        self.checked_add(other)
    }

    fn minus(self, other: Self) -> (rest: Self) {
        self - other
    }

    fn less_than(self, other: Self) -> (less: bool) {
        self < other
    }
}

impl Summable for u16 {
    open spec fn value(self) -> nat {
        self as nat
    }

    open spec fn limit() -> nat {
        u16::MAX as nat
    }

    fn zero() -> (z: Self) {
        0
    }

    fn plus(self, other: Self) -> (sum: Self) {
        self + other
    }

    fn checked_plus(self, other: Self) -> (sum: Option<Self>) {
        self.checked_add(other)
    }

    fn minus(self, other: Self) -> (rest: Self) {
        self - other
    }

    fn less_than(self, other: Self) -> (less: bool) {
        self < other
    }
}

impl Summable for u32 {
    open spec fn value(self) -> nat {
        self as nat
    }

    open spec fn limit() -> nat {
        u32::MAX as nat
    }

    fn zero() -> (z: Self) {
        0
    }

    fn plus(self, other: Self) -> (sum: Self) {
        self + other
    }

    fn checked_plus(self, other: Self) -> (sum: Option<Self>) {
        self.checked_add(other)
    }

    fn minus(self, other: Self) -> (rest: Self) {
        self - other
    }

    fn less_than(self, other: Self) -> (less: bool) {
        self < other
    }
}

impl Summable for u64 {
    open spec fn value(self) -> nat {
        self as nat
    }

    open spec fn limit() -> nat {
        u64::MAX as nat
    }

    fn zero() -> (z: Self) {
        0
    }

    fn plus(self, other: Self) -> (sum: Self) {
        self + other
    }

    fn checked_plus(self, other: Self) -> (sum: Option<Self>) {
        self.checked_add(other)
    }

    fn minus(self, other: Self) -> (rest: Self) {
        self - other
    }

    fn less_than(self, other: Self) -> (less: bool) {
        self < other
    }
}

impl Summable for u128 {
    open spec fn value(self) -> nat {
        self as nat
    }

    open spec fn limit() -> nat {
        u128::MAX as nat
    }

    fn zero() -> (z: Self) {
        0
    }

    fn plus(self, other: Self) -> (sum: Self) {
        self + other
    }

    fn checked_plus(self, other: Self) -> (sum: Option<Self>) {
        self.checked_add(other)
    }

    fn minus(self, other: Self) -> (rest: Self) {
        self - other
    }

    fn less_than(self, other: Self) -> (less: bool) {
        self < other
    }
}

impl Summable for usize {
    open spec fn value(self) -> nat {
        self as nat
    }

    open spec fn limit() -> nat {
        usize::MAX as nat
    }

    fn zero() -> (z: Self) {
        0
    }

    fn plus(self, other: Self) -> (sum: Self) {
        self + other
    }

    fn checked_plus(self, other: Self) -> (sum: Option<Self>) {
        self.checked_add(other)
    }

    fn minus(self, other: Self) -> (rest: Self) {
        self - other
    }

    fn less_than(self, other: Self) -> (less: bool) {
        self < other
    }
}

} // verus!
