//! Mathematical vectors underlie translations and positions: tuples of
//! coordinates that can be subtracted and added.
use vstd::prelude::*;

verus! {

/// Determine the difference of two mathematical vectors.
pub trait VectorDifference<T>: Sized {
    /// Every component of `other - self` fits the component type.
    spec fn difference_fits(&self, other: &T) -> bool;

    /// `other - self`, component by component.
    spec fn spec_difference(&self, other: &T) -> T;

    /// other - self
    fn difference(&self, other: &T) -> (r: T)
        requires
            self.difference_fits(other),
        ensures
            r == self.spec_difference(other),
    ;
}

/// Add a mathematical vector to another.
pub trait VectorAdd<T>: Sized {
    /// Every component of `self + other` fits the component type.
    spec fn sum_fits(&self, other: &T) -> bool;

    /// `self + other`, component by component.
    spec fn spec_sum(&self, other: &T) -> Self;

    /// self += other
    fn add(&mut self, other: &T)
        requires
            old(self).sum_fits(other),
        ensures
            *final(self) == old(self).spec_sum(other),
    ;
}

/// Whether `c` fits in an `i8`.
pub open spec fn fits_i8(c: int) -> bool {
    i8::MIN <= c <= i8::MAX
}

impl VectorDifference<(i8, i8)> for (i8, i8) {
    open spec fn difference_fits(&self, other: &(i8, i8)) -> bool {
        fits_i8(other.0 - self.0) && fits_i8(other.1 - self.1)
    }

    open spec fn spec_difference(&self, other: &(i8, i8)) -> (i8, i8) {
        ((other.0 - self.0) as i8, (other.1 - self.1) as i8)
    }

    fn difference(&self, other: &(i8, i8)) -> (r: (i8, i8)) {
        (other.0 - self.0, other.1 - self.1)
    }
}

impl VectorDifference<(i8, i8, i8)> for (i8, i8, i8) {
    open spec fn difference_fits(&self, other: &(i8, i8, i8)) -> bool {
        fits_i8(other.0 - self.0) && fits_i8(other.1 - self.1) && fits_i8(other.2 - self.2)
    }

    open spec fn spec_difference(&self, other: &(i8, i8, i8)) -> (i8, i8, i8) {
        ((other.0 - self.0) as i8, (other.1 - self.1) as i8, (other.2 - self.2) as i8)
    }

    fn difference(&self, other: &(i8, i8, i8)) -> (r: (i8, i8, i8)) {
        (other.0 - self.0, other.1 - self.1, other.2 - self.2)
    }
}

impl VectorAdd<(i8, i8)> for (i8, i8) {
    open spec fn sum_fits(&self, other: &(i8, i8)) -> bool {
        fits_i8(self.0 + other.0) && fits_i8(self.1 + other.1)
    }

    open spec fn spec_sum(&self, other: &(i8, i8)) -> (i8, i8) {
        ((self.0 + other.0) as i8, (self.1 + other.1) as i8)
    }

    fn add(&mut self, other: &(i8, i8)) {
        self.0 = self.0 + other.0;
        self.1 = self.1 + other.1;
    }
}

impl VectorAdd<(i8, i8, i8)> for (i8, i8, i8) {
    open spec fn sum_fits(&self, other: &(i8, i8, i8)) -> bool {
        fits_i8(self.0 + other.0) && fits_i8(self.1 + other.1) && fits_i8(self.2 + other.2)
    }

    open spec fn spec_sum(&self, other: &(i8, i8, i8)) -> (i8, i8, i8) {
        ((self.0 + other.0) as i8, (self.1 + other.1) as i8, (self.2 + other.2) as i8)
    }

    fn add(&mut self, other: &(i8, i8, i8)) {
        self.0 = self.0 + other.0;
        self.1 = self.1 + other.1;
        self.2 = self.2 + other.2;
    }
}

} // verus!
