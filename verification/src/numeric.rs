use vstd::prelude::*;

verus! {

/// The element type of the calculator: the engine fixes every structural
/// decision (shapes, dimensions, stack discipline, dispatch) and leaves the
/// element arithmetic to the implementor, typically a machine float kept
/// outside the verified core. The trait promises nothing about the values
/// the operations return, so nothing proved here rests on an impl.
pub trait Numeric: Sized + Copy {
    /// The additive identity, used to fill fresh vectors and matrices.
    fn zero() -> Self;

    /// The multiplicative identity, used on the diagonal of an identity
    /// matrix.
    fn one() -> Self;

    fn add(&self, other: &Self) -> Self;

    fn sub(&self, other: &Self) -> Self;

    fn mul(&self, other: &Self) -> Self;

    fn div(&self, other: &Self) -> Self;

    /// The remainder operation behind the `%` operator.
    fn modulo(&self, other: &Self) -> Self;

    /// Raising to a power, the `^` operator.
    fn pow(&self, other: &Self) -> Self;

    fn sqrt(&self) -> Self;

    fn atan(&self) -> Self;

    /// Value equality as the element type defines it.
    fn eq_num(&self, other: &Self) -> bool;

    /// Whether this element has strictly greater magnitude than the other;
    /// decides pivot choice during elimination.
    fn abs_gt(&self, other: &Self) -> bool;

    /// Whether the magnitude is below the singularity threshold of the
    /// elimination kernels.
    fn is_negligible(&self) -> bool;

    /// Reads an element from literal text, `None` when the text does not
    /// denote one.
    fn from_text(s: &str) -> Option<Self>;

    /// Writes the element as the text the codec stores.
    fn to_text(&self) -> String;
}

} // verus!
