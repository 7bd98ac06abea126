//! Coordinate axes and the conversion of colours to bytes.
use vstd::prelude::*;
use crate::geometry::scalar::{lemma_mul_zero, quotient, Scalar};
use crate::geometry::vector::Vector;

verus! {

/// One of the three coordinate axes.
#[derive(Clone, Copy, PartialEq, Eq, Structural, Debug)]
pub enum Axis {
    X,
    Y,
    Z,
}

impl Vector {
    /// The component of the vector along `axis`.
    pub open spec fn spec_along(self, axis: Axis) -> Scalar {
        match axis {
            Axis::X => self.x,
            Axis::Y => self.y,
            Axis::Z => self.z,
        }
    }

    /// The vector that reaches `length` along `axis`.
    pub open spec fn spec_axis(axis: Axis, length: Scalar) -> Vector {
        match axis {
            Axis::X => Vector { x: length, y: Scalar::spec_zero(), z: Scalar::spec_zero() },
            Axis::Y => Vector { x: Scalar::spec_zero(), y: length, z: Scalar::spec_zero() },
            Axis::Z => Vector { x: Scalar::spec_zero(), y: Scalar::spec_zero(), z: length },
        }
    }

    /// The component of the vector along `axis`.
    pub fn along(&self, axis: Axis) -> (r: Scalar)
        ensures
            r == self.spec_along(axis),
    {
        match axis {
            Axis::X => self.x,
            Axis::Y => self.y,
            Axis::Z => self.z,
        }
    }
}

/// The dot product of two vectors along the same axis is the product of
/// their lengths.
pub proof fn lemma_dot_along_axis(axis: Axis, a: Scalar, b: Scalar)
    ensures
        Vector::spec_axis(axis, a).spec_dot(Vector::spec_axis(axis, b)) == a.spec_mul(b),
{
    lemma_mul_zero(Scalar::spec_zero());
}

/// The byte that stands for a colour channel: the whole part of
/// `channel * 255`, limited to the range of a byte.
pub open spec fn spec_channel(channel: Scalar) -> int {
    let scaled = quotient(channel.raw * 255, 0x1_0000_0000);
    if scaled < 0 {
        0
    } else if scaled > 255 {
        255
    } else {
        scaled
    }
}

/// The three bytes that stand for a colour.
pub open spec fn spec_to_rgb(vector: Vector) -> Seq<u8> {
    seq![
        spec_channel(vector.x) as u8,
        spec_channel(vector.y) as u8,
        spec_channel(vector.z) as u8,
    ]
}

/// The byte that stands for a colour channel.
fn channel(c: Scalar) -> (r: u8)
    ensures
        r == spec_channel(c),
{
    if c.raw <= 0 {
        0
    } else {
        let scaled: i128 = (c.raw as i128 * 255) / 0x1_0000_0000;
        if scaled > 255 {
            255
        } else {
            scaled as u8
        }
    }
}

/// Maps a colour to its red, green and blue bytes.
pub fn to_rgb(vector: &Vector) -> (r: [u8; 3])
    ensures
        r@ == spec_to_rgb(*vector),
{
    let r = [channel(vector.x), channel(vector.y), channel(vector.z)];
    assert(r@ =~= spec_to_rgb(*vector));
    r
}

} // verus!
