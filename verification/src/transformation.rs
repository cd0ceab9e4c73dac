//! Builders for the primitive affine transforms whose entries are taken
//! unchanged from their arguments: translation, scaling and shearing place
//! the given scalars into an identity frame. Rotations, whose entries must be
//! computed numerically (sines and cosines), belong to the caller, as does
//! composing transforms by matrix multiplication.

use vstd::prelude::*;

use crate::matrix::Matrix4;
use crate::matrix::Scalar;
use crate::matrix::identity_entry;

verus! {

/// The entries of a translation by (x, y, z).
pub open spec fn translation_entry(x: Scalar, y: Scalar, z: Scalar, r: int, c: int) -> Scalar {
    if r == 0 && c == 3 {
        x
    } else if r == 1 && c == 3 {
        y
    } else if r == 2 && c == 3 {
        z
    } else {
        identity_entry(r, c)
    }
}

/// The entries of a scaling by (x, y, z).
pub open spec fn scaling_entry(x: Scalar, y: Scalar, z: Scalar, r: int, c: int) -> Scalar {
    if r == 0 && c == 0 {
        x
    } else if r == 1 && c == 1 {
        y
    } else if r == 2 && c == 2 {
        z
    } else {
        identity_entry(r, c)
    }
}

/// The entries of a shearing with the six proportionality scalars.
pub open spec fn shearing_entry(
    xy: Scalar,
    xz: Scalar,
    yx: Scalar,
    yz: Scalar,
    zx: Scalar,
    zy: Scalar,
    r: int,
    c: int,
) -> Scalar {
    if r == 0 && c == 1 {
        xy
    } else if r == 0 && c == 2 {
        xz
    } else if r == 1 && c == 0 {
        yx
    } else if r == 1 && c == 2 {
        yz
    } else if r == 2 && c == 0 {
        zx
    } else if r == 2 && c == 1 {
        zy
    } else {
        identity_entry(r, c)
    }
}

/// The matrix that moves points by (x, y, z) and leaves vectors alone.
pub fn translation(x: Scalar, y: Scalar, z: Scalar) -> (m: Matrix4)
    ensures
        m.wf(),
        forall|r: int, c: int|
            0 <= r < 4 && 0 <= c < 4 ==> #[trigger] m.at(r, c) == translation_entry(x, y, z, r, c),
{
    let mut m = Matrix4::identity();
    m.set(0, 3, x);
    m.set(1, 3, y);
    m.set(2, 3, z);
    m
}

/// The matrix that scales each axis by its scalar.
pub fn scaling(x: Scalar, y: Scalar, z: Scalar) -> (m: Matrix4)
    ensures
        m.wf(),
        forall|r: int, c: int|
            0 <= r < 4 && 0 <= c < 4 ==> #[trigger] m.at(r, c) == scaling_entry(x, y, z, r, c),
{
    let mut m = Matrix4::identity();
    m.set(0, 0, x);
    m.set(1, 1, y);
    m.set(2, 2, z);
    m
}

/// The matrix that shears each coordinate in proportion to the other two.
pub fn shearing(
    xy: Scalar,
    xz: Scalar,
    yx: Scalar,
    yz: Scalar,
    zx: Scalar,
    zy: Scalar,
) -> (m: Matrix4)
    ensures
        m.wf(),
        forall|r: int, c: int|
            0 <= r < 4 && 0 <= c < 4 ==> #[trigger] m.at(r, c) == shearing_entry(
                xy,
                xz,
                yx,
                yz,
                zx,
                zy,
                r,
                c,
            ),
{
    let mut m = Matrix4::identity();
    m.set(0, 1, xy);
    m.set(0, 2, xz);
    m.set(1, 0, yx);
    m.set(1, 2, yz);
    m.set(2, 0, zx);
    m.set(2, 1, zy);
    m
}

} // verus!
