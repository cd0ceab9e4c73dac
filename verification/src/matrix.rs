//! The structural part of the matrix kernel: square matrices of opaque
//! scalar entries, entry access, transposition, and minor extraction.
//!
//! An entry is carried as the raw bit pattern of an IEEE 754 single-precision
//! value; this module only ever moves entries around, so everything here is
//! exact. Arithmetic on entries (products, determinants, inverses) is numeric
//! work that belongs to the caller, which converts at the boundary.

use vstd::prelude::*;

verus! {

/// One matrix entry: the bit pattern of a single-precision value.
pub type Scalar = u32;

/// Bit pattern of the scalar zero.
pub const SCALAR_ZERO: Scalar = 0;

/// Bit pattern of the scalar one.
pub const SCALAR_ONE: Scalar = 0x3F80_0000;

/// The row (or column) of the full matrix that row (or column) `i` of a
/// minor comes from, when `removed` is the one taken out.
pub open spec fn skip_index(i: int, removed: int) -> int {
    if i < removed {
        i
    } else {
        i + 1
    }
}

/// Extraction of the minor that removes one row and one column, leaving the
/// order of the remaining entries unchanged.
pub trait Submatrix<T> {
    /// When the extraction is defined: the matrix is well formed and the
    /// removed row and column exist.
    spec fn submatrix_req(&self, row: usize, col: usize) -> bool;

    /// What the extraction returns: every entry of the minor is the entry of
    /// the full matrix that survives at its place.
    spec fn submatrix_ens(&self, row: usize, col: usize, m: T) -> bool;

    fn submatrix(&self, row: usize, col: usize) -> (m: T)
        requires
            self.submatrix_req(row, col),
        ensures
            self.submatrix_ens(row, col, m),
    ;
}

/// A 2×2 matrix of scalar entries, row-major.
#[derive(Clone, Debug, PartialEq, Eq)]
pub struct Matrix2 {
    pub data: Vec<Scalar>,
}

impl Matrix2 {
    pub open spec fn wf(self) -> bool {
        self.data@.len() == 4
    }

    pub open spec fn at(self, r: int, c: int) -> Scalar {
        self.data@[r * 2 + c]
    }

    pub fn new(data: Vec<Scalar>) -> (m: Matrix2)
        requires
            data@.len() == 4,
        ensures
            m.wf(),
            m.data@ == data@,
    {
        Matrix2 { data }
    }

    pub fn get(&self, r: usize, c: usize) -> (s: Scalar)
        requires
            self.wf(),
            r < 2,
            c < 2,
        ensures
            s == self.at(r as int, c as int),
    {
        self.data[r * 2 + c]
    }
}

/// A 3×3 matrix of scalar entries, row-major.
#[derive(Clone, Debug, PartialEq, Eq)]
pub struct Matrix3 {
    pub data: Vec<Scalar>,
}

impl Matrix3 {
    pub open spec fn wf(self) -> bool {
        self.data@.len() == 9
    }

    pub open spec fn at(self, r: int, c: int) -> Scalar {
        self.data@[r * 3 + c]
    }

    pub fn new(data: Vec<Scalar>) -> (m: Matrix3)
        requires
            data@.len() == 9,
        ensures
            m.wf(),
            m.data@ == data@,
    {
        Matrix3 { data }
    }

    pub fn get(&self, r: usize, c: usize) -> (s: Scalar)
        requires
            self.wf(),
            r < 3,
            c < 3,
        ensures
            s == self.at(r as int, c as int),
    {
        self.data[r * 3 + c]
    }
}

/// A 4×4 matrix of scalar entries, row-major.
#[derive(Clone, Debug, PartialEq, Eq)]
pub struct Matrix4 {
    pub data: Vec<Scalar>,
}

impl Matrix4 {
    pub open spec fn wf(self) -> bool {
        self.data@.len() == 16
    }

    pub open spec fn at(self, r: int, c: int) -> Scalar {
        self.data@[r * 4 + c]
    }

    pub fn new(data: Vec<Scalar>) -> (m: Matrix4)
        requires
            data@.len() == 16,
        ensures
            m.wf(),
            m.data@ == data@,
    {
        Matrix4 { data }
    }

    pub fn get(&self, r: usize, c: usize) -> (s: Scalar)
        requires
            self.wf(),
            r < 4,
            c < 4,
        ensures
            s == self.at(r as int, c as int),
    {
        self.data[r * 4 + c]
    }

    /// Replace the entry at row `r`, column `c`.
    pub fn set(&mut self, r: usize, c: usize, v: Scalar)
        requires
            old(self).wf(),
            r < 4,
            c < 4,
        ensures
            final(self).wf(),
            final(self).at(r as int, c as int) == v,
            forall|rr: int, cc: int|
                0 <= rr < 4 && 0 <= cc < 4 && !(rr == r && cc == c) ==> #[trigger] final(self).at(
                    rr,
                    cc,
                ) == old(self).at(rr, cc),
    {
        let i = r * 4 + c;
        self.data[i] = v;
    }

    /// The matrix with rows and columns exchanged.
    pub fn transpose(&self) -> (m: Matrix4)
        requires
            self.wf(),
        ensures
            m.wf(),
            forall|r: int, c: int|
                0 <= r < 4 && 0 <= c < 4 ==> #[trigger] m.at(r, c) == self.at(c, r),
    {
        let mut data: Vec<Scalar> = Vec::new();
        let mut r: usize = 0;
        while r < 4
            invariant
                self.wf(),
                r <= 4,
                data@.len() == 4 * r,
                forall|rr: int, cc: int|
                    0 <= rr < r && 0 <= cc < 4 ==> data@[rr * 4 + cc] == self.at(cc, rr),
            decreases 4 - r,
        {
            let mut c: usize = 0;
            while c < 4
                invariant
                    self.wf(),
                    r < 4,
                    c <= 4,
                    data@.len() == 4 * r + c,
                    forall|rr: int, cc: int|
                        0 <= rr < r && 0 <= cc < 4 ==> data@[rr * 4 + cc] == self.at(cc, rr),
                    forall|cc: int| 0 <= cc < c ==> data@[r * 4 + cc] == self.at(cc, r as int),
                decreases 4 - c,
            {
                data.push(self.get(c, r));
                c = c + 1;
            }
            r = r + 1;
        }
        Matrix4 { data }
    }

    /// The identity matrix.
    pub fn identity() -> (m: Matrix4)
        ensures
            m.wf(),
            forall|r: int, c: int|
                0 <= r < 4 && 0 <= c < 4 ==> #[trigger] m.at(r, c) == identity_entry(r, c),
    {
        let mut data: Vec<Scalar> = Vec::new();
        let mut r: usize = 0;
        while r < 4
            invariant
                r <= 4,
                data@.len() == 4 * r,
                forall|rr: int, cc: int|
                    0 <= rr < r && 0 <= cc < 4 ==> data@[rr * 4 + cc] == identity_entry(rr, cc),
            decreases 4 - r,
        {
            let mut c: usize = 0;
            while c < 4
                invariant
                    r < 4,
                    c <= 4,
                    data@.len() == 4 * r + c,
                    forall|rr: int, cc: int|
                        0 <= rr < r && 0 <= cc < 4 ==> data@[rr * 4 + cc] == identity_entry(rr, cc),
                    forall|cc: int| 0 <= cc < c ==> data@[r * 4 + cc] == identity_entry(
                        r as int,
                        cc,
                    ),
                decreases 4 - c,
            {
                if r == c {
                    data.push(SCALAR_ONE);
                } else {
                    data.push(SCALAR_ZERO);
                }
                c = c + 1;
            }
            r = r + 1;
        }
        Matrix4 { data }
    }
}

/// The entries of the identity matrix.
pub open spec fn identity_entry(r: int, c: int) -> Scalar {
    if r == c {
        SCALAR_ONE
    } else {
        SCALAR_ZERO
    }
}

impl Submatrix<Matrix2> for Matrix3 {
    open spec fn submatrix_req(&self, row: usize, col: usize) -> bool {
        self.wf() && row < 3 && col < 3
    }

    open spec fn submatrix_ens(&self, row: usize, col: usize, m: Matrix2) -> bool {
        m.wf() && forall|r: int, c: int|
            0 <= r < 2 && 0 <= c < 2 ==> #[trigger] m.at(r, c) == self.at(
                skip_index(r, row as int),
                skip_index(c, col as int),
            )
    }

    fn submatrix(&self, row: usize, col: usize) -> (m: Matrix2) {
        let mut data: Vec<Scalar> = Vec::new();
        let mut r: usize = 0;
        while r < 2
            invariant
                self.wf(),
                row < 3,
                col < 3,
                r <= 2,
                data@.len() == 2 * r,
                forall|rr: int, cc: int|
                    0 <= rr < r && 0 <= cc < 2 ==> data@[rr * 2 + cc] == self.at(
                        skip_index(rr, row as int),
                        skip_index(cc, col as int),
                    ),
            decreases 2 - r,
        {
            let sr = if r < row {
                r
            } else {
                r + 1
            };
            let mut c: usize = 0;
            while c < 2
                invariant
                    self.wf(),
                    row < 3,
                    col < 3,
                    r < 2,
                    c <= 2,
                    sr == skip_index(r as int, row as int),
                    data@.len() == 2 * r + c,
                    forall|rr: int, cc: int|
                        0 <= rr < r && 0 <= cc < 2 ==> data@[rr * 2 + cc] == self.at(
                            skip_index(rr, row as int),
                            skip_index(cc, col as int),
                        ),
                    forall|cc: int|
                        0 <= cc < c ==> data@[r * 2 + cc] == self.at(
                            skip_index(r as int, row as int),
                            skip_index(cc, col as int),
                        ),
                decreases 2 - c,
            {
                let sc = if c < col {
                    c
                } else {
                    c + 1
                };
                data.push(self.get(sr, sc));
                c = c + 1;
            }
            r = r + 1;
        }
        Matrix2 { data }
    }
}

impl Submatrix<Matrix3> for Matrix4 {
    open spec fn submatrix_req(&self, row: usize, col: usize) -> bool {
        self.wf() && row < 4 && col < 4
    }

    open spec fn submatrix_ens(&self, row: usize, col: usize, m: Matrix3) -> bool {
        m.wf() && forall|r: int, c: int|
            0 <= r < 3 && 0 <= c < 3 ==> #[trigger] m.at(r, c) == self.at(
                skip_index(r, row as int),
                skip_index(c, col as int),
            )
    }

    fn submatrix(&self, row: usize, col: usize) -> (m: Matrix3) {
        let mut data: Vec<Scalar> = Vec::new();
        let mut r: usize = 0;
        while r < 3
            invariant
                self.wf(),
                row < 4,
                col < 4,
                r <= 3,
                data@.len() == 3 * r,
                forall|rr: int, cc: int|
                    0 <= rr < r && 0 <= cc < 3 ==> data@[rr * 3 + cc] == self.at(
                        skip_index(rr, row as int),
                        skip_index(cc, col as int),
                    ),
            decreases 3 - r,
        {
            let sr = if r < row {
                r
            } else {
                r + 1
            };
            let mut c: usize = 0;
            while c < 3
                invariant
                    self.wf(),
                    row < 4,
                    col < 4,
                    r < 3,
                    c <= 3,
                    sr == skip_index(r as int, row as int),
                    data@.len() == 3 * r + c,
                    forall|rr: int, cc: int|
                        0 <= rr < r && 0 <= cc < 3 ==> data@[rr * 3 + cc] == self.at(
                            skip_index(rr, row as int),
                            skip_index(cc, col as int),
                        ),
                    forall|cc: int|
                        0 <= cc < c ==> data@[r * 3 + cc] == self.at(
                            skip_index(r as int, row as int),
                            skip_index(cc, col as int),
                        ),
                decreases 3 - c,
            {
                let sc = if c < col {
                    c
                } else {
                    c + 1
                };
                data.push(self.get(sr, sc));
                c = c + 1;
            }
            r = r + 1;
        }
        Matrix3 { data }
    }
}

} // verus!
