//! Intersection bookkeeping and nearest-hit selection.
//!
//! An intersection pairs a ray distance with a handle to the shape that was
//! hit. The distance is carried as an order-encoded key: a signed 64-bit word
//! whose ordering agrees with the ordering of the distances and whose sign
//! agrees with theirs, which is all that sorting and hit selection ever read.
//! Callers that work in a numeric distance type convert at the boundary.

use vstd::prelude::*;
use vstd::seq_lib::group_to_multiset_ensures;

verus! {

/// One ray-shape intersection: an order-encoded distance along the ray and
/// the handle of the shape hit.
#[derive(Clone, Copy, Debug, PartialEq, Eq, Structural)]
pub struct Intersection {
    /// Order-encoded distance: keys compare as the distances do, and a key is
    /// non-negative exactly when the distance is.
    pub t: i64,
    /// The handle of the shape that was hit.
    pub shape: usize,
}

impl Intersection {
    pub fn new(t: i64, shape: usize) -> (i: Intersection)
        ensures
            i == (Intersection { t, shape }),
    {
        Intersection { t, shape }
    }
}

/// Distances never decrease along the collection.
pub open spec fn sorted_by_t(s: Seq<Intersection>) -> bool {
    forall|i: int, j: int| 0 <= i <= j < s.len() ==> s[i].t <= s[j].t
}

/// A collection of intersections, sorted by distance ascending.
#[derive(Clone, Debug)]
pub struct Intersections {
    pub data: Vec<Intersection>,
}

impl Intersections {
    /// Always true of a collection built by `new`.
    pub open spec fn wf(self) -> bool {
        sorted_by_t(self.data@)
    }

    /// Sort the given intersections by distance ascending. The result holds
    /// exactly the given intersections, ordered.
    pub fn new(data: Vec<Intersection>) -> (r: Intersections)
        ensures
            r.wf(),
            r.data@.to_multiset() == data@.to_multiset(),
            r.data@.len() == data@.len(),
    {
        broadcast use group_to_multiset_ensures;
        broadcast use vstd::seq_lib::to_multiset_insert;

        let mut out: Vec<Intersection> = Vec::new();
        let mut k: usize = 0;
        while k < data.len()
            invariant
                k <= data.len(),
                sorted_by_t(out@),
                out@.len() == k,
                out@.to_multiset() == data@.take(k as int).to_multiset(),
            decreases data.len() - k,
        {
            let x = data[k];
            let mut j: usize = 0;
            while j < out.len() && out[j].t <= x.t
                invariant
                    j <= out@.len(),
                    forall|m: int| 0 <= m < j ==> out@[m].t <= x.t,
                decreases out@.len() - j,
            {
                j = j + 1;
            }
            let ghost before = out@;
            out.insert(j, x);
            proof {
                assert(sorted_by_t(out@)) by {
                    assert(forall|m: int|
                        0 <= m < out@.len() ==> out@[m] == (if m < j {
                            before[m]
                        } else if m == j {
                            x
                        } else {
                            before[m - 1]
                        }));
                }
                assert(out@ == before.insert(j as int, x));
                vstd::seq_lib::to_multiset_insert(before, j as int, x);
                assert(data@.take(k + 1) =~= data@.take(k as int).push(x));
                vstd::seq_lib::to_multiset_build(data@.take(k as int), x);
            }
            k = k + 1;
        }
        proof {
            assert(data@.take(data@.len() as int) =~= data@);
        }
        Intersections { data: out }
    }

    /// The nearest intersection the ray actually reaches: the one with the
    /// least non-negative distance. `None` exactly when every intersection
    /// lies behind the ray's origin.
    pub fn hit(&self) -> (r: Option<Intersection>)
        requires
            self.wf(),
        ensures
            match r {
                Some(i) => {
                    &&& self.data@.contains(i)
                    &&& i.t >= 0
                    &&& forall|k: int| 0 <= k < self.data@.len() && self.data@[k].t >= 0
                        ==> i.t <= #[trigger] self.data@[k].t
                },
                None => forall|k: int| 0 <= k < self.data@.len() ==> #[trigger] self.data@[k].t < 0,
            },
    {
        let mut k: usize = 0;
        while k < self.data.len()
            invariant
                self.wf(),
                k <= self.data@.len(),
                forall|m: int| 0 <= m < k ==> #[trigger] self.data@[m].t < 0,
            decreases self.data@.len() - k,
        {
            let candidate = self.data[k];
            if candidate.t >= 0 {
                proof {
                    assert(self.data@.contains(candidate));
                    assert forall|m: int|
                        0 <= m < self.data@.len() && self.data@[m].t >= 0 implies candidate.t
                        <= self.data@[m].t by {
                        if m < k as int {
                        } else {
                            assert(sorted_by_t(self.data@));
                        }
                    }
                }
                return Some(candidate);
            }
            k = k + 1;
        }
        None
    }
}

} // verus!
