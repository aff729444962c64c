//! Points of the search space: dynamically sized real vectors over `Fx`.
//!
//! The view of a point is the sequence of coordinate mantissas. All
//! coordinate-wise arithmetic saturates exactly as the scalar operations do,
//! and the Euclidean norm is pinned down to the floor of the exact square
//! root of the sum of squared mantissas.

use vstd::prelude::*;

use crate::fixed::{fx_add, fx_mul, fx_sub, is_sqrt_floor, isqrt, lemma_sqrt_floor_unique, Fx};

verus! {

/// Coordinate-wise saturated sum of two coordinate sequences.
pub open spec fn add_seq(a: Seq<int>, b: Seq<int>) -> Seq<int> {
    Seq::new(a.len(), |i: int| fx_add(a[i], b[i]))
}

/// Coordinate-wise saturated difference of two coordinate sequences.
pub open spec fn sub_seq(a: Seq<int>, b: Seq<int>) -> Seq<int> {
    Seq::new(a.len(), |i: int| fx_sub(a[i], b[i]))
}

/// Coordinate-wise saturated product with the scalar mantissa `k`.
pub open spec fn scale_seq(a: Seq<int>, k: int) -> Seq<int> {
    Seq::new(a.len(), |i: int| fx_mul(a[i], k))
}

/// The coordinates of `a` with coordinate `i` shifted by `lam`, saturated.
pub open spec fn axis_shift(a: Seq<int>, i: int, lam: int) -> Seq<int> {
    a.update(i, fx_add(a[i], lam))
}

/// Sum of the squares of the entries of `s`, as a mathematical integer.
pub open spec fn sum_sq(s: Seq<int>) -> int
    decreases s.len(),
{
    if s.len() == 0 {
        0
    } else {
        sum_sq(s.drop_last()) + s.last() * s.last()
    }
}

/// The mantissa of the Euclidean norm of a coordinate sequence: the floor
/// square root of the sum of squared mantissas, saturated at the range end.
pub open spec fn norm_of(s: Seq<int>) -> int {
    if sum_sq(s) >= 0x4000_0000_0000_0000_0000_0000_0000_0000 {
        i64::MAX as int
    } else {
        choose|r: int| is_sqrt_floor(sum_sq(s), r)
    }
}

pub proof fn lemma_sum_sq_nonneg(s: Seq<int>)
    ensures
        sum_sq(s) >= 0,
    decreases s.len(),
{
    if s.len() > 0 {
        lemma_sum_sq_nonneg(s.drop_last());
        assert(s.last() * s.last() >= 0) by (nonlinear_arith);
    }
}

/// A point of the search space: one `Fx` coordinate per axis.
#[derive(Clone, Debug)]
pub struct Point {
    pub c: Vec<Fx>,
}

impl View for Point {
    type V = Seq<int>;

    open spec fn view(&self) -> Seq<int> {
        self.c@.map_values(|f: Fx| f@)
    }
}

impl Point {
    pub fn new(c: Vec<Fx>) -> (r: Point)
        ensures
            r@.len() == c@.len(),
            forall|i: int| 0 <= i < c@.len() ==> r@[i] == c@[i]@,
    {
        Point { c }
    }

    /// The point with `n` coordinates all equal to `v`.
    pub fn splat(n: usize, v: Fx) -> (r: Point)
        ensures
            r@.len() == n,
            forall|i: int| 0 <= i < n ==> r@[i] == v@,
    {
        let mut c: Vec<Fx> = Vec::new();
        let mut k: usize = 0;
        while k < n
            invariant
                k <= n,
                c@.len() == k,
                forall|i: int| 0 <= i < k ==> c@[i]@ == v@,
            decreases n - k,
        {
            c.push(v);
            k = k + 1;
        }
        Point { c }
    }

    pub fn len(&self) -> (r: usize)
        ensures
            r == self@.len(),
    {
        self.c.len()
    }

    pub fn get(&self, i: usize) -> (r: Fx)
        requires
            i < self@.len(),
        ensures
            r@ == self@[i as int],
    {
        self.c[i]
    }

    /// A fresh point with the same coordinates.
    pub fn duplicate(&self) -> (r: Point)
        ensures
            r@ == self@,
    {
        let mut c: Vec<Fx> = Vec::new();
        let mut k: usize = 0;
        while k < self.c.len()
            invariant
                k <= self.c@.len(),
                c@.len() == k,
                self@.len() == self.c@.len(),
                forall|i: int| 0 <= i < k ==> c@[i]@ == self@[i],
            decreases self.c@.len() - k,
        {
            let v = self.c[k];
            c.push(v);
            k = k + 1;
        }
        let r = Point { c };
        proof {
            assert(r@ =~= self@);
        }
        r
    }

    /// A fresh point with one more coordinate at the end.
    pub fn appended(&self, v: Fx) -> (r: Point)
        ensures
            r@ == self@.push(v@),
    {
        let mut r = self.duplicate();
        r.c.push(v);
        proof {
            assert(r@ =~= self@.push(v@));
        }
        r
    }

    pub fn plus(&self, o: &Point) -> (r: Point)
        requires
            self@.len() == o@.len(),
        ensures
            r@ == add_seq(self@, o@),
    {
        let n = self.c.len();
        let mut c: Vec<Fx> = Vec::new();
        let mut k: usize = 0;
        while k < n
            invariant
                k <= n,
                n == self@.len() == o@.len(),
                self@.len() == self.c@.len(),
                o@.len() == o.c@.len(),
                c@.len() == k,
                forall|i: int| 0 <= i < k ==> c@[i]@ == fx_add(self@[i], o@[i]),
            decreases n - k,
        {
            c.push(self.c[k].plus(o.c[k]));
            k = k + 1;
        }
        let r = Point { c };
        proof {
            assert(r@ =~= add_seq(self@, o@));
        }
        r
    }

    pub fn minus(&self, o: &Point) -> (r: Point)
        requires
            self@.len() == o@.len(),
        ensures
            r@ == sub_seq(self@, o@),
    {
        let n = self.c.len();
        let mut c: Vec<Fx> = Vec::new();
        let mut k: usize = 0;
        while k < n
            invariant
                k <= n,
                n == self@.len() == o@.len(),
                self@.len() == self.c@.len(),
                o@.len() == o.c@.len(),
                c@.len() == k,
                forall|i: int| 0 <= i < k ==> c@[i]@ == fx_sub(self@[i], o@[i]),
            decreases n - k,
        {
            c.push(self.c[k].minus(o.c[k]));
            k = k + 1;
        }
        let r = Point { c };
        proof {
            assert(r@ =~= sub_seq(self@, o@));
        }
        r
    }

    pub fn scaled(&self, s: Fx) -> (r: Point)
        ensures
            r@ == scale_seq(self@, s@),
    {
        let n = self.c.len();
        let mut c: Vec<Fx> = Vec::new();
        let mut k: usize = 0;
        while k < n
            invariant
                k <= n,
                n == self@.len(),
                self@.len() == self.c@.len(),
                c@.len() == k,
                forall|i: int| 0 <= i < k ==> c@[i]@ == fx_mul(self@[i], s@),
            decreases n - k,
        {
            c.push(self.c[k].times(s));
            k = k + 1;
        }
        let r = Point { c };
        proof {
            assert(r@ =~= scale_seq(self@, s@));
        }
        r
    }

    /// The point with coordinate `i` shifted by `lam`.
    pub fn axis_shifted(&self, i: usize, lam: Fx) -> (r: Point)
        requires
            i < self@.len(),
        ensures
            r@ == axis_shift(self@, i as int, lam@),
    {
        let mut c: Vec<Fx> = Vec::new();
        let n = self.c.len();
        let mut k: usize = 0;
        while k < n
            invariant
                k <= n,
                i < n,
                n == self@.len(),
                self@.len() == self.c@.len(),
                c@.len() == k,
                forall|j: int|
                    0 <= j < k ==> c@[j]@ == if j == i {
                        fx_add(self@[j], lam@)
                    } else {
                        self@[j]
                    },
            decreases n - k,
        {
            if k == i {
                c.push(self.c[k].plus(lam));
            } else {
                c.push(self.c[k]);
            }
            k = k + 1;
        }
        let r = Point { c };
        proof {
            assert(r@ =~= axis_shift(self@, i as int, lam@));
        }
        r
    }

    /// The Euclidean norm of the point.
    pub fn norm(&self) -> (r: Fx)
        ensures
            r@ == norm_of(self@),
            r@ >= 0,
    {
        let n = self.c.len();
        let mut acc: u128 = 0;
        let mut k: usize = 0;
        proof {
            assert(self@.subrange(0, 0) =~= Seq::<int>::empty());
        }
        while k < n
            invariant
                k <= n,
                n == self@.len(),
                self@.len() == self.c@.len(),
                forall|i: int| 0 <= i < n ==> self@[i] == self.c@[i]@,
                acc as int == if sum_sq(self@.subrange(0, k as int))
                    > 0x4000_0000_0000_0000_0000_0000_0000_0000 {
                    0x4000_0000_0000_0000_0000_0000_0000_0000
                } else {
                    sum_sq(self@.subrange(0, k as int))
                },
            decreases n - k,
        {
            let m: i64 = self.c[k].raw();
            proof {
                assert((m as int) * (m as int) <= 0x4000_0000_0000_0000_0000_0000_0000_0000
                    && (m as int) * (m as int) >= 0) by (nonlinear_arith)
                    requires
                        -0x8000_0000_0000_0000 <= m as int <= 0x7fff_ffff_ffff_ffff,
                ;
                lemma_sum_sq_nonneg(self@.subrange(0, k as int));
            }
            let w: i128 = (m as i128) * (m as i128);
            let sq: u128 = w as u128;
            acc = acc + sq;
            if acc > 0x4000_0000_0000_0000_0000_0000_0000_0000 {
                acc = 0x4000_0000_0000_0000_0000_0000_0000_0000;
            }
            proof {
                let pre = self@.subrange(0, k as int);
                let post = self@.subrange(0, k as int + 1);
                assert(post.drop_last() =~= pre);
                assert(post.last() == self@[k as int]);
            }
            k = k + 1;
        }
        proof {
            assert(self@.subrange(0, n as int) =~= self@);
            lemma_sum_sq_nonneg(self@);
        }
        if acc >= 0x4000_0000_0000_0000_0000_0000_0000_0000 {
            proof {
                assert(norm_of(self@) == i64::MAX as int);
            }
            Fx::from_raw(i64::MAX)
        } else {
            let r: u64 = isqrt(acc);
            proof {
                assert(is_sqrt_floor(sum_sq(self@), r as int));
                assert(is_sqrt_floor(sum_sq(self@), norm_of(self@))) by {
                    assert(norm_of(self@) == choose|q: int| is_sqrt_floor(sum_sq(self@), q));
                };
                lemma_sqrt_floor_unique(sum_sq(self@), r as int, norm_of(self@));
                assert((r as int) * (r as int) <= sum_sq(self@));
                assert(r as int <= 0x7fff_ffff_ffff_ffff) by (nonlinear_arith)
                    requires
                        (r as int) * (r as int) <= sum_sq(self@),
                        sum_sq(self@) < 0x4000_0000_0000_0000_0000_0000_0000_0000,
                        r as int >= 0,
                ;
            }
            Fx::from_raw(r as i64)
        }
    }
}

} // verus!
