use vstd::prelude::*;
use crate::graph::Graph;
use crate::VERTEX_LIMIT;
use vstd::arithmetic::div_mod::{
    lemma_breakdown, lemma_div_by_multiple, lemma_div_by_self, lemma_div_denominator,
    lemma_div_pos_is_pos, lemma_fundamental_div_mod, lemma_fundamental_div_mod_converse,
    lemma_mod_bound, lemma_mod_multiples_vanish, lemma_multiply_divide_lt,
};
use vstd::arithmetic::mul::{
    lemma_mul_inequality, lemma_mul_nonnegative, lemma_mul_strictly_positive,
};

verus! {

/// An n-dimensional lattice graph; each axis is either cyclic (glued) or a
/// plain segment. Vertex `v` has, on axis `a`, the coordinate
/// `(v / step_sizes[a]) % dimensions[a]`; its neighbors differ from it by
/// one step along one axis, wrapping around on cyclic axes.
pub struct GridND {
    /// Number of points in each direction; every entry is at least 2.
    pub dimensions: Vec<usize>,
    /// `step_sizes[a]` is the index distance of one step along axis `a`:
    /// the product of the dimensions before `a`.
    pub step_sizes: Vec<usize>,
    /// Whether each axis wraps around.
    pub glue: Vec<bool>,
    /// Total number of points: the product of all dimensions.
    pub nr_points: usize,
}

impl GridND {
    pub open spec fn nd(&self) -> int {
        self.dimensions@.len() as int
    }

    pub open spec fn dim(&self, a: int) -> int {
        self.dimensions@[a] as int
    }

    pub open spec fn step(&self, a: int) -> int {
        self.step_sizes@[a] as int
    }

    pub open spec fn cyclic(&self, a: int) -> bool {
        self.glue@[a]
    }

    /// Coordinate of vertex `v` along axis `a`.
    pub open spec fn coord(&self, v: int, a: int) -> int {
        (v / self.step(a)) % self.dim(a)
    }

    /// The vertex obtained from `v` by replacing its coordinate along axis
    /// `a` with `t`.
    pub open spec fn shifted(&self, v: int, a: int, t: int) -> int {
        v - self.coord(v, a) * self.step(a) + t * self.step(a)
    }

    /// Structural invariant: the step sizes are the prefix products of the
    /// dimensions and the point count is the full product, within the
    /// machine limit.
    pub open spec fn grid_wf(&self) -> bool {
        &&& self.dimensions@.len() == self.glue@.len()
        &&& self.dimensions@.len() == self.step_sizes@.len()
        &&& self.nd() >= 1
        &&& forall|a: int| 0 <= a < self.nd() ==> (#[trigger] self.dim(a)) >= 2
        &&& self.step(0) == 1
        &&& forall|a: int|
            1 <= a < self.nd() ==> (#[trigger] self.step(a)) == self.step(a - 1) * self.dim(a - 1)
        &&& self.nr_points == self.step(self.nd() - 1) * self.dim(self.nd() - 1)
        &&& self.nr_points <= VERTEX_LIMIT
    }

    proof fn lemma_step_pos(&self, a: int)
        requires
            self.grid_wf(),
            0 <= a < self.nd(),
        ensures
            self.step(a) >= 1,
        decreases a,
    {
        if a > 0 {
            self.lemma_step_pos(a - 1);
            assert(self.step(a) == self.step(a - 1) * self.dim(a - 1));
            lemma_mul_strictly_positive(self.step(a - 1), self.dim(a - 1));
        }
    }

    /// The point count is a positive multiple of every axis block
    /// `step(a) * dim(a)`.
    proof fn lemma_outer(&self, a: int)
        requires
            self.grid_wf(),
            0 <= a < self.nd(),
        ensures
            self.step(a) >= 1,
            self.step(a) * self.dim(a) >= 2,
            self.nr_points >= self.step(a) * self.dim(a),
            self.nr_points as int == (self.step(a) * self.dim(a)) * (self.nr_points as int / (
            self.step(a) * self.dim(a))),
            self.nr_points as int / (self.step(a) * self.dim(a)) >= 1,
        decreases self.nd() - a,
    {
        self.lemma_step_pos(a);
        let b = self.step(a) * self.dim(a);
        lemma_mul_strictly_positive(self.step(a), self.dim(a));
        assert(b >= 2) by (nonlinear_arith)
            requires self.step(a) >= 1, self.dim(a) >= 2, b == self.step(a) * self.dim(a);
        let n = self.nr_points as int;
        if a == self.nd() - 1 {
            assert(n == b);
            lemma_div_by_self(b);
        } else {
            self.lemma_outer(a + 1);
            let b2 = self.step(a + 1) * self.dim(a + 1);
            let q2 = n / b2;
            assert(self.step(a + 1) == self.step((a + 1) - 1) * self.dim((a + 1) - 1));
            assert(b2 == b * self.dim(a + 1)) by (nonlinear_arith)
                requires
                    b2 == (self.step(a) * self.dim(a)) * self.dim(a + 1),
                    b == self.step(a) * self.dim(a);
            let m = self.dim(a + 1) * q2;
            assert(n == b * m) by (nonlinear_arith)
                requires n == (b * self.dim(a + 1)) * q2, m == self.dim(a + 1) * q2;
            assert(m >= 1) by (nonlinear_arith)
                requires self.dim(a + 1) >= 2, q2 >= 1, m == self.dim(a + 1) * q2;
            lemma_div_by_multiple(m, b);
            assert(n / b == (m * b) / b) by {
                assert(b * m == m * b) by (nonlinear_arith);
            }
            assert(n / b == m);
            assert(n >= b) by (nonlinear_arith)
                requires n == b * m, m >= 1, b >= 2;
        }
    }

    /// Every earlier step size divides every later one.
    proof fn lemma_steps_multiple(&self, b: int, a: int)
        requires
            self.grid_wf(),
            0 <= b <= a < self.nd(),
        ensures
            self.step(a) == self.step(b) * (self.step(a) / self.step(b)),
            self.step(a) / self.step(b) >= 1,
        decreases a - b,
    {
        self.lemma_step_pos(a);
        self.lemma_step_pos(b);
        if a == b {
            lemma_div_by_self(self.step(b));
        } else {
            self.lemma_steps_multiple(b, a - 1);
            self.lemma_step_pos(a - 1);
            let f = self.step(a - 1) / self.step(b);
            assert(self.step(a) == self.step(a - 1) * self.dim(a - 1));
            let m = f * self.dim(a - 1);
            assert(self.step(a) == self.step(b) * m) by (nonlinear_arith)
                requires
                    self.step(a) == self.step(a - 1) * self.dim(a - 1),
                    self.step(a - 1) == self.step(b) * f,
                    m == f * self.dim(a - 1);
            assert(m >= 1) by (nonlinear_arith)
                requires f >= 1, self.dim(a - 1) >= 2, m == f * self.dim(a - 1);
            lemma_div_by_multiple(m, self.step(b));
            assert(self.step(a) / self.step(b) == (m * self.step(b)) / self.step(b)) by {
                assert(self.step(b) * m == m * self.step(b)) by (nonlinear_arith);
            }
        }
    }

    /// The coordinate along an axis only depends on the vertex index modulo
    /// that axis's block.
    proof fn lemma_coord_from_mod(&self, x: int, a: int)
        requires
            self.grid_wf(),
            0 <= a < self.nd(),
            0 <= x,
        ensures
            0 <= self.coord(x, a) < self.dim(a),
            x % (self.step(a) * self.dim(a)) == self.step(a) * self.coord(x, a) + x % self.step(
                a,
            ),
            self.coord(x, a) == (x % (self.step(a) * self.dim(a))) / self.step(a),
    {
        self.lemma_step_pos(a);
        let st = self.step(a);
        let d = self.dim(a);
        lemma_mod_bound(x / st, d);
        lemma_div_pos_is_pos(x, st);
        lemma_breakdown(x, st, d);
        let c = self.coord(x, a);
        lemma_mod_bound(x, st);
        lemma_fundamental_div_mod_converse(x % (st * d), st, c, x % st);
    }

    /// Replacing the coordinate of `v` along axis `a` by `t` yields a vertex
    /// of the grid with coordinate `t` on axis `a` and the same coordinates
    /// as `v` on every other axis.
    proof fn lemma_axis_shift(&self, v: int, a: int, t: int)
        requires
            self.grid_wf(),
            0 <= v < self.nr_points,
            0 <= a < self.nd(),
            0 <= t < self.dim(a),
        ensures
            0 <= self.shifted(v, a, t) < self.nr_points,
            self.coord(self.shifted(v, a, t), a) == t,
            forall|b: int|
                0 <= b < self.nd() && b != a ==> self.coord(#[trigger] self.shifted(v, a, t), b)
                    == self.coord(v, b),
            t != self.coord(v, a) ==> self.shifted(v, a, t) != v,
    {
        let st = self.step(a);
        let d = self.dim(a);
        let bl = st * d;
        let n = self.nr_points as int;
        self.lemma_outer(a);
        let q = n / bl;
        let c = self.coord(v, a);
        let hi = v / bl;
        let lo = v % st;
        let u = self.shifted(v, a, t);

        self.lemma_coord_from_mod(v, a);
        lemma_fundamental_div_mod(v, bl);
        lemma_mod_bound(v, st);
        lemma_div_pos_is_pos(v, bl);
        // v == bl * hi + st * c + lo, hence u == bl * hi + st * t + lo.
        assert(v == bl * hi + st * c + lo);
        assert(u == bl * hi + st * t + lo) by (nonlinear_arith)
            requires
                u == v - c * st + t * st,
                v == bl * hi + st * c + lo;

        // The in-block offset of u.
        assert(st * t + lo < bl && st * t + lo >= 0) by {
            lemma_mul_inequality(t, d - 1, st);
            assert((d - 1) * st + st == d * st) by (nonlinear_arith);
            assert(st * t == t * st) by (nonlinear_arith);
            assert(st * d == d * st) by (nonlinear_arith);
            lemma_mul_nonnegative(st, t);
        }

        // Bounds of u.
        assert(0 <= u < n) by {
            assert(v < bl * q) by (nonlinear_arith)
                requires n == bl * q, v < n;
            lemma_multiply_divide_lt(v, bl, q);
            assert(hi <= q - 1);
            lemma_mul_nonnegative(bl, hi);
            lemma_mul_inequality(hi, q - 1, bl);
            assert(hi * bl == bl * hi) by (nonlinear_arith);
            assert((q - 1) * bl + bl == q * bl) by (nonlinear_arith);
            assert(q * bl == n) by (nonlinear_arith)
                requires n == bl * q;
        }

        // Coordinate of u along a, and u's remainder within the axis step.
        assert(u == st * (d * hi + t) + lo) by (nonlinear_arith)
            requires u == (st * d) * hi + st * t + lo;
        assert(d * hi + t >= 0) by (nonlinear_arith)
            requires d >= 2, hi >= 0, t >= 0;
        assert(u == (d * hi + t) * st + lo) by (nonlinear_arith)
            requires u == st * (d * hi + t) + lo;
        lemma_fundamental_div_mod_converse(u, st, d * hi + t, lo);
        assert(u / st == d * hi + t && u % st == lo);
        lemma_mod_multiples_vanish(hi, t, d);
        assert(self.coord(u, a) == t) by {
            assert(d * hi == hi * d) by (nonlinear_arith);
            assert((hi * d + t) % d == t % d);
            assert(t % d == t) by {
                lemma_fundamental_div_mod_converse(t, d, 0, t);
            }
        }

        // u sits in the same block as v.
        assert(u / bl == hi && u % bl == st * t + lo) by {
            assert(u == hi * bl + (st * t + lo)) by (nonlinear_arith)
                requires u == bl * hi + st * t + lo;
            lemma_fundamental_div_mod_converse(u, bl, hi, st * t + lo);
        }

        // Higher axes read the block index, which is unchanged.
        assert(forall|b: int|
            a < b < self.nd() ==> self.coord(#[trigger] self.shifted(v, a, t), b) == self.coord(
                v,
                b,
            )) by {
            assert forall|b: int| a < b < self.nd() implies self.coord(
                #[trigger] self.shifted(v, a, t),
                b,
            ) == self.coord(v, b) by {
                self.lemma_step_pos(b);
                self.lemma_steps_multiple(a + 1, b);
                assert(self.step(a + 1) == self.step((a + 1) - 1) * self.dim((a + 1) - 1));
                assert(self.step(a + 1) == bl);
                let f = self.step(b) / self.step(a + 1);
                assert(self.step(b) == bl * f);
                lemma_div_denominator(u, bl, f);
                lemma_div_denominator(v, bl, f);
                assert(u / (bl * f) == (u / bl) / f);
                assert(v / (bl * f) == (v / bl) / f);
                assert(u / self.step(b) == v / self.step(b));
            }
        }

        // Lower axes read the remainder modulo their own block, which
        // divides the axis step and is therefore unchanged.
        assert(forall|b: int|
            0 <= b < a ==> self.coord(#[trigger] self.shifted(v, a, t), b) == self.coord(v, b))
            by {
            assert forall|b: int| 0 <= b < a implies self.coord(
                #[trigger] self.shifted(v, a, t),
                b,
            ) == self.coord(v, b) by {
                let blb = self.step(b) * self.dim(b);
                assert(self.step(b + 1) == self.step((b + 1) - 1) * self.dim((b + 1) - 1));
                assert(self.step(b + 1) == blb);
                self.lemma_steps_multiple(b + 1, a);
                let f = st / self.step(b + 1);
                assert(st == blb * f);
                let k = (t - c) * f;
                assert(u == k * blb + v) by (nonlinear_arith)
                    requires
                        u == v - c * st + t * st,
                        st == blb * f,
                        k == (t - c) * f;
                self.lemma_step_pos(b);
                lemma_mul_strictly_positive(self.step(b), self.dim(b));
                assert(u == blb * k + v) by (nonlinear_arith)
                    requires u == k * blb + v;
                lemma_mod_multiples_vanish(k, v, blb);
                assert(u % blb == v % blb);
                self.lemma_coord_from_mod(u, b);
                self.lemma_coord_from_mod(v, b);
            }
        }

        // A different target coordinate gives a different vertex.
        if t != c {
            assert(u != v) by (nonlinear_arith)
                requires
                    u == v - c * st + t * st,
                    st >= 1,
                    t != c;
        }
    }
}


impl GridND {
    /// The neighbors contributed by axis `a`: one step forward and one step
    /// back, wrapping on cyclic axes, with the two coinciding entries of a
    /// cyclic axis of size 2 merged into one.
    pub open spec fn axis_nbrs(&self, v: int, a: int) -> Seq<usize> {
        let d = self.dim(a);
        let st = self.step(a);
        let c = self.coord(v, a);
        if c == 0 {
            if self.cyclic(a) && d > 2 {
                seq![(v + st) as usize, (v + st * (d - 1)) as usize]
            } else {
                seq![(v + st) as usize]
            }
        } else if c == d - 1 {
            if self.cyclic(a) && d > 2 {
                seq![(v - st) as usize, (v - st * (d - 1)) as usize]
            } else {
                seq![(v - st) as usize]
            }
        } else {
            seq![(v + st) as usize, (v - st) as usize]
        }
    }

    /// The neighbors contributed by the axes before `a`, in axis order.
    pub open spec fn nbrs_upto(&self, v: int, a: int) -> Seq<usize>
        decreases a,
    {
        if a <= 0 {
            Seq::empty()
        } else {
            self.nbrs_upto(v, a - 1) + self.axis_nbrs(v, a - 1)
        }
    }

    /// Every entry contributed by axis `a` is a vertex that agrees with `v`
    /// on every other axis and differs from it on axis `a`.
    #[verifier::rlimit(100)]
    #[verifier::spinoff_prover]
    proof fn lemma_axis_elem(&self, v: int, a: int)
        requires
            self.grid_wf(),
            0 <= v < self.nr_points,
            0 <= a < self.nd(),
        ensures
            1 <= self.axis_nbrs(v, a).len() <= 2,
            self.axis_nbrs(v, a).no_duplicates(),
            forall|x: usize| #[trigger]
                self.axis_nbrs(v, a).contains(x) ==> x < self.nr_points && x != v
                    && self.coord(x as int, a) != self.coord(v, a),
            forall|x: usize, b: int|
                #![trigger self.axis_nbrs(v, a).contains(x), self.coord(x as int, b)]
                self.axis_nbrs(v, a).contains(x) && 0 <= b < self.nd() && b != a
                    ==> self.coord(x as int, b) == self.coord(v, b),
    {
        let d = self.dim(a);
        let st = self.step(a);
        let c = self.coord(v, a);
        self.lemma_step_pos(a);
        self.lemma_coord_from_mod(v, a);
        let s = self.axis_nbrs(v, a);
        if c == 0 {
            self.lemma_axis_shift(v, a, 1);
            assert(self.shifted(v, a, 1) == v + st) by (nonlinear_arith)
                requires self.shifted(v, a, 1) == v - 0 * st + 1 * st;
            assert(s[0] == (v + st) as usize);
            if self.cyclic(a) && d > 2 {
                self.lemma_axis_shift(v, a, d - 1);
                assert(self.shifted(v, a, d - 1) == v + st * (d - 1)) by (nonlinear_arith)
                    requires self.shifted(v, a, d - 1) == v - 0 * st + (d - 1) * st;
            }
        } else if c == d - 1 {
            self.lemma_axis_shift(v, a, d - 2);
            assert(self.shifted(v, a, d - 2) == v - st) by (nonlinear_arith)
                requires self.shifted(v, a, d - 2) == v - (d - 1) * st + (d - 2) * st;
            if self.cyclic(a) && d > 2 {
                self.lemma_axis_shift(v, a, 0);
                assert(self.shifted(v, a, 0) == v - st * (d - 1)) by (nonlinear_arith)
                    requires self.shifted(v, a, 0) == v - (d - 1) * st + 0 * st;
            }
        } else {
            self.lemma_axis_shift(v, a, c + 1);
            assert(self.shifted(v, a, c + 1) == v + st) by (nonlinear_arith)
                requires self.shifted(v, a, c + 1) == v - c * st + (c + 1) * st;
            self.lemma_axis_shift(v, a, c - 1);
            assert(self.shifted(v, a, c - 1) == v - st) by (nonlinear_arith)
                requires self.shifted(v, a, c - 1) == v - c * st + (c - 1) * st;
        }
    }

    /// Accumulated properties of the neighbor list over the first `a` axes:
    /// entries are in range, distinct, different from `v`, and each belongs
    /// to exactly one axis.
    proof fn lemma_nbrs_upto_props(&self, v: int, a: int)
        requires
            self.grid_wf(),
            0 <= v < self.nr_points,
            0 <= a <= self.nd(),
        ensures
            self.nbrs_upto(v, a).no_duplicates(),
            forall|x: usize| #[trigger]
                self.nbrs_upto(v, a).contains(x) ==> x < self.nr_points && x != v,
            forall|x: usize, b: int|
                #![trigger self.axis_nbrs(v, b).contains(x)]
                self.axis_nbrs(v, b).contains(x) && 0 <= b < a ==> self.nbrs_upto(
                    v,
                    a,
                ).contains(x),
            forall|x: usize| #[trigger]
                self.nbrs_upto(v, a).contains(x) ==> exists|b: int|
                    0 <= b < a && (#[trigger] self.axis_nbrs(v, b)).contains(x),
        decreases a,
    {
        if a > 0 {
            self.lemma_nbrs_upto_props(v, a - 1);
            self.lemma_axis_elem(v, a - 1);
            let prev = self.nbrs_upto(v, a - 1);
            let cur = self.axis_nbrs(v, a - 1);
            let whole = self.nbrs_upto(v, a);
            assert forall|x: usize| #[trigger]
                whole.contains(x) implies x < self.nr_points && x != v by {
                assert(prev.contains(x) || cur.contains(x)) by {
                    let j = choose|j: int| 0 <= j < whole.len() && whole[j] == x;
                    if j < prev.len() {
                        assert(prev[j] == x);
                    } else {
                        assert(cur[j - prev.len()] == x);
                    }
                }
            }
            assert forall|x: usize| #[trigger] whole.contains(x) implies exists|b: int|
                0 <= b < a && (#[trigger] self.axis_nbrs(v, b)).contains(x) by {
                let j = choose|j: int| 0 <= j < whole.len() && whole[j] == x;
                if j < prev.len() {
                    assert(prev[j] == x);
                    assert(prev.contains(x));
                    let b = choose|b: int|
                        0 <= b < a - 1 && (#[trigger] self.axis_nbrs(v, b)).contains(x);
                    assert(self.axis_nbrs(v, b).contains(x));
                } else {
                    assert(cur[j - prev.len()] == x);
                    assert(cur.contains(x));
                }
            }
            assert forall|x: usize, b: int|
                #![trigger self.axis_nbrs(v, b).contains(x)]
                self.axis_nbrs(v, b).contains(x) && 0 <= b < a implies self.nbrs_upto(
                v,
                a,
            ).contains(x) by {
                if b < a - 1 {
                    assert(prev.contains(x));
                    let j = choose|j: int| 0 <= j < prev.len() && prev[j] == x;
                    assert(whole[j] == x);
                } else {
                    let j = choose|j: int| 0 <= j < cur.len() && cur[j] == x;
                    assert(whole[prev.len() + j] == x);
                }
            }
            // No element sits in two different axes: their coordinate
            // signatures differ.
            assert forall|x: usize| !(prev.contains(x) && cur.contains(x)) by {
                if prev.contains(x) && cur.contains(x) {
                    let b = choose|b: int|
                        0 <= b < a - 1 && (#[trigger] self.axis_nbrs(v, b)).contains(x);
                    self.lemma_axis_elem(v, b);
                    assert(self.coord(x as int, b) != self.coord(v, b));
                    assert(self.coord(x as int, b) == self.coord(v, b));
                }
            }
            assert(whole.no_duplicates()) by {
                assert forall|p: int, q: int| 0 <= p < q < whole.len() implies whole[p]
                    != whole[q] by {
                    if q < prev.len() {
                    } else if p >= prev.len() {
                        assert(cur[p - prev.len()] != cur[q - prev.len()]);
                    } else {
                        let x = whole[p];
                        if whole[p] == whole[q] {
                            assert(prev.contains(x)) by {
                                assert(prev[p] == x);
                            }
                            assert(cur.contains(x)) by {
                                assert(cur[q - prev.len()] == x);
                            }
                        }
                    }
                }
            }
        }
    }

    /// If `x` is a neighbor of `v` along axis `a`, then `v` is a neighbor of
    /// `x` along the same axis: one of them is one step ahead of the other,
    /// possibly across the cyclic seam.
    #[verifier::rlimit(60)]
    #[verifier::spinoff_prover]
    proof fn lemma_axis_sym(&self, v: int, a: int, x: usize)
        requires
            self.grid_wf(),
            0 <= v < self.nr_points,
            0 <= a < self.nd(),
            self.axis_nbrs(v, a).contains(x),
        ensures
            self.axis_nbrs(x as int, a).contains(v as usize),
    {
        let d = self.dim(a);
        let st = self.step(a);
        let c = self.coord(v, a);
        self.lemma_step_pos(a);
        self.lemma_coord_from_mod(v, a);
        self.lemma_axis_elem(v, a);
        let xi = x as int;
        let s = self.axis_nbrs(v, a);
        let j = choose|j: int| 0 <= j < s.len() && s[j] == x;
        let sx = self.axis_nbrs(xi, a);

        if c == 0 {
            self.lemma_axis_shift(v, a, 1);
            assert(self.shifted(v, a, 1) == v + st) by (nonlinear_arith)
                requires self.shifted(v, a, 1) == v - 0 * st + 1 * st;
            if self.cyclic(a) && d > 2 && j == 1 {
                // x is the wrapped far end; v is its wrapped successor.
                self.lemma_axis_shift(v, a, d - 1);
                assert(self.shifted(v, a, d - 1) == v + st * (d - 1)) by (nonlinear_arith)
                    requires self.shifted(v, a, d - 1) == v - 0 * st + (d - 1) * st;
                assert(xi == v + st * (d - 1));
                assert(self.coord(xi, a) == d - 1);
                assert(sx[1] == (xi - st * (d - 1)) as usize);
                assert(xi - st * (d - 1) == v);
            } else {
                // x == v + st.
                assert(xi == v + st);
                assert(self.coord(xi, a) == 1);
                if 1 == d - 1 {
                    assert(sx[0] == (xi - st) as usize);
                } else {
                    assert(0 < 1 < d - 1);
                    assert(sx[1] == (xi - st) as usize);
                }
            }
        } else if c == d - 1 {
            self.lemma_axis_shift(v, a, d - 2);
            assert(self.shifted(v, a, d - 2) == v - st) by (nonlinear_arith)
                requires self.shifted(v, a, d - 2) == v - (d - 1) * st + (d - 2) * st;
            if self.cyclic(a) && d > 2 && j == 1 {
                // x is the wrapped first vertex; v is its wrapped
                // predecessor.
                self.lemma_axis_shift(v, a, 0);
                assert(self.shifted(v, a, 0) == v - st * (d - 1)) by (nonlinear_arith)
                    requires self.shifted(v, a, 0) == v - (d - 1) * st + 0 * st;
                assert(xi == v - st * (d - 1));
                assert(self.coord(xi, a) == 0);
                assert(sx[1] == (xi + st * (d - 1)) as usize);
                assert(xi + st * (d - 1) == v);
            } else {
                // x == v - st.
                assert(xi == v - st);
                assert(self.coord(xi, a) == d - 2);
                if d == 2 {
                    assert(self.coord(xi, a) == 0);
                    assert(sx[0] == (xi + st) as usize);
                } else {
                    assert(0 < d - 2 < d - 1);
                    assert(sx[0] == (xi + st) as usize);
                }
            }
        } else {
            self.lemma_axis_shift(v, a, c + 1);
            assert(self.shifted(v, a, c + 1) == v + st) by (nonlinear_arith)
                requires self.shifted(v, a, c + 1) == v - c * st + (c + 1) * st;
            self.lemma_axis_shift(v, a, c - 1);
            assert(self.shifted(v, a, c - 1) == v - st) by (nonlinear_arith)
                requires self.shifted(v, a, c - 1) == v - c * st + (c - 1) * st;
            if j == 0 {
                // x == v + st.
                assert(xi == v + st);
                assert(self.coord(xi, a) == c + 1);
                if c + 1 == d - 1 {
                    assert(sx[0] == (xi - st) as usize);
                } else {
                    assert(0 < c + 1 < d - 1);
                    assert(sx[1] == (xi - st) as usize);
                }
            } else {
                // x == v - st.
                assert(xi == v - st);
                assert(self.coord(xi, a) == c - 1);
                if c - 1 == 0 {
                    assert(sx[0] == (xi + st) as usize);
                } else {
                    assert(0 < c - 1 < d - 1);
                    assert(sx[0] == (xi + st) as usize);
                }
            }
        }
    }
}

/// The number of points of a grid with the given dimension vector: the
/// product of the dimensions.
pub open spec fn grid_size(dims: Seq<usize>) -> int
    decreases dims.len(),
{
    if dims.len() == 0 {
        1
    } else {
        grid_size(dims.drop_last()) * dims.last()
    }
}

/// Every prefix product of positive dimensions is positive and at most the
/// full product.
pub proof fn lemma_grid_size_prefix(dims: Seq<usize>, i: int)
    requires
        forall|j: int| 0 <= j < dims.len() ==> dims[j] >= 1,
        0 <= i <= dims.len(),
    ensures
        grid_size(dims.take(i)) >= 1,
        grid_size(dims.take(i)) <= grid_size(dims),
        i < dims.len() ==> grid_size(dims.take(i + 1)) == grid_size(dims.take(i)) * dims[i],
    decreases dims.len() - i,
{
    if i < dims.len() {
        assert(dims.take(i + 1).drop_last() =~= dims.take(i));
        assert(dims.take(i + 1).last() == dims[i]);
        lemma_grid_size_prefix(dims, i + 1);
        assert(grid_size(dims.take(i)) >= 1) by (nonlinear_arith)
            requires
                grid_size(dims.take(i + 1)) == grid_size(dims.take(i)) * dims[i],
                grid_size(dims.take(i + 1)) >= 1,
                dims[i] >= 1;
        assert(grid_size(dims.take(i)) <= grid_size(dims.take(i + 1))) by (nonlinear_arith)
            requires
                grid_size(dims.take(i + 1)) == grid_size(dims.take(i)) * dims[i],
                grid_size(dims.take(i)) >= 1,
                dims[i] >= 1;
    } else {
        assert(dims.take(i) =~= dims);
        if dims.len() == 0 {
        } else {
            assert(grid_size(dims) >= 1) by {
                lemma_grid_size_pos(dims);
            }
        }
    }
}

pub proof fn lemma_grid_size_pos(dims: Seq<usize>)
    requires
        forall|j: int| 0 <= j < dims.len() ==> dims[j] >= 1,
    ensures
        grid_size(dims) >= 1,
    decreases dims.len(),
{
    if dims.len() > 0 {
        lemma_grid_size_pos(dims.drop_last());
        assert(grid_size(dims.drop_last()) * dims.last() >= 1) by (nonlinear_arith)
            requires grid_size(dims.drop_last()) >= 1, dims.last() >= 1;
    }
}

impl GridND {
    /// Construct an n-dimensional grid.
    ///
    /// `value = (dimensions, glue)`: the points per axis (each at least 2),
    /// and per axis whether it wraps around.
    pub fn from(value: (Vec<usize>, Vec<bool>)) -> (grid: GridND)
        requires
            value.0@.len() == value.1@.len(),
            value.0@.len() >= 1,
            forall|j: int| 0 <= j < value.0@.len() ==> value.0@[j] >= 2,
            grid_size(value.0@) <= VERTEX_LIMIT,
        ensures
            grid.grid_wf(),
            grid.dimensions@ == value.0@,
            grid.glue@ == value.1@,
            grid.nr_points == grid_size(value.0@),
    {
        let (dimensions, glue) = value;
        let ghost dims = dimensions@;
        let n = dimensions.len();
        let mut step_sizes: Vec<usize> = Vec::new();
        let mut running_product: usize = 1;
        proof {
            assert(dims.take(0) =~= Seq::<usize>::empty());
        }
        for i in 0..n
            invariant
                n == dims.len(),
                dimensions@ == dims,
                forall|j: int| 0 <= j < dims.len() ==> dims[j] >= 2,
                grid_size(dims) <= VERTEX_LIMIT,
                step_sizes@.len() == i,
                forall|j: int|
                    0 <= j < i ==> #[trigger] step_sizes@[j] == grid_size(dims.take(j)),
                running_product == grid_size(dims.take(i as int)),
        {
            proof {
                lemma_grid_size_prefix(dims, i as int);
                lemma_grid_size_prefix(dims, i as int + 1);
            }
            step_sizes.push(running_product);
            running_product = running_product * dimensions[i];
        }
        proof {
            lemma_grid_size_prefix(dims, n as int - 1);
            assert(dims.take(n as int) =~= dims);
        }
        let nr_points = step_sizes[n - 1] * dimensions[n - 1];
        let grid = GridND { dimensions, step_sizes, glue, nr_points };
        proof {
            assert forall|a: int| 1 <= a < grid.nd() implies (#[trigger] grid.step(a))
                == grid.step(a - 1) * grid.dim(a - 1) by {
                lemma_grid_size_prefix(dims, a - 1);
            }
            assert(grid.step(0) == grid_size(dims.take(0)));
            assert(dims.take(0) =~= Seq::<usize>::empty());
        }
        grid
    }

    /// Construct an n-dimensional toroidal grid: every axis cyclic.
    pub fn from_cyclic(dimensions: Vec<usize>) -> (grid: GridND)
        requires
            dimensions@.len() >= 1,
            forall|j: int| 0 <= j < dimensions@.len() ==> dimensions@[j] >= 2,
            grid_size(dimensions@) <= VERTEX_LIMIT,
        ensures
            grid.grid_wf(),
            grid.dimensions@ == dimensions@,
            grid.nr_points == grid_size(dimensions@),
            forall|a: int| 0 <= a < grid.nd() ==> grid.cyclic(a),
    {
        let n = dimensions.len();
        let mut glue: Vec<bool> = Vec::new();
        for i in 0..n
            invariant
                glue@.len() == i,
                forall|j: int| 0 <= j < i ==> glue@[j],
        {
            glue.push(true);
        }
        GridND::from((dimensions, glue))
    }
}

impl Graph for GridND {
    open spec fn spec_nr_points(&self) -> int {
        self.nr_points as int
    }

    open spec fn spec_neighbors(&self, v: int) -> Seq<usize> {
        self.nbrs_upto(v, self.nd())
    }

    open spec fn wf(&self) -> bool {
        self.grid_wf()
    }

    proof fn wf_facts(&self) {
        self.lemma_outer(0);
        assert forall|v: int| 0 <= v < self.spec_nr_points() implies (
        #[trigger] self.spec_neighbors(v)).no_duplicates() by {
            self.lemma_nbrs_upto_props(v, self.nd());
        }
        assert forall|v: int, j: int|
            0 <= v < self.spec_nr_points() && 0 <= j < self.spec_neighbors(v).len() implies
            #[trigger] self.spec_neighbors(v)[j] < self.spec_nr_points() by {
            self.lemma_nbrs_upto_props(v, self.nd());
            assert(self.spec_neighbors(v).contains(self.spec_neighbors(v)[j]));
        }
        assert forall|v: int|
            0 <= v < self.spec_nr_points() implies !(#[trigger] self.spec_neighbors(v)).contains(
            v as usize,
        ) by {
            self.lemma_nbrs_upto_props(v, self.nd());
        }
        assert forall|u: usize, v: usize|
            u < self.spec_nr_points() && v < self.spec_nr_points()
                && #[trigger] self.spec_neighbors(v as int).contains(u) implies
            #[trigger] self.spec_neighbors(u as int).contains(v) by {
            self.lemma_nbrs_upto_props(v as int, self.nd());
            let a = choose|a: int|
                0 <= a < self.nd() && (#[trigger] self.axis_nbrs(v as int, a)).contains(u);
            self.lemma_axis_sym(v as int, a, u);
            self.lemma_nbrs_upto_props(u as int, self.nd());
        }
    }

    fn nr_points(&self) -> (n: usize) {
        self.nr_points
    }

    #[verifier::rlimit(100)]
    #[verifier::spinoff_prover]
    fn get_neighbors(&self, particle: usize) -> (neighbors: Vec<usize>) {
        let ghost v = particle as int;
        let n = self.dimensions.len();
        let mut neighbors: Vec<usize> = Vec::new();
        for a in 0..n
            invariant
                self.grid_wf(),
                particle < self.nr_points,
                v == particle as int,
                n == self.nd(),
                neighbors@ == self.nbrs_upto(v, a as int),
        {
            let ghost ai = a as int;
            proof {
                self.lemma_step_pos(ai);
                self.lemma_axis_elem(v, ai);
            }
            let st = self.step_sizes[a];
            let d = self.dimensions[a];
            let c = (particle / st) % d;
            assert(c == self.coord(v, ai));
            let ghost before = neighbors@;
            if c == 0 {
                proof {
                    self.lemma_axis_shift(v, ai, 1);
                    assert(self.shifted(v, ai, 1) == v + st) by (nonlinear_arith)
                        requires self.shifted(v, ai, 1) == v - 0 * (st as int) + 1 * (st as int);
                }
                neighbors.push(particle + st);
                if self.glue[a] && d > 2 {
                    proof {
                        self.lemma_axis_shift(v, ai, d - 1);
                        assert(self.shifted(v, ai, d - 1) == v + st * (d - 1)) by (nonlinear_arith)
                            requires
                                self.shifted(v, ai, d - 1) == v - 0 * (st as int) + (d - 1) * (
                                st as int);
                        assert(st * (d - 1) == st as int * (d as int - 1)) by (nonlinear_arith);
                    }
                    neighbors.push(particle + st * (d - 1));
                }
            } else if c == d - 1 {
                proof {
                    self.lemma_axis_shift(v, ai, d - 2);
                    assert(self.shifted(v, ai, d - 2) == v - st) by (nonlinear_arith)
                        requires
                            self.shifted(v, ai, d - 2) == v - (d - 1) * (st as int) + (d - 2) * (
                            st as int);
                }
                neighbors.push(particle - st);
                if self.glue[a] && d > 2 {
                    proof {
                        self.lemma_axis_shift(v, ai, 0);
                        assert(self.shifted(v, ai, 0) == v - st * (d - 1)) by (nonlinear_arith)
                            requires
                                self.shifted(v, ai, 0) == v - (d - 1) * (st as int) + 0 * (
                                st as int);
                        assert(st * (d - 1) == st as int * (d as int - 1)) by (nonlinear_arith);
                    }
                    neighbors.push(particle - st * (d - 1));
                }
            } else {
                proof {
                    self.lemma_axis_shift(v, ai, c + 1);
                    assert(self.shifted(v, ai, c + 1) == v + st) by (nonlinear_arith)
                        requires
                            self.shifted(v, ai, c + 1) == v - (c as int) * (st as int) + (c + 1) * (
                            st as int);
                    self.lemma_axis_shift(v, ai, c - 1);
                    assert(self.shifted(v, ai, c - 1) == v - st) by (nonlinear_arith)
                        requires
                            self.shifted(v, ai, c - 1) == v - (c as int) * (st as int) + (c - 1) * (
                            st as int);
                }
                neighbors.push(particle + st);
                neighbors.push(particle - st);
            }
            proof {
                assert(neighbors@ =~= before + self.axis_nbrs(v, ai));
            }
        }
        neighbors
    }
}

impl GridND {
    /// On a torus whose two axes both have at least three points, every
    /// vertex has exactly four distinct neighbors and is not its own
    /// neighbor.
    pub proof fn lemma_torus_four_neighbors(&self, v: int)
        requires
            self.grid_wf(),
            self.nd() == 2,
            self.cyclic(0) && self.cyclic(1),
            self.dim(0) >= 3,
            self.dim(1) >= 3,
            0 <= v < self.nr_points,
        ensures
            self.spec_neighbors(v).len() == 4,
            self.spec_neighbors(v).no_duplicates(),
            !self.spec_neighbors(v).contains(v as usize),
    {
        self.lemma_nbrs_upto_props(v, 2);
        self.lemma_coord_from_mod(v, 0);
        self.lemma_coord_from_mod(v, 1);
        assert(self.axis_nbrs(v, 0).len() == 2);
        assert(self.axis_nbrs(v, 1).len() == 2);
        assert(self.nbrs_upto(v, 0) =~= Seq::<usize>::empty());
        assert(self.nbrs_upto(v, 1) == self.nbrs_upto(v, 0) + self.axis_nbrs(v, 0));
        assert(self.nbrs_upto(v, 2) == self.nbrs_upto(v, 1) + self.axis_nbrs(v, 1));
    }
}


} // verus!
