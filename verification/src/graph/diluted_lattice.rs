use vstd::prelude::*;
use crate::graph::{Graph, lemma_append_contains, lemma_no_duplicates_append};
use crate::graph::grid_n_d::GridND;
use crate::rng::coin;
use rand::rngs::StdRng;
use crate::VERTEX_LIMIT;
use vstd::arithmetic::div_mod::{
    lemma_fundamental_div_mod, lemma_fundamental_div_mod_converse, lemma_mod_bound,
    lemma_multiply_divide_lt,
};

verus! {

/// A diluted two-dimensional toroidal lattice (bond percolation): each of
/// the `2 * dim_x * dim_y` axis-parallel edges of the full torus is present
/// or absent according to a mask. `horizontal[v]` keeps the edge from `v`
/// to its right neighbor, `vertical[v]` the edge from `v` to its lower
/// neighbor, both wrapping around.
pub struct DilutedLattice {
    pub dim_x: usize,
    pub dim_y: usize,
    pub nr_points: usize,
    pub horizontal: Vec<bool>,
    pub vertical: Vec<bool>,
}

impl DilutedLattice {
    pub open spec fn xc(&self, v: int) -> int {
        v % (self.dim_x as int)
    }

    pub open spec fn yc(&self, v: int) -> int {
        v / (self.dim_x as int)
    }

    pub open spec fn right(&self, v: int) -> int {
        if self.xc(v) == self.dim_x - 1 {
            v + 1 - self.dim_x
        } else {
            v + 1
        }
    }

    pub open spec fn left(&self, v: int) -> int {
        if self.xc(v) == 0 {
            v + self.dim_x - 1
        } else {
            v - 1
        }
    }

    pub open spec fn down(&self, v: int) -> int {
        if self.yc(v) == self.dim_y - 1 {
            v + self.dim_x - self.nr_points
        } else {
            v + self.dim_x
        }
    }

    pub open spec fn up(&self, v: int) -> int {
        if self.yc(v) == 0 {
            v + self.nr_points - self.dim_x
        } else {
            v - self.dim_x
        }
    }

    pub open spec fn lat_wf(&self) -> bool {
        &&& self.dim_x >= 2
        &&& self.dim_y >= 2
        &&& self.nr_points == self.dim_x * self.dim_y
        &&& self.nr_points <= VERTEX_LIMIT
        &&& self.horizontal@.len() == self.nr_points
        &&& self.vertical@.len() == self.nr_points
    }

    /// `u` and `v` are joined by a kept horizontal edge.
    pub open spec fn x_adj(&self, v: int, u: int) -> bool {
        ||| (u == self.right(v) && self.horizontal@[v])
        ||| (v == self.right(u) && self.horizontal@[u])
    }

    /// `u` and `v` are joined by a kept vertical edge.
    pub open spec fn y_adj(&self, v: int, u: int) -> bool {
        ||| (u == self.down(v) && self.vertical@[v])
        ||| (v == self.down(u) && self.vertical@[u])
    }

    /// The neighbor list of `v`: right, left, lower, upper neighbor, each
    /// if its edge is kept, with the coinciding pair of an axis of size 2
    /// merged.
    pub open spec fn lat_nbrs(&self, v: int) -> Seq<usize> {
        let xs: Seq<usize> = if self.dim_x == 2 {
            if self.horizontal@[v] || self.horizontal@[self.right(v)] {
                seq![self.right(v) as usize]
            } else {
                Seq::empty()
            }
        } else {
            (if self.horizontal@[v] {
                seq![self.right(v) as usize]
            } else {
                Seq::empty()
            }) + (if self.horizontal@[self.left(v)] {
                seq![self.left(v) as usize]
            } else {
                Seq::empty()
            })
        };
        let ys: Seq<usize> = if self.dim_y == 2 {
            if self.vertical@[v] || self.vertical@[self.down(v)] {
                seq![self.down(v) as usize]
            } else {
                Seq::empty()
            }
        } else {
            (if self.vertical@[v] {
                seq![self.down(v) as usize]
            } else {
                Seq::empty()
            }) + (if self.vertical@[self.up(v)] {
                seq![self.up(v) as usize]
            } else {
                Seq::empty()
            })
        };
        xs + ys
    }

    /// Coordinates and the four torus moves of an in-range vertex.
    proof fn lemma_moves(&self, v: int)
        requires
            self.lat_wf(),
            0 <= v < self.nr_points,
        ensures
            0 <= self.xc(v) < self.dim_x,
            0 <= self.yc(v) < self.dim_y,
            v == self.yc(v) * self.dim_x + self.xc(v),
            0 <= self.right(v) < self.nr_points,
            0 <= self.left(v) < self.nr_points,
            0 <= self.down(v) < self.nr_points,
            0 <= self.up(v) < self.nr_points,
            self.xc(self.right(v)) == (if self.xc(v) == self.dim_x - 1 {
                0int
            } else {
                self.xc(v) + 1
            }),
            self.xc(self.left(v)) == (if self.xc(v) == 0 {
                self.dim_x - 1
            } else {
                self.xc(v) - 1
            }),
            self.yc(self.right(v)) == self.yc(v),
            self.yc(self.left(v)) == self.yc(v),
            self.xc(self.down(v)) == self.xc(v),
            self.xc(self.up(v)) == self.xc(v),
            self.yc(self.down(v)) == (if self.yc(v) == self.dim_y - 1 {
                0int
            } else {
                self.yc(v) + 1
            }),
            self.yc(self.up(v)) == (if self.yc(v) == 0 {
                self.dim_y - 1
            } else {
                self.yc(v) - 1
            }),
            self.left(self.right(v)) == v,
            self.right(self.left(v)) == v,
            self.up(self.down(v)) == v,
            self.down(self.up(v)) == v,
    {
        let dx = self.dim_x as int;
        let dy = self.dim_y as int;
        let n = self.nr_points as int;
        lemma_fundamental_div_mod(v, dx);
        lemma_mod_bound(v, dx);
        assert(v < dx * dy) by (nonlinear_arith)
            requires v < n, n == dx * dy;
        lemma_multiply_divide_lt(v, dx, dy);
        let x = self.xc(v);
        let y = self.yc(v);
        assert(v == dx * y + x);

        let r = self.right(v);
        let l = self.left(v);
        let d = self.down(v);
        let u = self.up(v);

        // Right and left stay on row y.
        let xr: int = if x == dx - 1 { 0 } else { x + 1 };
        assert(r == dx * y + xr);
        lemma_fundamental_div_mod_converse(r, dx, y, xr);
        let xl: int = if x == 0 { dx - 1 } else { x - 1 };
        assert(l == dx * y + xl);
        lemma_fundamental_div_mod_converse(l, dx, y, xl);
        assert(0 <= r < n && 0 <= l < n) by (nonlinear_arith)
            requires
                r == dx * y + xr,
                l == dx * y + xl,
                0 <= y < dy,
                0 <= xr < dx,
                0 <= xl < dx,
                n == dx * dy;

        // Down and up stay in column x.
        let yd: int = if y == dy - 1 { 0 } else { y + 1 };
        assert(d == dx * yd + x) by (nonlinear_arith)
            requires
                d == (if y == dy - 1 { v + dx - n } else { v + dx }),
                v == dx * y + x,
                n == dx * dy,
                yd == (if y == dy - 1 { 0int } else { y + 1 });
        lemma_fundamental_div_mod_converse(d, dx, yd, x);
        let yu: int = if y == 0 { dy - 1 } else { y - 1 };
        assert(u == dx * yu + x) by (nonlinear_arith)
            requires
                u == (if y == 0 { v + n - dx } else { v - dx }),
                v == dx * y + x,
                n == dx * dy,
                yu == (if y == 0 { dy - 1 } else { y - 1 });
        lemma_fundamental_div_mod_converse(u, dx, yu, x);
        assert(0 <= d < n && 0 <= u < n) by (nonlinear_arith)
            requires
                d == dx * yd + x,
                u == dx * yu + x,
                0 <= yd < dy,
                0 <= yu < dy,
                0 <= x < dx,
                n == dx * dy;
    }

    /// The neighbor list holds exactly the vertices joined to `v` by a kept
    /// edge, without duplicates, and never `v` itself.
    #[verifier::rlimit(100)]
    #[verifier::spinoff_prover]
    proof fn lemma_nbrs_characterization(&self, v: int)
        requires
            self.lat_wf(),
            0 <= v < self.nr_points,
        ensures
            self.lat_nbrs(v).no_duplicates(),
            forall|x: usize| #[trigger]
                self.lat_nbrs(v).contains(x) <==> x < self.nr_points && (self.x_adj(v, x as int)
                    || self.y_adj(v, x as int)),
            forall|x: usize| #[trigger] self.lat_nbrs(v).contains(x) ==> x != v,
    {
        let dx = self.dim_x as int;
        let dy = self.dim_y as int;
        self.lemma_moves(v);
        let r = self.right(v);
        let l = self.left(v);
        let d = self.down(v);
        let u = self.up(v);
        self.lemma_moves(r);
        self.lemma_moves(l);
        self.lemma_moves(d);
        self.lemma_moves(u);
        if dx == 2 {
            assert(r == l);
            assert(self.right(r) == v);
        } else {
            assert(r != l);
            assert(self.right(r) != v) by {
                if self.right(r) == v {
                    assert(self.left(v) == r);
                }
            }
        }
        if dy == 2 {
            assert(d == u);
            assert(self.down(d) == v);
        } else {
            assert(d != u);
            assert(self.down(d) != v) by {
                if self.down(d) == v {
                    assert(self.up(v) == d);
                }
            }
        }
        assert(r != v && l != v && d != v && u != v);
        assert(r != d && r != u && l != d && l != u);

        let xs: Seq<usize> = if self.dim_x == 2 {
            if self.horizontal@[v] || self.horizontal@[self.right(v)] {
                seq![self.right(v) as usize]
            } else {
                Seq::empty()
            }
        } else {
            (if self.horizontal@[v] {
                seq![self.right(v) as usize]
            } else {
                Seq::empty()
            }) + (if self.horizontal@[self.left(v)] {
                seq![self.left(v) as usize]
            } else {
                Seq::empty()
            })
        };
        let ys: Seq<usize> = if self.dim_y == 2 {
            if self.vertical@[v] || self.vertical@[self.down(v)] {
                seq![self.down(v) as usize]
            } else {
                Seq::empty()
            }
        } else {
            (if self.vertical@[v] {
                seq![self.down(v) as usize]
            } else {
                Seq::empty()
            }) + (if self.vertical@[self.up(v)] {
                seq![self.up(v) as usize]
            } else {
                Seq::empty()
            })
        };
        assert(self.lat_nbrs(v) == xs + ys);

        // Which vertices the two halves list, and that each entry is
        // horizontally respectively vertically adjacent.
        assert(forall|x: usize| #[trigger]
            xs.contains(x) <==> x < self.nr_points && self.x_adj(v, x as int)) by {
            if self.dim_x != 2 {
                assert forall|x: usize| #[trigger] xs.contains(x) implies x < self.nr_points
                    && self.x_adj(v, x as int) by {
                    lemma_append_contains(
                        if self.horizontal@[v] {
                            seq![self.right(v) as usize]
                        } else {
                            Seq::empty()
                        },
                        if self.horizontal@[self.left(v)] {
                            seq![self.left(v) as usize]
                        } else {
                            Seq::empty()
                        },
                        x,
                    );
                }
            }
            assert forall|x: usize|
                x < self.nr_points && self.x_adj(v, x as int) implies #[trigger] xs.contains(
                x,
            ) by {
                let xi = x as int;
                if xi == r {
                } else {
                    assert(v == self.right(xi) && self.horizontal@[xi]);
                    self.lemma_moves(xi);
                    assert(self.left(v) == xi);
                }
                if self.dim_x != 2 {
                    let first: Seq<usize> = if self.horizontal@[v] {
                        seq![self.right(v) as usize]
                    } else {
                        Seq::empty()
                    };
                    let second: Seq<usize> = if self.horizontal@[self.left(v)] {
                        seq![self.left(v) as usize]
                    } else {
                        Seq::empty()
                    };
                    lemma_append_contains(first, second, x);
                    if xi == r {
                        assert(self.horizontal@[v]) by {
                            if !self.horizontal@[v] {
                                assert(v == self.right(r) && self.horizontal@[r]);
                            }
                        }
                        assert(first[0] == x);
                    } else {
                        assert(self.horizontal@[self.left(v)]) by {
                            if !self.horizontal@[xi] {
                                assert(xi == self.right(v));
                            }
                        }
                        assert(second[0] == x);
                    }
                } else {
                    assert(xi == r);
                    assert(self.horizontal@[v] || self.horizontal@[r]) by {
                        if !self.horizontal@[v] {
                            assert(v == self.right(r) && self.horizontal@[r]);
                        }
                    }
                    assert(xs[0] == x);
                }
            }
        }
        assert(forall|x: usize| #[trigger]
            ys.contains(x) <==> x < self.nr_points && self.y_adj(v, x as int)) by {
            if self.dim_y != 2 {
                assert forall|x: usize| #[trigger] ys.contains(x) implies x < self.nr_points
                    && self.y_adj(v, x as int) by {
                    lemma_append_contains(
                        if self.vertical@[v] {
                            seq![self.down(v) as usize]
                        } else {
                            Seq::empty()
                        },
                        if self.vertical@[self.up(v)] {
                            seq![self.up(v) as usize]
                        } else {
                            Seq::empty()
                        },
                        x,
                    );
                }
            }
            assert forall|x: usize|
                x < self.nr_points && self.y_adj(v, x as int) implies #[trigger] ys.contains(
                x,
            ) by {
                let xi = x as int;
                if xi == d {
                } else {
                    assert(v == self.down(xi) && self.vertical@[xi]);
                    self.lemma_moves(xi);
                    assert(self.up(v) == xi);
                }
                if self.dim_y != 2 {
                    let first: Seq<usize> = if self.vertical@[v] {
                        seq![self.down(v) as usize]
                    } else {
                        Seq::empty()
                    };
                    let second: Seq<usize> = if self.vertical@[self.up(v)] {
                        seq![self.up(v) as usize]
                    } else {
                        Seq::empty()
                    };
                    lemma_append_contains(first, second, x);
                    if xi == d {
                        assert(self.vertical@[v]) by {
                            if !self.vertical@[v] {
                                assert(v == self.down(d) && self.vertical@[d]);
                            }
                        }
                        assert(first[0] == x);
                    } else {
                        assert(self.vertical@[self.up(v)]) by {
                            if !self.vertical@[xi] {
                                assert(xi == self.down(v));
                            }
                        }
                        assert(second[0] == x);
                    }
                } else {
                    assert(xi == d);
                    assert(self.vertical@[v] || self.vertical@[d]) by {
                        if !self.vertical@[v] {
                            assert(v == self.down(d) && self.vertical@[d]);
                        }
                    }
                    assert(ys[0] == x);
                }
            }
        }
        assert forall|x: usize| #[trigger] (xs + ys).contains(x) implies xs.contains(x)
            || ys.contains(x) by {
            lemma_append_contains(xs, ys, x);
        }
        assert forall|x: usize| xs.contains(x) || ys.contains(x) implies #[trigger] (xs
            + ys).contains(x) by {
            lemma_append_contains(xs, ys, x);
        }
        assert((xs + ys).no_duplicates()) by {
            assert(xs.no_duplicates());
            assert(ys.no_duplicates());
            assert(forall|x: usize| !(#[trigger] xs.contains(x) && ys.contains(x))) by {
                assert forall|x: usize| !(#[trigger] xs.contains(x) && ys.contains(x)) by {
                    if xs.contains(x) && ys.contains(x) {
                        assert(self.x_adj(v, x as int) && self.y_adj(v, x as int));
                        assert(x as int == r || x as int == l);
                        assert(x as int == d || x as int == u);
                    }
                }
            }
            lemma_no_duplicates_append(xs, ys);
        }
    }

    /// Construct a diluted lattice on a `dim_x` by `dim_y` torus where each
    /// axis-parallel edge is kept with probability `prob_num / prob_den`.
    /// With ratio one every edge is kept; with ratio zero none is.
    pub fn new(dim_x: usize, dim_y: usize, prob_num: u32, prob_den: u32, rng: &mut StdRng) -> (
        lattice: DilutedLattice)
        requires
            dim_x >= 2,
            dim_y >= 2,
            dim_x * dim_y <= VERTEX_LIMIT,
            1 <= prob_den,
            prob_num <= prob_den,
        ensures
            lattice.lat_wf(),
            lattice.dim_x == dim_x,
            lattice.dim_y == dim_y,
            lattice.nr_points == dim_x * dim_y,
            prob_num == prob_den ==> forall|i: int|
                0 <= i < lattice.nr_points ==> #[trigger] lattice.horizontal@[i],
            prob_num == prob_den ==> forall|i: int|
                0 <= i < lattice.nr_points ==> #[trigger] lattice.vertical@[i],
            prob_num == 0 ==> forall|i: int|
                0 <= i < lattice.nr_points ==> !(#[trigger] lattice.horizontal@[i]),
            prob_num == 0 ==> forall|i: int|
                0 <= i < lattice.nr_points ==> !(#[trigger] lattice.vertical@[i]),
    {
        let nr_points = dim_x * dim_y;
        let mut horizontal: Vec<bool> = Vec::new();
        let mut vertical: Vec<bool> = Vec::new();
        for i in 0..nr_points
            invariant
                1 <= prob_den,
                prob_num <= prob_den,
                horizontal@.len() == i,
                prob_num == prob_den ==> forall|j: int| 0 <= j < i ==> #[trigger] horizontal@[j],
                prob_num == 0 ==> forall|j: int| 0 <= j < i ==> !(#[trigger] horizontal@[j]),
        {
            horizontal.push(coin(rng, prob_num, prob_den));
        }
        for i in 0..nr_points
            invariant
                1 <= prob_den,
                prob_num <= prob_den,
                vertical@.len() == i,
                prob_num == prob_den ==> forall|j: int| 0 <= j < i ==> #[trigger] vertical@[j],
                prob_num == 0 ==> forall|j: int| 0 <= j < i ==> !(#[trigger] vertical@[j]),
        {
            vertical.push(coin(rng, prob_num, prob_den));
        }
        DilutedLattice { dim_x, dim_y, nr_points, horizontal, vertical }
    }
}

impl Graph for DilutedLattice {
    open spec fn spec_nr_points(&self) -> int {
        self.nr_points as int
    }

    open spec fn spec_neighbors(&self, v: int) -> Seq<usize> {
        self.lat_nbrs(v)
    }

    open spec fn wf(&self) -> bool {
        self.lat_wf()
    }

    proof fn wf_facts(&self) {
        assert(self.nr_points >= 4) by (nonlinear_arith)
            requires
                self.nr_points == self.dim_x * self.dim_y,
                self.dim_x >= 2,
                self.dim_y >= 2;
        assert forall|v: int| 0 <= v < self.spec_nr_points() implies (
        #[trigger] self.spec_neighbors(v)).no_duplicates() by {
            self.lemma_nbrs_characterization(v);
        }
        assert forall|v: int, j: int|
            0 <= v < self.spec_nr_points() && 0 <= j < self.spec_neighbors(v).len() implies
            #[trigger] self.spec_neighbors(v)[j] < self.spec_nr_points() by {
            self.lemma_nbrs_characterization(v);
            assert(self.spec_neighbors(v).contains(self.spec_neighbors(v)[j]));
        }
        assert forall|v: int|
            0 <= v < self.spec_nr_points() implies !(#[trigger] self.spec_neighbors(v)).contains(
            v as usize,
        ) by {
            self.lemma_nbrs_characterization(v);
        }
        assert forall|u: usize, v: usize|
            u < self.spec_nr_points() && v < self.spec_nr_points()
                && #[trigger] self.spec_neighbors(v as int).contains(u) implies
            #[trigger] self.spec_neighbors(u as int).contains(v) by {
            self.lemma_nbrs_characterization(v as int);
            self.lemma_nbrs_characterization(u as int);
        }
    }

    fn nr_points(&self) -> (n: usize) {
        self.nr_points
    }

    fn get_neighbors(&self, particle: usize) -> (neighbors: Vec<usize>) {
        let ghost v = particle as int;
        proof {
            self.lemma_moves(v);
        }
        let dx = self.dim_x;
        let dy = self.dim_y;
        let n = self.nr_points;
        let x_coord = particle % dx;
        let y_coord = particle / dx;
        let right = if x_coord == dx - 1 {
            particle + 1 - dx
        } else {
            particle + 1
        };
        let left = if x_coord == 0 {
            particle + dx - 1
        } else {
            particle - 1
        };
        let down = if y_coord == dy - 1 {
            particle + dx - n
        } else {
            particle + dx
        };
        let up = if y_coord == 0 {
            particle + n - dx
        } else {
            particle - dx
        };
        let mut neighbors: Vec<usize> = Vec::new();
        if dx == 2 {
            if self.horizontal[particle] || self.horizontal[right] {
                neighbors.push(right);
            }
        } else {
            if self.horizontal[particle] {
                neighbors.push(right);
            }
            if self.horizontal[left] {
                neighbors.push(left);
            }
        }
        if dy == 2 {
            if self.vertical[particle] || self.vertical[down] {
                neighbors.push(down);
            }
        } else {
            if self.vertical[particle] {
                neighbors.push(down);
            }
            if self.vertical[up] {
                neighbors.push(up);
            }
        }
        proof {
            assert(neighbors@ =~= self.lat_nbrs(v));
        }
        neighbors
    }
}

/// With every edge kept, the diluted lattice has exactly the neighbor sets
/// of the plain two-dimensional torus of the same size.
#[verifier::rlimit(100)]
#[verifier::spinoff_prover]
pub proof fn lemma_full_lattice_is_torus(lattice: &DilutedLattice, grid: &GridND, v: int)
    requires
        lattice.lat_wf(),
        forall|i: int| 0 <= i < lattice.nr_points ==> #[trigger] lattice.horizontal@[i],
        forall|i: int| 0 <= i < lattice.nr_points ==> #[trigger] lattice.vertical@[i],
        grid.grid_wf(),
        grid.nd() == 2,
        grid.cyclic(0) && grid.cyclic(1),
        grid.dim(0) == lattice.dim_x,
        grid.dim(1) == lattice.dim_y,
        0 <= v < lattice.nr_points,
    ensures
        lattice.nr_points == grid.nr_points,
        lattice.spec_neighbors(v).to_set() == grid.spec_neighbors(v).to_set(),
{
    let dx = lattice.dim_x as int;
    let dy = lattice.dim_y as int;
    assert(grid.step(1) == grid.step(1 - 1) * grid.dim(1 - 1));
    assert(grid.step(1) == dx) by (nonlinear_arith)
        requires grid.step(1) == grid.step(0) * grid.dim(0), grid.step(0) == 1, grid.dim(0) == dx;
    assert(grid.nr_points == grid.step(grid.nd() - 1) * grid.dim(grid.nd() - 1));
    assert(lattice.nr_points == grid.nr_points) by (nonlinear_arith)
        requires
            lattice.nr_points == lattice.dim_x * lattice.dim_y,
            grid.nr_points == grid.step(1) * grid.dim(1),
            grid.step(1) == dx,
            grid.dim(1) == dy,
            dx == lattice.dim_x,
            dy == lattice.dim_y;
    lattice.lemma_moves(v);
    lattice.lemma_nbrs_characterization(v);
    let n = lattice.nr_points as int;
    let r = lattice.right(v);
    let l = lattice.left(v);
    let d = lattice.down(v);
    let u = lattice.up(v);
    lattice.lemma_moves(r);
    lattice.lemma_moves(l);
    lattice.lemma_moves(d);
    lattice.lemma_moves(u);
    assert(lattice.horizontal@[v] && lattice.vertical@[v]);
    assert(lattice.horizontal@[r] && lattice.vertical@[r]);
    assert(lattice.horizontal@[l] && lattice.vertical@[l]);
    assert(lattice.horizontal@[d] && lattice.vertical@[d]);
    assert(lattice.horizontal@[u] && lattice.vertical@[u]);

    // The grid's two axis coordinates are the lattice's coordinates.
    assert(grid.coord(v, 0) == lattice.xc(v)) by {
        assert(v / 1int == v) by (nonlinear_arith);
    }
    assert(grid.coord(v, 1) == lattice.yc(v)) by {
        lemma_mod_bound(v / dx, dy);
        lemma_fundamental_div_mod_converse(v / dx, dy, 0, v / dx);
    }
    let c0 = grid.coord(v, 0);
    let c1 = grid.coord(v, 1);

    // The first grid axis lists exactly the lattice's right and left
    // neighbors, the second exactly its lower and upper neighbors.
    assert(forall|x: usize| #[trigger]
        grid.axis_nbrs(v, 0).contains(x) <==> x as int == r || x as int == l) by {
        let s = grid.axis_nbrs(v, 0);
        if c0 == 0 {
            if dx > 2 {
                assert(s == seq![(v + 1) as usize, (v + 1 * (dx - 1)) as usize]);
                assert(v + 1 == r && v + 1 * (dx - 1) == l);
                assert(s[0] == r as usize && s[1] == l as usize);
                assert forall|x: usize| #[trigger] s.contains(x) implies x as int == r || x as int
                    == l by {
                    let i = choose|i: int| 0 <= i < s.len() && s[i] == x;
                }
            } else {
                assert(s == seq![(v + 1) as usize]);
                assert(v + 1 == r && r == l);
                assert forall|x: usize| #[trigger] s.contains(x) implies x as int == r || x as int
                    == l by {
                    let i = choose|i: int| 0 <= i < s.len() && s[i] == x;
                }
                assert(s[0] == r as usize);
            }
        } else if c0 == dx - 1 {
            assert(grid.cyclic(0) && dx > 2 ==> s == seq![(v - 1) as usize, (v - 1 * (dx - 1)) as usize]);
            if dx > 2 {
                assert(v - 1 == l && v - 1 * (dx - 1) == r);
                assert(s[0] == l as usize && s[1] == r as usize);
                assert forall|x: usize| #[trigger] s.contains(x) implies x as int == r || x as int
                    == l by {
                    let i = choose|i: int| 0 <= i < s.len() && s[i] == x;
                }
            } else {
                assert(s == seq![(v - 1) as usize]);
                assert(v - 1 == l && r == l);
                assert forall|x: usize| #[trigger] s.contains(x) implies x as int == r || x as int
                    == l by {
                    let i = choose|i: int| 0 <= i < s.len() && s[i] == x;
                }
                assert(s[0] == l as usize);
            }
        } else {
            assert(s == seq![(v + 1) as usize, (v - 1) as usize]);
            assert(v + 1 == r && v - 1 == l);
            assert(s[0] == r as usize && s[1] == l as usize);
            assert forall|x: usize| #[trigger] s.contains(x) implies x as int == r || x as int
                == l by {
                let i = choose|i: int| 0 <= i < s.len() && s[i] == x;
            }
        }
    }
    assert(forall|x: usize| #[trigger]
        grid.axis_nbrs(v, 1).contains(x) <==> x as int == d || x as int == u) by {
        let s = grid.axis_nbrs(v, 1);
        let st = grid.step(1);
        assert(st == dx);
        if c1 == 0 {
            if dy > 2 {
                assert(s == seq![(v + dx) as usize, (v + dx * (dy - 1)) as usize]);
                assert(v + dx == d);
                assert(v + dx * (dy - 1) == u) by (nonlinear_arith)
                    requires u == v + n - dx, n == dx * dy;
                assert(s[0] == d as usize && s[1] == u as usize);
                assert forall|x: usize| #[trigger] s.contains(x) implies x as int == d || x as int
                    == u by {
                    let i = choose|i: int| 0 <= i < s.len() && s[i] == x;
                }
            } else {
                assert(s == seq![(v + dx) as usize]);
                assert(v + dx == d && d == u);
                assert forall|x: usize| #[trigger] s.contains(x) implies x as int == d || x as int
                    == u by {
                    let i = choose|i: int| 0 <= i < s.len() && s[i] == x;
                }
                assert(s[0] == d as usize);
            }
        } else if c1 == dy - 1 {
            if dy > 2 {
                assert(s == seq![(v - dx) as usize, (v - dx * (dy - 1)) as usize]);
                assert(v - dx == u);
                assert(v - dx * (dy - 1) == d) by (nonlinear_arith)
                    requires d == v + dx - n, n == dx * dy;
                assert(s[0] == u as usize && s[1] == d as usize);
                assert forall|x: usize| #[trigger] s.contains(x) implies x as int == d || x as int
                    == u by {
                    let i = choose|i: int| 0 <= i < s.len() && s[i] == x;
                }
            } else {
                assert(s == seq![(v - dx) as usize]);
                assert(v - dx == u && d == u);
                assert forall|x: usize| #[trigger] s.contains(x) implies x as int == d || x as int
                    == u by {
                    let i = choose|i: int| 0 <= i < s.len() && s[i] == x;
                }
                assert(s[0] == u as usize);
            }
        } else {
            assert(s == seq![(v + dx) as usize, (v - dx) as usize]);
            assert(v + dx == d && v - dx == u);
            assert(s[0] == d as usize && s[1] == u as usize);
            assert forall|x: usize| #[trigger] s.contains(x) implies x as int == d || x as int
                == u by {
                let i = choose|i: int| 0 <= i < s.len() && s[i] == x;
            }
        }
    }

    // Membership in the two whole lists coincides.
    assert(grid.spec_neighbors(v) == grid.nbrs_upto(v, 2));
    assert(grid.nbrs_upto(v, 0) =~= Seq::<usize>::empty());
    assert(grid.nbrs_upto(v, 1) == grid.nbrs_upto(v, 0) + grid.axis_nbrs(v, 0));
    assert(grid.nbrs_upto(v, 2) == grid.nbrs_upto(v, 1) + grid.axis_nbrs(v, 1));
    assert(grid.nbrs_upto(v, 1) =~= grid.axis_nbrs(v, 0));
    assert forall|x: usize| #[trigger]
        grid.spec_neighbors(v).contains(x) <==> (x as int == r || x as int == l || x as int == d
            || x as int == u) by {
        lemma_append_contains(grid.nbrs_upto(v, 1), grid.axis_nbrs(v, 1), x);
    }
    assert forall|x: usize| #[trigger]
        lattice.spec_neighbors(v).contains(x) <==> (x as int == r || x as int == l || x as int
            == d || x as int == u) by {
        if lattice.spec_neighbors(v).contains(x) {
            assert(lattice.x_adj(v, x as int) || lattice.y_adj(v, x as int));
            if lattice.x_adj(v, x as int) {
                if x as int != r {
                    assert(v == lattice.right(x as int));
                    lattice.lemma_moves(x as int);
                    assert(lattice.left(v) == x as int);
                }
            } else {
                if x as int != d {
                    assert(v == lattice.down(x as int));
                    lattice.lemma_moves(x as int);
                    assert(lattice.up(v) == x as int);
                }
            }
        }
        if x as int == r || x as int == l || x as int == d || x as int == u {
            if x as int == r {
                assert(lattice.x_adj(v, x as int));
            } else if x as int == l {
                assert(lattice.right(l) == v);
                assert(lattice.x_adj(v, x as int));
            } else if x as int == d {
                assert(lattice.y_adj(v, x as int));
            } else {
                assert(lattice.down(u) == v);
                assert(lattice.y_adj(v, x as int));
            }
        }
    }
    assert(lattice.spec_neighbors(v).to_set() =~= grid.spec_neighbors(v).to_set());
}

} // verus!
