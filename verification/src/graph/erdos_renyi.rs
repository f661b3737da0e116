use vstd::prelude::*;
use crate::graph::Graph;
use crate::rng::coin;
use rand::rngs::StdRng;
use crate::VERTEX_LIMIT;

verus! {

/// An Erdős–Rényi random graph: every unordered pair of distinct vertices
/// is an edge independently with the same probability. The edge list stores
/// each edge once as `(larger, smaller)`, in strictly increasing
/// lexicographic order.
pub struct ErdosRenyi {
    pub edges: Vec<(usize, usize)>,
    pub nr_points: usize,
}

/// Strict lexicographic order on stored edges.
pub open spec fn edge_lt(a: (usize, usize), b: (usize, usize)) -> bool {
    a.0 < b.0 || (a.0 == b.0 && a.1 < b.1)
}

/// The neighbors of `v` that the given edge list yields, in edge order.
pub open spec fn nbrs_from_edges(edges: Seq<(usize, usize)>, v: usize) -> Seq<usize>
    decreases edges.len(),
{
    if edges.len() == 0 {
        Seq::empty()
    } else {
        nbrs_from_edges(edges.drop_last(), v) + (if edges.last().0 == v {
            seq![edges.last().1]
        } else if edges.last().1 == v {
            seq![edges.last().0]
        } else {
            Seq::empty()
        })
    }
}

proof fn lemma_contains_drop_last<T>(s: Seq<T>, y: T)
    requires
        s.len() > 0,
    ensures
        s.contains(y) <==> (s.drop_last().contains(y) || s.last() == y),
{
    if s.contains(y) {
        let i = choose|i: int| 0 <= i < s.len() && s[i] == y;
        if i < s.len() - 1 {
            assert(s.drop_last()[i] == y);
        }
    }
    if s.drop_last().contains(y) {
        let i = choose|i: int| 0 <= i < s.drop_last().len() && s.drop_last()[i] == y;
        assert(s[i] == y);
    }
}

proof fn lemma_push_contains<T>(s: Seq<T>, a: T, x: T)
    ensures
        s.push(a).contains(x) <==> (s.contains(x) || x == a),
{
    if s.push(a).contains(x) {
        let i = choose|i: int| 0 <= i < s.push(a).len() && s.push(a)[i] == x;
        if i < s.len() {
            assert(s[i] == x);
        }
    }
    if s.contains(x) {
        let i = choose|i: int| 0 <= i < s.len() && s[i] == x;
        assert(s.push(a)[i] == x);
    }
    assert(s.push(a)[s.len() as int] == a);
}

/// `x` is listed as a neighbor of `v` exactly when the edge list holds the
/// pair, in one of its two orientations.
proof fn lemma_nbrs_contains(edges: Seq<(usize, usize)>, v: usize, x: usize)
    ensures
        nbrs_from_edges(edges, v).contains(x) <==> (edges.contains((v, x)) || edges.contains(
            (x, v),
        )),
    decreases edges.len(),
{
    if edges.len() > 0 {
        let prefix = edges.drop_last();
        let e = edges.last();
        lemma_nbrs_contains(prefix, v, x);
        lemma_contains_drop_last(edges, (v, x));
        lemma_contains_drop_last(edges, (x, v));
        let sp = nbrs_from_edges(prefix, v);
        let s = nbrs_from_edges(edges, v);
        if e.0 == v {
            assert(s =~= sp.push(e.1));
            lemma_push_contains(sp, e.1, x);
        } else if e.1 == v {
            assert(s =~= sp.push(e.0));
            lemma_push_contains(sp, e.0, x);
        } else {
            assert(s =~= sp);
        }
    }
}

impl ErdosRenyi {
    /// Structural invariant: every stored edge is an in-range pair with the
    /// larger vertex first, and the list is strictly ordered.
    pub open spec fn er_wf(&self) -> bool {
        &&& 1 <= self.nr_points <= VERTEX_LIMIT
        &&& forall|i: int|
            0 <= i < self.edges@.len() ==> (#[trigger] self.edges@[i]).1 < self.edges@[i].0
                < self.nr_points
        &&& forall|p: int, q: int|
            0 <= p < q < self.edges@.len() ==> edge_lt(
                #[trigger] self.edges@[p],
                #[trigger] self.edges@[q],
            )
    }

    /// Every neighbor list the edge list yields is duplicate-free, in
    /// range, and loop-free.
    proof fn lemma_nbrs_props(&self, v: usize)
        requires
            self.er_wf(),
            v < self.nr_points,
        ensures
            nbrs_from_edges(self.edges@, v).no_duplicates(),
            forall|x: usize| #[trigger]
                nbrs_from_edges(self.edges@, v).contains(x) ==> x < self.nr_points && x != v,
    {
        Self::lemma_nbrs_props_rec(self.edges@, v, self.nr_points as int);
    }

    proof fn lemma_nbrs_props_rec(edges: Seq<(usize, usize)>, v: usize, n: int)
        requires
            v < n,
            forall|i: int| 0 <= i < edges.len() ==> (#[trigger] edges[i]).1 < edges[i].0 < n,
            forall|p: int, q: int|
                0 <= p < q < edges.len() ==> edge_lt(#[trigger] edges[p], #[trigger] edges[q]),
        ensures
            nbrs_from_edges(edges, v).no_duplicates(),
            forall|x: usize| #[trigger]
                nbrs_from_edges(edges, v).contains(x) ==> x < n && x != v,
        decreases edges.len(),
    {
        if edges.len() > 0 {
            let prefix = edges.drop_last();
            let e = edges.last();
            assert(forall|i: int|
                0 <= i < prefix.len() ==> (#[trigger] prefix[i]) == edges[i]);
            Self::lemma_nbrs_props_rec(prefix, v, n);
            let s = nbrs_from_edges(edges, v);
            let sp = nbrs_from_edges(prefix, v);
            if e.0 == v || e.1 == v {
                let x0: usize = if e.0 == v {
                    e.1
                } else {
                    e.0
                };
                assert(s =~= sp.push(x0));
                assert(edges[edges.len() - 1] == e);
                assert(x0 < n && x0 != v);
                // The new entry cannot already be listed: the pair would
                // have to appear twice, against the strict ordering.
                assert(!sp.contains(x0)) by {
                    if sp.contains(x0) {
                        lemma_nbrs_contains(prefix, v, x0);
                        if prefix.contains((v, x0)) {
                            let p = choose|p: int|
                                0 <= p < prefix.len() && prefix[p] == (v, x0);
                            assert(edges[p] == (v, x0));
                            assert(x0 < v);
                            assert(e == (v, x0));
                            assert(edge_lt(edges[p], edges[edges.len() - 1]));
                        } else {
                            let p = choose|p: int|
                                0 <= p < prefix.len() && prefix[p] == (x0, v);
                            assert(edges[p] == (x0, v));
                            assert(v < x0);
                            assert(e == (x0, v));
                            assert(edge_lt(edges[p], edges[edges.len() - 1]));
                        }
                    }
                }
                assert(s.no_duplicates()) by {
                    assert(sp.no_duplicates());
                    assert(forall|i: int| 0 <= i < sp.len() ==> s[i] == sp[i]);
                    assert(s[s.len() - 1] == x0);
                }
                assert(forall|x: usize| #[trigger] s.contains(x) ==> sp.contains(x) || x == x0)
                    by {
                    assert forall|x: usize| #[trigger] s.contains(x) implies sp.contains(x) || x
                        == x0 by {
                        let i = choose|i: int| 0 <= i < s.len() && s[i] == x;
                        if i < sp.len() {
                            assert(sp[i] == x);
                        }
                    }
                }
            } else {
                assert(s =~= sp);
            }
        }
    }

    /// Construct an Erdős–Rényi graph on `nr_points` vertices where each
    /// pair is connected with probability `prob_num / prob_den`. At ratio
    /// one the graph is complete; at ratio zero it has no edges.
    pub fn new(nr_points: usize, prob_num: u32, prob_den: u32, rng: &mut StdRng) -> (graph:
        ErdosRenyi)
        requires
            1 <= nr_points <= VERTEX_LIMIT,
            1 <= prob_den,
            prob_num <= prob_den,
        ensures
            graph.er_wf(),
            graph.nr_points == nr_points,
            prob_num == 0 ==> graph.edges@.len() == 0,
            prob_num == prob_den ==> forall|a: int, b: int|
                #![trigger graph.edges@.contains((a as usize, b as usize))]
                0 <= b < a < nr_points ==> graph.edges@.contains((a as usize, b as usize)),
    {
        let mut edges: Vec<(usize, usize)> = Vec::new();
        for i in 0..nr_points
            invariant
                nr_points <= VERTEX_LIMIT,
                1 <= prob_den,
                prob_num <= prob_den,
                forall|p: int|
                    0 <= p < edges@.len() ==> (#[trigger] edges@[p]).1 < edges@[p].0 < i,
                forall|p: int, q: int|
                    0 <= p < q < edges@.len() ==> edge_lt(
                        #[trigger] edges@[p],
                        #[trigger] edges@[q],
                    ),
                prob_num == 0 ==> edges@.len() == 0,
                prob_num == prob_den ==> forall|a: int, b: int|
                    #![trigger edges@.contains((a as usize, b as usize))]
                    0 <= b < a < i ==> edges@.contains((a as usize, b as usize)),
        {
            for j in 0..i
                invariant
                    nr_points <= VERTEX_LIMIT,
                    1 <= prob_den,
                    prob_num <= prob_den,
                    i < nr_points,
                    j <= i,
                    forall|p: int|
                        0 <= p < edges@.len() ==> (#[trigger] edges@[p]).1 < edges@[p].0 <= i,
                    forall|p: int|
                        0 <= p < edges@.len() && (#[trigger] edges@[p]).0 == i ==> edges@[p].1 < j,
                    forall|p: int, q: int|
                        0 <= p < q < edges@.len() ==> edge_lt(
                            #[trigger] edges@[p],
                            #[trigger] edges@[q],
                        ),
                    prob_num == 0 ==> edges@.len() == 0,
                    prob_num == prob_den ==> forall|a: int, b: int|
                        #![trigger edges@.contains((a as usize, b as usize))]
                        0 <= b < a < i ==> edges@.contains((a as usize, b as usize)),
                    prob_num == prob_den ==> forall|b: int|
                        #![trigger edges@.contains((i as usize, b as usize))]
                        0 <= b < j ==> edges@.contains((i as usize, b as usize)),
            {
                let ghost before = edges@;
                if coin(rng, prob_num, prob_den) {
                    edges.push((i, j));
                }
                proof {
                    if prob_num == prob_den {
                        assert(edges@ == before.push((i, j)));
                        assert forall|a: int, b: int|
                            #![trigger edges@.contains((a as usize, b as usize))]
                            0 <= b < a < i implies edges@.contains(
                            (a as usize, b as usize),
                        ) by {
                            assert(before.contains((a as usize, b as usize)));
                            lemma_push_contains(before, (i, j), (a as usize, b as usize));
                        }
                        assert forall|b: int|
                            #![trigger edges@.contains((i as usize, b as usize))]
                            0 <= b < j + 1 implies edges@.contains((i as usize, b as usize)) by {
                            if b < j {
                                assert(before.contains((i as usize, b as usize)));
                                lemma_push_contains(before, (i, j), (i as usize, b as usize));
                            } else {
                                assert(edges@[edges@.len() - 1] == (i, j));
                            }
                        }
                    }
                }
            }
        }
        ErdosRenyi { edges, nr_points }
    }
}

impl Graph for ErdosRenyi {
    open spec fn spec_nr_points(&self) -> int {
        self.nr_points as int
    }

    open spec fn spec_neighbors(&self, v: int) -> Seq<usize> {
        nbrs_from_edges(self.edges@, v as usize)
    }

    open spec fn wf(&self) -> bool {
        self.er_wf()
    }

    proof fn wf_facts(&self) {
        assert forall|v: int| 0 <= v < self.spec_nr_points() implies (
        #[trigger] self.spec_neighbors(v)).no_duplicates() by {
            self.lemma_nbrs_props(v as usize);
        }
        assert forall|v: int, j: int|
            0 <= v < self.spec_nr_points() && 0 <= j < self.spec_neighbors(v).len() implies
            #[trigger] self.spec_neighbors(v)[j] < self.spec_nr_points() by {
            self.lemma_nbrs_props(v as usize);
            assert(self.spec_neighbors(v).contains(self.spec_neighbors(v)[j]));
        }
        assert forall|v: int|
            0 <= v < self.spec_nr_points() implies !(#[trigger] self.spec_neighbors(v)).contains(
            v as usize,
        ) by {
            self.lemma_nbrs_props(v as usize);
        }
        assert forall|u: usize, v: usize|
            u < self.spec_nr_points() && v < self.spec_nr_points()
                && #[trigger] self.spec_neighbors(v as int).contains(u) implies
            #[trigger] self.spec_neighbors(u as int).contains(v) by {
            lemma_nbrs_contains(self.edges@, v, u);
            lemma_nbrs_contains(self.edges@, u, v);
        }
    }

    fn nr_points(&self) -> (n: usize) {
        self.nr_points
    }

    fn get_neighbors(&self, particle: usize) -> (neighbors: Vec<usize>) {
        let mut neighbors: Vec<usize> = Vec::new();
        let m = self.edges.len();
        proof {
            assert(self.edges@.take(0) =~= Seq::<(usize, usize)>::empty());
        }
        for i in 0..m
            invariant
                m == self.edges@.len(),
                neighbors@ == nbrs_from_edges(self.edges@.take(i as int), particle),
        {
            let (a, b) = self.edges[i];
            proof {
                assert(self.edges@.take(i + 1).drop_last() =~= self.edges@.take(i as int));
                assert(self.edges@.take(i + 1).last() == self.edges@[i as int]);
            }
            if a == particle {
                neighbors.push(b);
                proof {
                    assert(neighbors@ =~= nbrs_from_edges(self.edges@.take(i + 1), particle));
                }
            } else if b == particle {
                neighbors.push(a);
                proof {
                    assert(neighbors@ =~= nbrs_from_edges(self.edges@.take(i + 1), particle));
                }
            } else {
                proof {
                    assert(neighbors@ =~= nbrs_from_edges(self.edges@.take(i + 1), particle));
                }
            }
        }
        proof {
            assert(self.edges@.take(m as int) =~= self.edges@);
        }
        neighbors
    }
}

} // verus!
