use vstd::prelude::*;
use crate::VERTEX_LIMIT;

pub mod diluted_lattice;
pub mod erdos_renyi;
pub mod grid_n_d;

verus! {

/// A finite undirected graph on the vertices `0 .. spec_nr_points()`,
/// presented as a neighborhood oracle.
///
/// The solver relies on the graph being fixed, loop-free and symmetric:
/// when a vertex changes state, exactly the vertices whose neighbor lists
/// contain it must have their rates repaired.
pub trait Graph: Sized {
    /// Number of vertices.
    spec fn spec_nr_points(&self) -> int;

    /// The neighbor list of vertex `v`, in the order `get_neighbors`
    /// returns it.
    spec fn spec_neighbors(&self, v: int) -> Seq<usize>;

    /// The graph is usable by the solver: the vertex count is within the
    /// machine limit and the neighbor lists are duplicate-free, in range,
    /// loop-free and symmetric.
    spec fn wf(&self) -> bool;

    /// Consequences of `wf` that generic code may rely on.
    proof fn wf_facts(&self)
        requires
            self.wf(),
        ensures
            1 <= self.spec_nr_points() <= VERTEX_LIMIT,
            forall|v: int| 0 <= v < self.spec_nr_points() ==> (
            #[trigger] self.spec_neighbors(v)).no_duplicates(),
            forall|v: int, j: int|
                0 <= v < self.spec_nr_points() && 0 <= j < self.spec_neighbors(v).len()
                    ==> #[trigger] self.spec_neighbors(v)[j] < self.spec_nr_points(),
            forall|v: int|
                0 <= v < self.spec_nr_points() ==> !(#[trigger] self.spec_neighbors(v)).contains(
                    v as usize,
                ),
            forall|u: usize, v: usize|
                u < self.spec_nr_points() && v < self.spec_nr_points() && #[trigger] self.spec_neighbors(
                    v as int,
                ).contains(u) ==> #[trigger] self.spec_neighbors(u as int).contains(v),
    ;

    /// Number of vertices, as a machine word.
    fn nr_points(&self) -> (n: usize)
        requires
            self.wf(),
        ensures
            n == self.spec_nr_points(),
    ;

    /// The neighbors of `particle`: each exactly once, each in range, never
    /// `particle` itself.
    fn get_neighbors(&self, particle: usize) -> (neighbors: Vec<usize>)
        requires
            self.wf(),
            particle < self.spec_nr_points(),
        ensures
            neighbors@ == self.spec_neighbors(particle as int),
    ;
}

/// A duplicate-free sequence of values below `n` has at most `n` entries.
pub proof fn lemma_distinct_bounded_len(s: Seq<usize>, n: int)
    requires
        s.no_duplicates(),
        forall|i: int| 0 <= i < s.len() ==> s[i] < n,
        n >= 0,
    ensures
        s.len() <= n,
    decreases n,
{
    if s.len() > 0 {
        if exists|i: int| 0 <= i < s.len() && s[i] == n - 1 {
            let i = choose|i: int| 0 <= i < s.len() && s[i] == n - 1;
            let t = s.remove(i);
            assert(t.no_duplicates()) by {
                assert(forall|p: int, q: int|
                    0 <= p < q < t.len() ==> t[p] != t[q]) by {
                    assert(forall|p: int| 0 <= p < t.len() ==> t[p] == (if p < i {
                        s[p]
                    } else {
                        s[p + 1]
                    }));
                }
            }
            assert(forall|j: int| 0 <= j < t.len() ==> t[j] < n - 1) by {
                assert(forall|j: int| 0 <= j < t.len() ==> t[j] == (if j < i {
                    s[j]
                } else {
                    s[j + 1]
                }) && t[j] != n - 1);
            }
            lemma_distinct_bounded_len(t, n - 1);
        } else {
            assert(n >= 1) by {
                assert(s[0] < n);
            }
            assert(forall|i: int| 0 <= i < s.len() ==> s[i] < n - 1);
            lemma_distinct_bounded_len(s, n - 1);
        }
    }
}

/// The degree of any vertex of a well-formed graph is at most the number of
/// vertices.
pub proof fn lemma_degree_bound<G: Graph>(graph: G, v: int)
    requires
        graph.wf(),
        0 <= v < graph.spec_nr_points(),
    ensures
        graph.spec_neighbors(v).len() <= graph.spec_nr_points(),
{
    graph.wf_facts();
    lemma_distinct_bounded_len(graph.spec_neighbors(v), graph.spec_nr_points());
}


/// Membership in a concatenation.
pub proof fn lemma_append_contains<T>(s: Seq<T>, t: Seq<T>, x: T)
    ensures
        (s + t).contains(x) <==> (s.contains(x) || t.contains(x)),
{
    if (s + t).contains(x) {
        let i = choose|i: int| 0 <= i < (s + t).len() && (s + t)[i] == x;
        if i < s.len() {
            assert(s[i] == x);
        } else {
            assert(t[i - s.len()] == x);
        }
    }
    if s.contains(x) {
        let i = choose|i: int| 0 <= i < s.len() && s[i] == x;
        assert((s + t)[i] == x);
    }
    if t.contains(x) {
        let i = choose|i: int| 0 <= i < t.len() && t[i] == x;
        assert((s + t)[s.len() + i] == x);
    }
}

/// A concatenation of two duplicate-free sequences with no common element
/// is duplicate-free.
pub proof fn lemma_no_duplicates_append<T>(s: Seq<T>, t: Seq<T>)
    requires
        s.no_duplicates(),
        t.no_duplicates(),
        forall|x: T| !(#[trigger] s.contains(x) && t.contains(x)),
    ensures
        (s + t).no_duplicates(),
{
    assert forall|p: int, q: int| 0 <= p < q < (s + t).len() implies (s + t)[p] != (s + t)[q] by {
        if p < s.len() && q >= s.len() {
            if (s + t)[p] == (s + t)[q] {
                let x = (s + t)[p];
                assert(s[p] == x);
                assert(t[q - s.len()] == x);
                assert(s.contains(x) && t.contains(x));
            }
        }
    }
}

} // verus!
