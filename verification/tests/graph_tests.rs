use ips_solver::graph::Graph;
use ips_solver::graph::diluted_lattice::DilutedLattice;
use ips_solver::graph::erdos_renyi::ErdosRenyi;
use ips_solver::graph::grid_n_d::GridND;
use rand::SeedableRng;
use rand::rngs::StdRng;

fn sorted(mut v: Vec<usize>) -> Vec<usize> {
    v.sort();
    v
}

#[test]
fn torus_vertices_have_four_distinct_neighbors() {
    let grid = GridND::from_cyclic(vec![4, 4]);
    assert_eq!(grid.nr_points(), 16);
    for v in 0..16 {
        let neighbors = grid.get_neighbors(v);
        assert_eq!(neighbors.len(), 4);
        let s = sorted(neighbors.clone());
        for w in s.windows(2) {
            assert!(w[0] < w[1], "duplicate neighbor of {}", v);
        }
        assert!(!neighbors.contains(&v), "{} is its own neighbor", v);
    }
}

#[test]
fn grid_two_three_four_vertex_thirteen_neighbors() {
    // On the 2x3x4 torus the two steps along the axis of length two
    // coincide, so vertex 13 has five distinct neighbors.
    let grid = GridND::from_cyclic(vec![2, 3, 4]);
    assert_eq!(grid.nr_points(), 24);
    let neighbors = sorted(grid.get_neighbors(13));
    assert_eq!(neighbors, vec![7, 12, 15, 17, 19]);
}

#[test]
fn circle_neighbors_wrap() {
    let grid = GridND::from_cyclic(vec![9]);
    assert_eq!(grid.nr_points(), 9);
    assert_eq!(sorted(grid.get_neighbors(0)), vec![1, 8]);
    assert_eq!(sorted(grid.get_neighbors(4)), vec![3, 5]);
    assert_eq!(sorted(grid.get_neighbors(8)), vec![0, 7]);
}

#[test]
fn open_rectangle_corner_has_two_neighbors() {
    let grid = GridND::from((vec![3, 3], vec![false, false]));
    assert_eq!(sorted(grid.get_neighbors(0)), vec![1, 3]);
    assert_eq!(sorted(grid.get_neighbors(4)), vec![1, 3, 5, 7]);
    assert_eq!(sorted(grid.get_neighbors(8)), vec![5, 7]);
}

#[test]
fn full_diluted_lattice_matches_torus() {
    // Keeping every edge (probability one) gives the plain 4x4 torus.
    let mut rng = StdRng::seed_from_u64(7);
    let lattice = DilutedLattice::new(4, 4, 1, 1, &mut rng);
    let grid = GridND::from_cyclic(vec![4, 4]);
    assert_eq!(lattice.nr_points(), grid.nr_points());
    for v in 0..16 {
        assert_eq!(
            sorted(lattice.get_neighbors(v)),
            sorted(grid.get_neighbors(v)),
            "neighbor sets differ at {}",
            v
        );
    }
}

#[test]
fn empty_diluted_lattice_has_no_edges() {
    let mut rng = StdRng::seed_from_u64(7);
    let lattice = DilutedLattice::new(3, 5, 0, 1, &mut rng);
    for v in 0..15 {
        assert!(lattice.get_neighbors(v).is_empty());
    }
}

#[test]
fn diluted_lattice_is_symmetric() {
    let mut rng = StdRng::seed_from_u64(99);
    let lattice = DilutedLattice::new(5, 4, 1, 2, &mut rng);
    for v in 0..20usize {
        for u in lattice.get_neighbors(v) {
            assert!(
                lattice.get_neighbors(u).contains(&v),
                "edge {} -> {} not symmetric",
                v,
                u
            );
        }
    }
}

#[test]
fn complete_and_empty_erdos_renyi() {
    let mut rng = StdRng::seed_from_u64(3);
    let complete = ErdosRenyi::new(6, 1, 1, &mut rng);
    for v in 0..6usize {
        let mut expected: Vec<usize> = (0..6).filter(|u| *u != v).collect();
        expected.sort();
        assert_eq!(sorted(complete.get_neighbors(v)), expected);
    }
    let empty = ErdosRenyi::new(6, 0, 1, &mut rng);
    for v in 0..6 {
        assert!(empty.get_neighbors(v).is_empty());
    }
}

#[test]
fn erdos_renyi_is_symmetric() {
    let mut rng = StdRng::seed_from_u64(11);
    let graph = ErdosRenyi::new(12, 1, 3, &mut rng);
    for v in 0..12usize {
        for u in graph.get_neighbors(v) {
            assert!(graph.get_neighbors(u).contains(&v));
        }
    }
}
