use graph_layout::generators::{
    closest_pair_sq, make_edges, make_edges_by_proximity, make_nodes, bernoulli_graph,
    GenerationError, Probability, ProximityFactor, Window,
};
use graph_layout::geometry::GridPoint;
use rand::rngs::StdRng;
use rand::SeedableRng;

fn square() -> Vec<GridPoint> {
    vec![
        GridPoint::new(0, 0),
        GridPoint::new(10, 0),
        GridPoint::new(0, 10),
        GridPoint::new(10, 10),
    ]
}

#[test]
fn certain_bernoulli_on_four_nodes_gives_all_six_edges() {
    let mut rng = StdRng::seed_from_u64(1);
    let g = make_edges(4, Probability { num: 1, den: 1 }, &mut rng).unwrap();
    let mut e = g.edges();
    e.sort();
    assert_eq!(e, vec![(0, 1), (0, 2), (0, 3), (1, 2), (1, 3), (2, 3)]);
}

#[test]
fn zero_probability_gives_no_edges() {
    let mut rng = StdRng::seed_from_u64(2);
    let g = make_edges(6, Probability { num: 0, den: 5 }, &mut rng).unwrap();
    assert_eq!(g.node_count(), 6);
    assert!(g.edges().is_empty());
}

#[test]
fn bernoulli_edges_are_distinct_pairs_of_nodes() {
    for seed in 0..20u64 {
        let mut rng = StdRng::seed_from_u64(seed);
        let g = make_edges(12, Probability { num: 3, den: 4 }, &mut rng).unwrap();
        let e = g.edges();
        assert!(e.len() <= 66);
        for (k, &(a, b)) in e.iter().enumerate() {
            assert!(a < b && b < 12);
            assert!(!e[k + 1..].contains(&(a, b)));
        }
    }
}

#[test]
fn bernoulli_graph_follows_the_coins() {
    let coins = vec![true, false, true];
    let g = bernoulli_graph(3, &coins);
    let mut e = g.edges();
    e.sort();
    assert_eq!(e, vec![(0, 1), (1, 2)]);
}

#[test]
fn make_edges_refuses_bad_parameters() {
    let mut rng = StdRng::seed_from_u64(3);
    assert_eq!(
        make_edges(0, Probability { num: 1, den: 2 }, &mut rng).err(),
        Some(GenerationError::NoNodes)
    );
    assert_eq!(
        make_edges(3, Probability { num: 5, den: 4 }, &mut rng).err(),
        Some(GenerationError::InvalidProbability)
    );
    assert_eq!(
        make_edges(3, Probability { num: 0, den: 0 }, &mut rng).err(),
        Some(GenerationError::InvalidProbability)
    );
}

#[test]
fn single_node_has_no_edges() {
    let mut rng = StdRng::seed_from_u64(4);
    let g = make_edges(1, Probability { num: 1, den: 1 }, &mut rng).unwrap();
    assert_eq!(g.node_count(), 1);
    assert!(g.edges().is_empty());
}

#[test]
fn nodes_fall_inside_the_window() {
    let mut rng = StdRng::seed_from_u64(5);
    let w = Window { half_width: 500, half_height: 300 };
    let pts = make_nodes(200, w, &mut rng).unwrap();
    assert_eq!(pts.len(), 200);
    for p in &pts {
        assert!(-500 <= p.x && p.x < 500);
        assert!(-300 <= p.y && p.y < 300);
    }
    assert!(pts.iter().any(|p| p.x != -500));
    assert!(pts.iter().any(|p| p.x != pts[0].x));
}

#[test]
fn smallest_window_has_four_grid_points() {
    let mut rng = StdRng::seed_from_u64(6);
    let w = Window { half_width: 1, half_height: 1 };
    for p in make_nodes(50, w, &mut rng).unwrap() {
        assert!(p.x == -1 || p.x == 0);
        assert!(p.y == -1 || p.y == 0);
    }
}

#[test]
fn make_nodes_refuses_bad_parameters() {
    let mut rng = StdRng::seed_from_u64(7);
    let w = Window { half_width: 10, half_height: 10 };
    assert_eq!(make_nodes(0, w, &mut rng).err(), Some(GenerationError::NoNodes));
    let flat = Window { half_width: 10, half_height: 0 };
    assert_eq!(make_nodes(3, flat, &mut rng).err(), Some(GenerationError::InvalidWindow));
    let negative = Window { half_width: -4, half_height: 10 };
    assert_eq!(make_nodes(3, negative, &mut rng).err(), Some(GenerationError::InvalidWindow));
}

#[test]
fn closest_pair_of_the_square() {
    assert_eq!(closest_pair_sq(&square()), 100);
    let pts = vec![GridPoint::new(0, 0), GridPoint::new(7, 1), GridPoint::new(6, 0)];
    assert_eq!(closest_pair_sq(&pts), 2);
}

#[test]
fn proximity_with_wide_factor_joins_square_diagonals() {
    // 1.5 squared is 2.25; the diagonals have squared length 200 < 225.
    let g = make_edges_by_proximity(&square(), ProximityFactor { num: 3, den: 2 }).unwrap();
    assert_eq!(g.edges().len(), 6);
}

#[test]
fn proximity_with_narrow_factor_keeps_only_sides() {
    // 1.3 squared is 1.69; the sides (100) stay, the diagonals (200) do not.
    let g = make_edges_by_proximity(&square(), ProximityFactor { num: 13, den: 10 }).unwrap();
    let mut e = g.edges();
    e.sort();
    assert_eq!(e, vec![(0, 1), (0, 2), (1, 3), (2, 3)]);
}

#[test]
fn proximity_bound_is_strict() {
    // With factor 1 no pair is strictly closer than the closest pair.
    let g = make_edges_by_proximity(&square(), ProximityFactor { num: 1, den: 1 }).unwrap();
    assert!(g.edges().is_empty());
    // Factor 1.4 falls just short of the diagonal, which stays out.
    let pts = vec![GridPoint::new(0, 0), GridPoint::new(1, 0), GridPoint::new(1, 1)];
    let g = make_edges_by_proximity(&pts, ProximityFactor { num: 7, den: 5 }).unwrap();
    let mut e = g.edges();
    e.sort();
    assert_eq!(e, vec![(0, 1), (1, 2)]);
}

#[test]
fn proximity_includes_every_closest_pair() {
    let pts = vec![
        GridPoint::new(0, 0),
        GridPoint::new(3, 4),
        GridPoint::new(100, 100),
        GridPoint::new(103, 104),
    ];
    let g = make_edges_by_proximity(&pts, ProximityFactor { num: 11, den: 10 }).unwrap();
    let mut e = g.edges();
    e.sort();
    assert_eq!(e, vec![(0, 1), (2, 3)]);
}

#[test]
fn proximity_with_coincident_nodes_gives_no_edges() {
    let pts = vec![GridPoint::new(5, 5), GridPoint::new(5, 5), GridPoint::new(9, 9)];
    let g = make_edges_by_proximity(&pts, ProximityFactor { num: 13, den: 1 }).unwrap();
    assert!(g.edges().is_empty());
}

#[test]
fn proximity_on_one_node_gives_no_edges() {
    let g = make_edges_by_proximity(&vec![GridPoint::new(1, 1)], ProximityFactor { num: 2, den: 1 })
        .unwrap();
    assert_eq!(g.node_count(), 1);
    assert!(g.edges().is_empty());
}

#[test]
fn proximity_refuses_bad_parameters() {
    assert_eq!(
        make_edges_by_proximity(&vec![], ProximityFactor { num: 2, den: 1 }).err(),
        Some(GenerationError::NoNodes)
    );
    assert_eq!(
        make_edges_by_proximity(&square(), ProximityFactor { num: 2, den: 0 }).err(),
        Some(GenerationError::InvalidFactor)
    );
}
