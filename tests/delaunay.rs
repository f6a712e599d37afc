use graph_layout::delaunay::{delaunay_graph, find_node, make_graph_delaunay};
use graph_layout::generators::{GenerationError, Probability};
use graph_layout::geometry::GridPoint;
use rand::rngs::StdRng;
use rand::SeedableRng;
use spade::{DelaunayTriangulation, Point2, Triangulation};

fn segments(pts: &[GridPoint]) -> Vec<(GridPoint, GridPoint)> {
    let mut t: DelaunayTriangulation<Point2<f64>> = DelaunayTriangulation::new();
    for p in pts {
        t.insert(Point2::new(p.x as f64, p.y as f64)).unwrap();
    }
    t.undirected_edges()
        .map(|e| {
            let [a, b] = e.positions();
            (
                GridPoint::new(a.x as i32, a.y as i32),
                GridPoint::new(b.x as i32, b.y as i32),
            )
        })
        .collect()
}

#[test]
fn collinear_nodes_give_a_chain() {
    let pts = vec![
        GridPoint::new(20, 0),
        GridPoint::new(0, 0),
        GridPoint::new(40, 0),
        GridPoint::new(10, 0),
        GridPoint::new(30, 0),
    ];
    let segs = segments(&pts);
    let mut rng = StdRng::seed_from_u64(8);
    let g = make_graph_delaunay(&pts, &segs, Probability { num: 1, den: 1 }, &mut rng).unwrap();
    let mut e = g.edges();
    e.sort();
    assert_eq!(e, vec![(0, 3), (0, 4), (1, 3), (2, 4)]);
}

#[test]
fn square_triangulation_has_five_edges() {
    let pts = vec![
        GridPoint::new(0, 0),
        GridPoint::new(10, 0),
        GridPoint::new(0, 10),
        GridPoint::new(10, 10),
    ];
    let segs = segments(&pts);
    let mut rng = StdRng::seed_from_u64(9);
    let g = make_graph_delaunay(&pts, &segs, Probability { num: 1, den: 1 }, &mut rng).unwrap();
    let e = g.edges();
    assert_eq!(e.len(), 5);
    for side in [(0, 1), (0, 2), (1, 3), (2, 3)] {
        assert!(e.contains(&side));
    }
}

#[test]
fn delaunay_edges_are_triangulation_edges() {
    let pts = vec![
        GridPoint::new(-40, 3),
        GridPoint::new(17, 90),
        GridPoint::new(55, -20),
        GridPoint::new(0, 0),
        GridPoint::new(-12, -70),
        GridPoint::new(80, 60),
    ];
    let segs = segments(&pts);
    let mut rng = StdRng::seed_from_u64(10);
    let full = make_graph_delaunay(&pts, &segs, Probability { num: 1, den: 1 }, &mut rng).unwrap();
    assert_eq!(full.edges().len(), segs.len());
    let some = make_graph_delaunay(&pts, &segs, Probability { num: 1, den: 2 }, &mut rng).unwrap();
    for (a, b) in some.edges() {
        assert!(full.has_edge(a, b));
    }
}

#[test]
fn two_nodes_give_one_edge() {
    let pts = vec![GridPoint::new(0, 0), GridPoint::new(3, 3)];
    let segs = segments(&pts);
    let mut rng = StdRng::seed_from_u64(11);
    let g = make_graph_delaunay(&pts, &segs, Probability { num: 1, den: 1 }, &mut rng).unwrap();
    assert_eq!(g.edges(), vec![(0, 1)]);
}

#[test]
fn one_node_gives_no_edges() {
    let pts = vec![GridPoint::new(4, 4)];
    let segs = segments(&pts);
    assert!(segs.is_empty());
    let mut rng = StdRng::seed_from_u64(12);
    let g = make_graph_delaunay(&pts, &segs, Probability { num: 1, den: 1 }, &mut rng).unwrap();
    assert!(g.edges().is_empty());
}

#[test]
fn delaunay_refuses_bad_parameters() {
    let mut rng = StdRng::seed_from_u64(13);
    assert_eq!(
        make_graph_delaunay(&vec![], &vec![], Probability { num: 1, den: 1 }, &mut rng).err(),
        Some(GenerationError::NoNodes)
    );
    let pts = vec![GridPoint::new(0, 0)];
    assert_eq!(
        make_graph_delaunay(&pts, &vec![], Probability { num: 2, den: 1 }, &mut rng).err(),
        Some(GenerationError::InvalidProbability)
    );
}

#[test]
fn find_node_takes_the_last_node_at_a_position() {
    let pts = vec![GridPoint::new(1, 1), GridPoint::new(2, 2), GridPoint::new(1, 1)];
    assert_eq!(find_node(&pts, GridPoint::new(1, 1)), Some(2));
    assert_eq!(find_node(&pts, GridPoint::new(2, 2)), Some(1));
    assert_eq!(find_node(&pts, GridPoint::new(3, 3)), None);
}

#[test]
fn segments_off_the_nodes_are_ignored() {
    let pts = vec![GridPoint::new(0, 0), GridPoint::new(5, 0), GridPoint::new(0, 5)];
    let segs = vec![
        (GridPoint::new(0, 0), GridPoint::new(5, 0)),
        (GridPoint::new(0, 0), GridPoint::new(9, 9)),
        (GridPoint::new(0, 5), GridPoint::new(0, 5)),
        (GridPoint::new(0, 5), GridPoint::new(5, 0)),
    ];
    let g = delaunay_graph(&pts, &segs, &vec![true, true, true, false]);
    assert_eq!(g.edges(), vec![(0, 1)]);
}
