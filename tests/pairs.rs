use graph_layout::pairs::{all_pairs, graph_from_candidates};

#[test]
fn all_pairs_of_four() {
    assert_eq!(
        all_pairs(4),
        vec![(0, 1), (0, 2), (1, 2), (0, 3), (1, 3), (2, 3)]
    );
}

#[test]
fn all_pairs_of_small_counts() {
    assert!(all_pairs(0).is_empty());
    assert!(all_pairs(1).is_empty());
    assert_eq!(all_pairs(2), vec![(0, 1)]);
    assert_eq!(all_pairs(20).len(), 190);
}

#[test]
fn candidates_keep_only_flagged_pairs() {
    let cands = vec![(0, 1), (1, 2), (2, 2), (2, 1), (0, 2)];
    let keep = vec![true, false, true, true, false];
    let g = graph_from_candidates(3, &cands, &keep);
    let mut e = g.edges();
    e.sort();
    assert_eq!(e, vec![(0, 1), (1, 2)]);
    assert!(!g.has_edge(2, 2));
}
