use cvs_bitboard_core::search::{danger_level, mate_probe_adjust, mate_store_adjust, MATE_SCORE, MATE_THRESHOLD};
use cvs_bitboard_core::Position;

#[test]
fn non_mate_scores_unchanged() {
    for &s in &[0, 50, -50, MATE_THRESHOLD - 1, -(MATE_THRESHOLD - 1)] {
        assert_eq!(mate_store_adjust(s, 7), s, "store no-op for non-mate {s}");
        assert_eq!(mate_probe_adjust(s, 7), s, "probe no-op for non-mate {s}");
    }
}

#[test]
fn store_probe_roundtrip_same_ply() {
    for &s in &[MATE_SCORE - 8, -(MATE_SCORE - 8), MATE_SCORE - 1, -(MATE_SCORE - 1)] {
        for &ply in &[0, 3, 12, 40] {
            assert_eq!(mate_probe_adjust(mate_store_adjust(s, ply), ply), s);
        }
    }
}

#[test]
fn mate_distance_preserved_across_plies() {
    // "Mate in 3 from the node", found at ply 5: root-relative = MATE_SCORE-(5+3).
    let (node_distance, store_ply) = (3, 5);
    let root_rel_at_store = MATE_SCORE - (store_ply + node_distance);
    let stored = mate_store_adjust(root_rel_at_store, store_ply);
    assert_eq!(stored, MATE_SCORE - node_distance, "node-intrinsic = mate in 3");
    // Probe the same entry at a different ply (2): root-relative re-derives correctly.
    let probe_ply = 2;
    let root_rel_at_probe = mate_probe_adjust(stored, probe_ply);
    assert_eq!(root_rel_at_probe, MATE_SCORE - (probe_ply + node_distance));
    // The node mate distance is preserved regardless of the probing ply.
    assert_eq!((MATE_SCORE - root_rel_at_probe) - probe_ply, node_distance);
}

#[test]
fn loss_side_symmetric() {
    // Being mated in 3, found at ply 5.
    let (node_distance, store_ply) = (3, 5);
    let root_rel = -(MATE_SCORE - (store_ply + node_distance));
    let stored = mate_store_adjust(root_rel, store_ply);
    assert_eq!(stored, -(MATE_SCORE - node_distance));
    let recovered = mate_probe_adjust(stored, 2);
    assert_eq!(recovered, -(MATE_SCORE - (2 + node_distance)));
}

#[test]
fn threshold_boundary_is_not_a_mate() {
    assert_eq!(mate_store_adjust(MATE_THRESHOLD, 9), MATE_THRESHOLD);
    assert_eq!(mate_store_adjust(MATE_THRESHOLD + 1, 9), MATE_THRESHOLD + 10);
    assert_eq!(mate_probe_adjust(-(MATE_THRESHOLD + 1), 9), -(MATE_THRESHOLD + 1) + 9);
}

#[test]
fn danger_levels() {
    // No enemy queen: never in danger.
    let quiet = Position::startpos();
    assert_eq!(danger_level(&quiet), 0);
    // White king on e4 in the middle of Black's queen and rook fire.
    let exposed = Position::from_fen("4k3/8/8/3q4/4K3/8/8/7r w - - 0 1").unwrap();
    assert_eq!(danger_level(&exposed), 2);
    // King at home, queen far away: no pressure on the zone.
    let calm = Position::from_fen("q3k3/8/8/8/8/8/8/4K3 w - - 0 1").unwrap();
    assert_eq!(danger_level(&calm), 0);
}
