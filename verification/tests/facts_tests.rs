use cvs_bitboard_core::facts::piece_safety::piece_ref;
use cvs_bitboard_core::facts::position::{piece_ref_for_square, position_for_analysis_side, side, square_name};
use cvs_bitboard_core::facts::hazards::hazard_deltas;
use cvs_bitboard_core::facts::pawn_structure::pawn_structure_facts;
use cvs_bitboard_core::facts::promotion_pressure::{promotion_pressure_facts, PromotionConfidence};
use cvs_bitboard_core::facts::{FactCollection, FactValue, PieceType, Side};
use cvs_bitboard_core::search::stability::{stabilization_report, StabilizationStatus};
use cvs_bitboard_core::search::{SearchIteration, SearchResult, SearchResultSource, SearchTermination, Telemetry};
use cvs_bitboard_core::{square, Color, Move, MoveFlag, Piece, Position};

#[test]
fn names_and_refs() {
    assert_eq!(square_name(0), "a1");
    assert_eq!(square_name(63), "h8");
    assert_eq!(side(Color::Black), Side::Black);
    let r = piece_ref(Color::White, Piece::Rook, 0);
    assert_eq!(r.id, "white-rook-a1");
    assert_eq!(r.piece_type, PieceType::Rook);
    assert_eq!(r.square, "a1");
    let p = Position::startpos();
    let k = piece_ref_for_square(&p, square(4, 7)).unwrap();
    assert_eq!(k.id, "black-king-e8");
    assert!(piece_ref_for_square(&p, square(4, 4)).is_none());
    match FactCollection::<u32>::unavailable("why") {
        FactCollection::Unavailable { reason } => assert_eq!(reason, "why"),
        _ => panic!("wrong variant"),
    }
}

#[test]
fn analysis_side_probe() {
    let p = Position::from_fen("4k3/8/8/8/8/8/8/4K2r w - - 0 1").unwrap();
    // White is in check: the Black probe is refused.
    assert_eq!(position_for_analysis_side(&p, Color::Black).err(), Some("opposite_side_probe_while_in_check"));
    let same = position_for_analysis_side(&p, Color::White).unwrap();
    assert_eq!(same.stm, Color::White);
    let q = Position::from_fen("4k3/8/8/8/4P3/8/8/4K3 b - e3 0 1").unwrap();
    let probe = position_for_analysis_side(&q, Color::White).unwrap();
    assert_eq!(probe.stm, Color::White);
    assert_eq!(probe.ep, None);
}

fn iteration(score: i32, mv: u8) -> SearchIteration {
    SearchIteration {
        depth: 1,
        best_move: Some(Move { from: 12, to: mv, flag: MoveFlag::Quiet }),
        score_cp: score,
        nodes: 0,
        time_ms: 0,
        pv: Vec::new(),
    }
}

fn result(iterations: Vec<SearchIteration>, source: SearchResultSource) -> SearchResult {
    SearchResult {
        best_move: None,
        score_cp: 0,
        mate: None,
        pv: Vec::new(),
        depth: 0,
        telemetry: Telemetry::default(),
        iterations,
        root_order: Vec::new(),
        attempted_depth: 0,
        termination: SearchTermination::DepthLimit,
        result_source: source,
        partial_iteration: None,
    }
}

#[test]
fn stabilization_verdicts() {
    let settled = result(vec![iteration(20, 28), iteration(25, 28), iteration(22, 28)], SearchResultSource::CompletedIteration);
    let r = stabilization_report(&settled);
    assert_eq!(r.status, StabilizationStatus::StableAtBudget);
    assert_eq!(r.reasons, vec!["trajectory-settled"]);
    assert_eq!(r.score_range_cp, 5);
    assert_eq!(StabilizationStatus::StableAtBudget.as_str(), "stable-at-budget");
    let churn = result(vec![iteration(20, 28), iteration(90, 20), iteration(10, 28), iteration(80, 20)], SearchResultSource::CompletedIteration);
    let r = stabilization_report(&churn);
    assert_eq!(r.status, StabilizationStatus::UnstableTrajectory);
    assert_eq!(r.reasons, vec!["best-move-churn", "score-swing", "odd-even-oscillation"]);
    assert_eq!(r.best_move_changes, 3);
    assert!(r.odd_even_oscillation);
    let tb = result(Vec::new(), SearchResultSource::Tablebase);
    assert_eq!(stabilization_report(&tb).status, StabilizationStatus::ExactTablebase);
    let none = result(Vec::new(), SearchResultSource::CompletedIteration);
    assert_eq!(stabilization_report(&none).reasons, vec!["no-completed-iteration"]);
    let mate = result(vec![iteration(100, 28), iteration(999_990, 28)], SearchResultSource::CompletedIteration);
    let r = stabilization_report(&mate);
    assert!(r.mate_flip);
    assert_eq!(r.reasons[0], "mate-flip");
    assert_eq!(SearchTermination::NodeLimit.as_str(), "node-limit");
    assert_eq!(SearchResultSource::Book.as_str(), "book");
}

fn batteries(fen: &str) -> Vec<cvs_bitboard_core::facts::motifs::BatteryFact> {
    let p = Position::from_fen(fen).unwrap();
    match cvs_bitboard_core::facts::motifs::battery_opportunities(&p) {
        FactCollection::Computed { items } => items,
        _ => panic!("batteries are always computed"),
    }
}

#[test]
fn battery_two_rooks_on_a_file() {
    let facts = batteries("4k3/8/8/8/8/8/R7/R3K3 w - - 0 1");
    assert_eq!(facts.len(), 1);
    let f = &facts[0];
    assert_eq!(f.kind, "battery");
    assert_eq!(f.validator, "battery_validation");
    assert_eq!(f.subtype, "two_rooks_battery");
    assert_eq!(f.rear.id, "white-rook-a1");
    assert_eq!(f.front.id, "white-rook-a2");
    assert!(f.middle.is_none());
    assert!(f.ray.is_empty());
    assert_eq!(f.line, "file");
}

#[test]
fn battery_queen_and_bishop_both_ways_in_id_order() {
    let facts = batteries("4k3/8/8/8/8/2B5/1Q6/4K3 w - - 0 1");
    assert_eq!(facts.len(), 2);
    assert_eq!(facts[0].rear.id, "white-bishop-c3");
    assert_eq!(facts[0].front.id, "white-queen-b2");
    assert_eq!(facts[1].rear.id, "white-queen-b2");
    assert_eq!(facts[1].front.id, "white-bishop-c3");
    for f in &facts {
        assert_eq!(f.subtype, "queen_bishop_battery");
        assert_eq!(f.line, "diagonal");
    }
}

#[test]
fn battery_rank_pair_with_corridor() {
    let facts = batteries("4k3/8/8/8/8/8/8/R2Q2K1 w - - 0 1");
    assert_eq!(facts.len(), 1);
    // The queen in front projects past d1; the reverse pair points off the board.
    assert_eq!(facts[0].rear.id, "white-rook-a1");
    assert_eq!(facts[0].front.id, "white-queen-d1");
    assert_eq!(facts[0].subtype, "battery");
    assert_eq!(facts[0].line, "rank");
    assert_eq!(facts[0].ray, vec!["b1".to_string(), "c1".to_string()]);
}

#[test]
fn battery_alekhines_gun_replaces_its_pairs() {
    let facts = batteries("4k3/8/8/8/8/R7/R7/Q3K3 w - - 0 1");
    assert_eq!(facts.len(), 1);
    let g = &facts[0];
    assert_eq!(g.subtype, "alekhines_gun");
    assert_eq!(g.rear.id, "white-queen-a1");
    assert_eq!(g.front.id, "white-rook-a3");
    assert_eq!(g.middle.as_ref().unwrap().id, "white-rook-a2");
    assert_eq!(g.ray, vec!["a2".to_string()]);
    assert_eq!(g.line, "file");
}

#[test]
fn battery_into_own_pawn_is_dropped_unless_an_enemy_is_hit() {
    assert!(batteries("4k3/8/8/8/8/P7/R7/R3K3 w - - 0 1").is_empty());
    let hit = batteries("4k3/8/8/8/8/r7/R7/R3K3 w - - 0 1");
    assert_eq!(hit.len(), 1);
    assert_eq!(hit[0].rear.id, "white-rook-a1");
    // Muzzle at the board edge projects nothing.
    assert!(batteries("4k3/8/8/8/8/8/8/RR2K3 w - - 0 1").len() == 1);
}

#[test]
fn battery_for_other_side_refused_in_check() {
    let p = Position::from_fen("4k3/8/8/8/8/8/8/r3K3 w - - 0 1").unwrap();
    match cvs_bitboard_core::facts::motifs::battery_opportunities_for(&p, Color::Black) {
        FactCollection::Unavailable { reason } => assert_eq!(reason, "opposite_side_probe_while_in_check"),
        _ => panic!("expected unavailable"),
    }
    let q = Position::from_fen("4k3/8/8/8/8/8/r7/r3K3 b - - 0 1").unwrap();
    match cvs_bitboard_core::facts::motifs::battery_opportunities_for(&q, Color::Black) {
        FactCollection::Computed { items } => assert_eq!(items.len(), 1),
        _ => panic!("expected computed"),
    }
}

#[test]
fn king_safety_in_check_on_the_first_rank() {
    let p = Position::from_fen("4k3/8/8/8/8/8/8/4K2r w - - 0 1").unwrap();
    let facts = match cvs_bitboard_core::facts::piece_safety::king_safety_facts(&p) {
        FactCollection::Computed { items } => items,
        _ => panic!("king safety is always computed"),
    };
    assert_eq!(facts.len(), 2);
    let white = &facts[0];
    assert_eq!(white.side, Side::White);
    assert_eq!(white.king_square, "e1");
    assert!(white.in_check);
    assert_eq!(white.attackers.len(), 1);
    assert_eq!(white.attackers[0].id, "black-rook-h1");
    assert_eq!(white.pressured_squares, vec!["e1".to_string(), "f1".to_string()]);
    match &white.legal_escape_squares {
        FactCollection::Computed { items } => {
            assert_eq!(items, &vec!["d2".to_string(), "e2".to_string(), "f2".to_string()])
        }
        _ => panic!("the side to move always gets its escapes"),
    }
    let black = &facts[1];
    assert_eq!(black.side, Side::Black);
    assert!(!black.in_check);
    assert!(black.pressured_squares.is_empty());
    match &black.legal_escape_squares {
        FactCollection::Unavailable { reason } => assert_eq!(reason, "opposite_side_probe_while_in_check"),
        _ => panic!("the probe for Black is refused while White is in check"),
    }
}

#[test]
fn king_safety_at_the_start() {
    let p = Position::startpos();
    match cvs_bitboard_core::facts::piece_safety::king_safety_facts(&p) {
        FactCollection::Computed { items } => {
            for f in &items {
                assert!(!f.in_check);
                assert!(f.attackers.is_empty());
                assert!(f.pressured_squares.is_empty());
                match &f.legal_escape_squares {
                    FactCollection::Computed { items } => assert!(items.is_empty()),
                    _ => panic!("both probes are available"),
                }
            }
            assert_eq!(items[1].king_square, "e8");
        }
        _ => panic!("king safety is always computed"),
    }
}

#[test]
fn piece_facts_in_id_order_with_exchange_and_only_defender() {
    let p = Position::from_fen("4k3/8/8/8/8/2n5/3P4/4K3 w - - 0 1").unwrap();
    let facts = cvs_bitboard_core::facts::piece_safety::piece_facts(&p);
    let ids: Vec<&str> = facts.iter().map(|f| f.piece.id.as_str()).collect();
    assert_eq!(ids, vec!["black-king-e8", "black-knight-c3", "white-king-e1", "white-pawn-d2"]);
    let knight = &facts[1];
    assert_eq!(knight.attacker_count, 1);
    assert_eq!(knight.attackers[0].id, "white-pawn-d2");
    assert!(knight.attacked);
    assert!(knight.loose);
    match &knight.see {
        FactValue::Computed { value } => {
            assert!(value.losing);
            assert_eq!(value.best_capture_uci.as_deref(), Some("d2c3"));
            assert_eq!(value.score_cp, Some(320));
        }
        _ => panic!("pieces of the side not to move get an exchange report"),
    }
    let pawn = &facts[3];
    assert_eq!(pawn.defender_count, 1);
    assert_eq!(pawn.defenders[0].id, "white-king-e1");
    assert!(!pawn.loose);
    match &pawn.see {
        FactValue::Unavailable { reason } => assert_eq!(reason, "piece_not_capturable_by_side_to_move"),
        _ => panic!("the side to move's pieces are not captured by it"),
    }
    let king = &facts[2];
    assert!(king.loose);
    assert_eq!(king.only_defender_of.len(), 1);
    assert_eq!(king.only_defender_of[0].id, "white-pawn-d2");
    assert!(facts[0].only_defender_of.is_empty());
}

#[test]
fn promotion_pressure_of_passed_pawns() {
    let free = Position::from_fen("4k3/P7/8/8/8/8/8/4K3 w - - 0 1").unwrap();
    let facts = promotion_pressure_facts(&free);
    assert_eq!(facts.len(), 1);
    let f = &facts[0];
    assert_eq!(f.pawn_square, "a7");
    assert_eq!(f.color, Side::White);
    assert_eq!((f.file, f.rank, f.promotion_distance), (0, 6, 1));
    assert_eq!(f.promotion_square, "a8");
    assert_eq!(f.stop_square, "a8");
    assert!(f.push_square_empty && f.can_advance_now);
    assert!(f.committed_defenders.is_empty());
    assert!(f.must_address_now);
    assert_eq!(f.confidence, PromotionConfidence::Geometric);
    assert_eq!(f.schema_version, 1);

    let guarded = Position::from_fen("1k6/P7/8/8/8/8/7p/4K3 w - - 0 1").unwrap();
    let facts = promotion_pressure_facts(&guarded);
    assert_eq!(facts.len(), 2);
    let w = &facts[0];
    assert_eq!(w.pawn_attackers[0].id, "black-king-b8");
    assert_eq!(w.stop_square_controllers.len(), 1);
    assert_eq!(w.promotion_square_controllers.len(), 1);
    assert_eq!(w.committed_defender_count, 1);
    assert!(!w.must_address_now);
    let b = &facts[1];
    assert_eq!(b.pawn_square, "h2");
    assert_eq!(b.color, Side::Black);
    assert_eq!(b.promotion_square, "h1");
    assert_eq!(b.promotion_distance, 1);
    assert!(b.must_address_now);
}

#[test]
fn pawn_structure_doubled_isolated_passed_islands() {
    let p = Position::from_fen("4k3/1p6/8/8/8/P7/P1P4P/4K3 w - - 0 1").unwrap();
    let s = pawn_structure_facts(&p);
    assert_eq!(s.doubled.len(), 1);
    assert_eq!(s.doubled[0].id, "white-doubled-pawns-a-a2-a3");
    assert_eq!(s.doubled[0].file, "a");
    assert_eq!(s.doubled[0].squares, vec!["a2".to_string(), "a3".to_string()]);
    let isolated: Vec<&str> = s.isolated.iter().map(|r| r.id.as_str()).collect();
    assert_eq!(isolated, vec!["black-pawn-b7", "white-pawn-a2", "white-pawn-a3", "white-pawn-c2", "white-pawn-h2"]);
    let passed: Vec<&str> = s.passed.iter().map(|r| r.id.as_str()).collect();
    assert_eq!(passed, vec!["white-pawn-h2"]);
    let islands: Vec<&str> = s.islands.iter().map(|i| i.id.as_str()).collect();
    assert_eq!(islands, vec!["black-pawn-island-b", "white-pawn-island-a", "white-pawn-island-c", "white-pawn-island-h"]);
    assert_eq!(s.islands[1].squares, vec!["a2".to_string(), "a3".to_string()]);
    assert_eq!(s.islands[1].files, vec!["a".to_string()]);
    match &s.backward {
        FactCollection::Uncomputed { reason } => assert_eq!(reason, "not_in_milestone_1"),
        _ => panic!("backward pawns are not computed"),
    }
}

#[test]
fn pawn_islands_join_neighbouring_files() {
    let s = pawn_structure_facts(&Position::startpos());
    assert!(s.doubled.is_empty());
    assert!(s.isolated.is_empty());
    assert!(s.passed.is_empty());
    assert_eq!(s.islands.len(), 2);
    assert_eq!(s.islands[0].id, "black-pawn-island-abcdefgh");
    assert_eq!(s.islands[1].files.len(), 8);
    assert_eq!(s.islands[1].squares[0], "a2");
    assert_eq!(s.islands[1].squares[7], "h2");
}

#[test]
fn capture_opportunities_sorted_with_best_safe_capture() {
    let p = Position::from_fen("r3k3/8/8/8/8/8/5n2/R3K3 w - - 0 1").unwrap();
    let caps = match cvs_bitboard_core::facts::captures::capture_opportunities(&p) {
        FactCollection::Computed { items } => items,
        _ => panic!("captures are always computed"),
    };
    let moves: Vec<&str> = caps.iter().map(|c| c.move_uci.as_str()).collect();
    assert_eq!(moves, vec!["a1a8", "e1f2"]);
    let rook = &caps[0];
    assert_eq!(rook.attacker.id, "white-rook-a1");
    assert_eq!(rook.victim.id, "black-rook-a8");
    assert_eq!(rook.victim_square, "a8");
    assert_eq!(rook.see_cp, 500);
    assert!(rook.gives_check);
    assert!(rook.capturing_piece_survives);
    assert!(rook.highest_value_safe_capture);
    let king = &caps[1];
    assert_eq!(king.victim.id, "black-knight-f2");
    assert_eq!(king.see_cp, 320);
    assert!(!king.gives_check);
    assert!(!king.highest_value_safe_capture);
}

#[test]
fn capture_opportunities_en_passant_victim_behind_target() {
    let p = Position::from_fen("4k3/8/8/3pP3/8/8/8/4K3 w - d6 0 1").unwrap();
    let caps = match cvs_bitboard_core::facts::captures::capture_opportunities(&p) {
        FactCollection::Computed { items } => items,
        _ => panic!("captures are always computed"),
    };
    assert_eq!(caps.len(), 1);
    assert_eq!(caps[0].move_uci, "e5d6");
    assert_eq!(caps[0].victim_square, "d5");
    assert_eq!(caps[0].victim.id, "black-pawn-d5");
}

#[test]
fn mate_patterns_back_rank_and_smothered() {
    use_mates("6k1/5ppp/8/8/8/8/8/R5K1 w - - 0 1", "a1a8", "back_rank_mate", "white-rook-a8", "black-king-g8", &["f7", "g7", "h7", "a8", "g8"]);
    use_mates("6rk/6pp/8/6N1/8/8/8/6K1 w - - 0 1", "g5f7", "smothered_mate", "white-knight-f7", "black-king-h8", &["f7", "g7", "h7", "g8", "h8"]);
}

fn use_mates(fen: &str, uci: &str, kind: &str, mater: &str, king: &str, keys: &[&str]) {
    let p = Position::from_fen(fen).unwrap();
    let facts = match cvs_bitboard_core::facts::mate_patterns::mate_pattern_opportunities(&p) {
        FactCollection::Computed { items } => items,
        _ => panic!("mate patterns are always computed"),
    };
    assert_eq!(facts.len(), 1);
    let f = &facts[0];
    assert_eq!(f.move_uci, uci);
    assert_eq!(f.kind, kind);
    assert_eq!(f.validator, "mate_pattern_validation");
    assert_eq!(f.mating_piece.id, mater);
    assert_eq!(f.mated_king.id, king);
    let got: Vec<&str> = f.key_squares.iter().map(|s| s.as_str()).collect();
    assert_eq!(got, keys.to_vec());
    assert!(f.gives_check);
}

#[test]
fn mate_patterns_none_at_the_start() {
    match cvs_bitboard_core::facts::mate_patterns::mate_pattern_opportunities(&Position::startpos()) {
        FactCollection::Computed { items } => assert!(items.is_empty()),
        _ => panic!("mate patterns are always computed"),
    }
}

fn square_facts(fen: &str) -> Vec<cvs_bitboard_core::facts::SquareFact> {
    let p = Position::from_fen(fen).unwrap();
    match cvs_bitboard_core::facts::square_control::square_control_facts(&p) {
        FactCollection::Computed { items } => items,
        _ => panic!("square control is always computed"),
    }
}

fn mover_ids(c: &FactCollection<cvs_bitboard_core::facts::PieceRef>) -> Vec<String> {
    match c {
        FactCollection::Computed { items } => items.iter().map(|r| r.id.clone()).collect(),
        _ => panic!("movers expected"),
    }
}

#[test]
fn square_control_at_the_start() {
    let facts = square_facts("rnbqkbnr/pppppppp/8/8/8/8/PPPPPPPP/RNBQKBNR w KQkq - 0 1");
    assert_eq!(facts.len(), 64);
    let e3 = &facts[20];
    assert_eq!(e3.square, "e3");
    assert!(!e3.occupied);
    let att: Vec<&str> = e3.attacked_by_white.iter().map(|r| r.id.as_str()).collect();
    assert_eq!(att, vec!["white-pawn-d2", "white-pawn-f2"]);
    assert!(e3.controlled_by_white);
    assert!(!e3.controlled_by_black);
    assert_eq!(mover_ids(&e3.legal_movers_white), vec!["white-pawn-e2".to_string()]);
    let h3 = &facts[23];
    assert_eq!(mover_ids(&h3.legal_movers_white), vec!["white-knight-g1".to_string(), "white-pawn-h2".to_string()]);
    let e6 = &facts[44];
    assert_eq!(mover_ids(&e6.legal_movers_black), vec!["black-pawn-e7".to_string()]);
    assert!(facts[4].occupied);
}

#[test]
fn square_control_counts_each_move_and_refuses_probe_in_check() {
    let facts = square_facts("4k3/P7/8/8/8/8/8/4K2r w - - 0 1");
    let a8 = &facts[56];
    assert_eq!(mover_ids(&a8.legal_movers_white).len(), 0);
    match &a8.legal_movers_black {
        FactCollection::Unavailable { reason } => assert_eq!(reason, "opposite_side_probe_while_in_check"),
        _ => panic!("the probe is refused while White is in check"),
    }
    let free = square_facts("4k3/P7/8/8/8/8/8/4K3 w - - 0 1");
    assert_eq!(mover_ids(&free[56].legal_movers_white), vec!["white-pawn-a7".to_string(); 4]);
}

fn hazard(id: &str, mag: Option<i32>) -> cvs_bitboard_core::facts::hazards::HazardFact {
    cvs_bitboard_core::facts::hazards::HazardFact {
        id: id.to_string(),
        kind: "losing_material".to_string(),
        side: Side::White,
        squares: vec!["e4".to_string()],
        magnitude_cp: mag,
        move_uci: Some("d5e4".to_string()),
    }
}

#[test]
fn hazard_deltas_created_removed_worsened() {
    let before = FactCollection::Computed { items: vec![hazard("x", Some(10)), hazard("y", None)] };
    let after = FactCollection::Computed { items: vec![hazard("x", Some(20)), hazard("z", Some(5))] };
    let (created, removed, worsened) = hazard_deltas(&before, &after);
    let ids = |c: &FactCollection<cvs_bitboard_core::facts::hazards::HazardFact>| -> Vec<String> {
        match c {
            FactCollection::Computed { items } => items.iter().map(|h| h.id.clone()).collect(),
            _ => panic!("computed expected"),
        }
    };
    assert_eq!(ids(&created), vec!["z".to_string()]);
    assert_eq!(ids(&removed), vec!["y".to_string()]);
    assert_eq!(ids(&worsened), vec!["x".to_string()]);
    match &worsened {
        FactCollection::Computed { items } => {
            assert_eq!(items[0].magnitude_cp, Some(20));
            assert_eq!(items[0].squares, vec!["e4".to_string()]);
            assert_eq!(items[0].move_uci.as_deref(), Some("d5e4"));
        }
        _ => panic!("computed expected"),
    }
    let (a, _, _) = hazard_deltas(&FactCollection::unavailable("x"), &after);
    match a {
        FactCollection::Unavailable { reason } => assert_eq!(reason, "hazards_unavailable_for_delta"),
        _ => panic!("unavailable expected"),
    }
}

#[test]
fn position_facts_at_the_start() {
    let f = cvs_bitboard_core::facts::position::position_facts(&Position::startpos());
    assert_eq!(f.side_to_move, Side::White);
    assert_eq!(f.pieces.len(), 32);
    match &f.available_captures {
        FactCollection::Computed { items } => assert!(items.is_empty()),
        _ => panic!("captures are computed"),
    }
    match &f.opponent_available_captures {
        FactCollection::Computed { items } => assert!(items.is_empty()),
        _ => panic!("the opponent's captures are computed"),
    }
    match &f.available_pins {
        FactCollection::Uncomputed { reason } => assert_eq!(reason, "not_requested"),
        _ => panic!("pins are not asked for"),
    }
    match &f.hazards {
        FactCollection::Uncomputed { reason } => assert_eq!(reason, "motifs_not_requested"),
        _ => panic!("hazards are not asked for"),
    }
    match &f.square_facts {
        FactCollection::Computed { items } => assert_eq!(items.len(), 64),
        _ => panic!("square facts are computed"),
    }
}
