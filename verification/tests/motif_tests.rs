use cvs_bitboard_core::facts::forks::{motif_opportunities, motif_opportunities_for};
use cvs_bitboard_core::facts::pins::pin_opportunities;
use cvs_bitboard_core::facts::skewers::{skewer_opportunities, skewer_opportunities_for};
use cvs_bitboard_core::facts::FactCollection;
use cvs_bitboard_core::{Color, Position};

fn items<T>(c: FactCollection<T>) -> Vec<T> {
    match c {
        FactCollection::Computed { items } => items,
        _ => panic!("expected a computed collection"),
    }
}

#[test]
fn knight_fork_of_king_and_rook() {
    let p = Position::from_fen("r3k3/8/8/1N6/8/8/8/4K3 w - - 0 1").unwrap();
    let forks = items(motif_opportunities(&p));
    assert_eq!(forks.len(), 1);
    let f = &forks[0];
    assert_eq!(f.kind, "fork");
    assert_eq!(f.validator, "fork_validation");
    assert_eq!(f.move_uci, "b5c7");
    assert_eq!(f.forking_piece.id, "white-knight-c7");
    let ids: Vec<&str> = f.targets.iter().map(|t| t.id.as_str()).collect();
    assert_eq!(ids, vec!["black-king-e8", "black-rook-a8"]);
    assert!(f.gives_check);
    assert!(f.king_target);
    assert_eq!(f.material_gain, 500);
}

#[test]
fn knight_fork_of_queen_and_rook_wins_the_lesser() {
    let p = Position::from_fen("8/8/1q3r2/8/8/4N3/8/K6k w - - 0 1").unwrap();
    let forks = items(motif_opportunities(&p));
    assert_eq!(forks.len(), 1);
    let f = &forks[0];
    assert_eq!(f.move_uci, "e3d5");
    let ids: Vec<&str> = f.targets.iter().map(|t| t.id.as_str()).collect();
    assert_eq!(ids, vec!["black-queen-b6", "black-rook-f6"]);
    assert!(!f.gives_check);
    assert!(!f.king_target);
    assert_eq!(f.material_gain, 500);
}

#[test]
fn no_forks_at_the_start_for_either_side() {
    let p = Position::startpos();
    assert!(items(motif_opportunities(&p)).is_empty());
    assert!(items(motif_opportunities_for(&p, Color::Black)).is_empty());
}

#[test]
fn rook_pins_knight_to_king() {
    let p = Position::from_fen("4k3/8/8/4n3/8/8/R7/7K w - - 0 1").unwrap();
    let pins = items(pin_opportunities(&p));
    assert_eq!(pins.len(), 1);
    let f = &pins[0];
    assert_eq!(f.kind, "absolute");
    assert_eq!(f.validator, "pin_validation");
    assert_eq!(f.move_uci, "a2e2");
    assert_eq!(f.pinner.id, "white-rook-e2");
    assert_eq!(f.pinned.id, "black-knight-e5");
    assert_eq!(f.anchor.id, "black-king-e8");
    assert_eq!(f.ray, vec!["e3", "e4", "e5", "e6", "e7"]);
    assert!(!f.gives_check);
    assert!(f.pinned_immobile);
}

#[test]
fn rook_pins_knight_to_queen() {
    let p = Position::from_fen("4k3/4q3/8/4n3/8/8/R7/7K w - - 0 1").unwrap();
    let pins = items(pin_opportunities(&p));
    assert_eq!(pins.len(), 1);
    let f = &pins[0];
    assert_eq!(f.kind, "relative");
    assert_eq!(f.move_uci, "a2e2");
    assert_eq!(f.pinned.id, "black-knight-e5");
    assert_eq!(f.anchor.id, "black-queen-e7");
    assert_eq!(f.ray, vec!["e3", "e4", "e5", "e6"]);
    assert!(!f.pinned_immobile);
}

#[test]
fn bishop_skewers_king_and_rook() {
    let p = Position::from_fen("8/5r2/8/3k4/8/8/8/3B3K w - - 0 1").unwrap();
    let skewers = items(skewer_opportunities(&p));
    assert_eq!(skewers.len(), 1);
    let s = &skewers[0];
    assert_eq!(s.kind, "skewer");
    assert_eq!(s.validator, "skewer_validation");
    assert_eq!(s.move_uci, "d1b3");
    assert_eq!(s.skewerer.id, "white-bishop-b3");
    assert_eq!(s.front.id, "black-king-d5");
    assert_eq!(s.back.id, "black-rook-f7");
    assert_eq!(s.ray, vec!["c4", "d5", "e6"]);
    assert!(s.gives_check);
    assert_eq!(s.material_gain, 500);
}

#[test]
fn skewers_for_the_other_side_refused_in_check() {
    let p = Position::from_fen("4k3/8/8/8/8/8/8/r3K3 w - - 0 1").unwrap();
    match skewer_opportunities_for(&p, Color::Black) {
        FactCollection::Unavailable { reason } => assert_eq!(reason, "opposite_side_probe_while_in_check"),
        _ => panic!("expected the probe to be refused"),
    }
}

#[test]
fn knight_unveils_rook_check_and_double_checks() {
    let p = Position::from_fen("4k3/8/8/8/4N3/8/8/4R2K w - - 0 1").unwrap();
    let found = items(cvs_bitboard_core::facts::discovery::discovery_opportunities(&p));
    let ucis: Vec<&str> = found.iter().map(|d| d.move_uci.as_str()).collect();
    assert_eq!(ucis, vec!["e4c3", "e4c5", "e4d2", "e4d6", "e4f2", "e4f6", "e4g3", "e4g5"]);
    let kinds: Vec<&str> = found.iter().map(|d| d.kind.as_str()).collect();
    assert_eq!(
        kinds,
        vec![
            "discovered_check",
            "discovered_check",
            "discovered_check",
            "double_check",
            "discovered_check",
            "double_check",
            "discovered_check",
            "discovered_check"
        ]
    );
    let d = &found[3];
    assert_eq!(d.validator, "discovery_validation");
    assert_eq!(d.mover.id, "white-knight-d6");
    assert_eq!(d.slider.id, "white-rook-e1");
    assert_eq!(d.target.id, "black-king-e8");
    assert_eq!(d.ray, vec!["e2", "e3", "e4", "e5", "e6", "e7"]);
    assert!(d.gives_check && d.discovered_check && d.double_check);
    assert!(!d.mover_threatens);
    assert_eq!(d.material_gain, 0);
}

#[test]
fn knight_unveils_bishop_on_undefended_rook() {
    let p = Position::from_fen("k6r/8/8/8/8/2N5/8/B3K3 w - - 0 1").unwrap();
    let found = items(cvs_bitboard_core::facts::discovery::discovery_opportunities(&p));
    assert_eq!(found.len(), 8);
    let d = &found[0];
    assert_eq!(d.move_uci, "c3a2");
    assert_eq!(d.kind, "discovered_attack");
    assert_eq!(d.slider.id, "white-bishop-a1");
    assert_eq!(d.target.id, "black-rook-h8");
    assert_eq!(d.ray, vec!["b2", "c3", "d4", "e5", "f6", "g7"]);
    assert!(!d.gives_check && !d.discovered_check && !d.double_check);
    assert_eq!(d.material_gain, 500);
}

#[test]
fn rook_xrays_knight_backed_by_rook_with_queen_behind() {
    let p = Position::from_fen("1k2r3/8/8/4n3/8/8/R7/4Q2K w - - 0 1").unwrap();
    let found = items(cvs_bitboard_core::facts::xrays::xray_attack_opportunities(&p));
    let x = found.iter().find(|x| x.move_uci == "a2e2").expect("the rook move x-rays");
    assert_eq!(x.kind, "xray_attack");
    assert_eq!(x.validator, "xray_attack_validation");
    assert_eq!(x.xrayer.id, "white-rook-e2");
    assert_eq!(x.front.id, "black-knight-e5");
    assert_eq!(x.back.id, "black-rook-e8");
    assert_eq!(x.ray, vec!["e3", "e4", "e5", "e6", "e7"]);
    assert!(!x.gives_check);
    assert_eq!(x.material_gain, 320);
    assert!(found.iter().all(|x| x.move_uci != "e1e4"));
}

#[test]
fn bishop_takes_the_knight_guarding_the_rook() {
    let p = Position::from_fen("6k1/8/5n2/3r4/8/2B5/8/3R3K w - - 0 1").unwrap();
    let found = items(cvs_bitboard_core::facts::remove_guard::remove_guard_opportunities(&p));
    assert_eq!(found.len(), 1);
    let f = &found[0];
    assert_eq!(f.kind, "capture_the_defender");
    assert_eq!(f.validator, "remove_guard_validation");
    assert_eq!(f.move_uci, "c3f6");
    assert_eq!(f.mover.id, "white-bishop-f6");
    assert_eq!(f.captured_defender.id, "black-knight-f6");
    assert_eq!(f.target.id, "black-rook-d5");
    assert!(!f.gives_check);
    assert_eq!(f.material_gain, 500);
}

#[test]
fn bishop_trapped_on_a2() {
    let p = Position::from_fen("7k/8/8/8/8/1P6/b1P5/R3K3 w - - 0 1").unwrap();
    let found = items(cvs_bitboard_core::facts::trapped::trapped_pieces(&p));
    assert_eq!(found.len(), 1);
    let t = &found[0];
    assert_eq!(t.kind, "trapped_piece");
    assert_eq!(t.validator, "trapped_piece_validation");
    assert_eq!(t.piece.id, "black-bishop-a2");
    let ids: Vec<&str> = t.attackers.iter().map(|a| a.id.as_str()).collect();
    assert_eq!(ids, vec!["white-rook-a1"]);
    assert_eq!(t.escape_squares_tried, vec!["b1", "b3"]);
    assert_eq!(t.material_gain, 330);
}

#[test]
fn nothing_trapped_at_the_start() {
    assert!(items(cvs_bitboard_core::facts::trapped::trapped_pieces(&Position::startpos())).is_empty());
}

#[test]
fn knight_takes_a_pawn_guarded_rook_for_the_exchange() {
    let p = Position::from_fen("7k/8/4p3/3r4/5N2/8/8/6K1 w - - 0 1").unwrap();
    let found = items(cvs_bitboard_core::facts::exchange::win_exchange_opportunities(&p));
    assert_eq!(found.len(), 1);
    let f = &found[0];
    assert_eq!(f.kind, "win_the_exchange");
    assert_eq!(f.validator, "win_exchange_validation");
    assert_eq!(f.move_uci, "f4d5");
    assert_eq!(f.mover.id, "white-knight-d5");
    assert_eq!(f.victim.id, "black-rook-d5");
    assert!(!f.gives_check);
    assert_eq!(f.material_gain, 180);
}

#[test]
fn knight_takes_the_guard_and_attacks_a_rook() {
    let p = Position::from_fen("7k/2r5/4p3/3n2N1/8/8/8/3R2K1 w - - 0 1").unwrap();
    let found = items(cvs_bitboard_core::facts::double_attack::double_attack_opportunities(&p));
    let d = found.iter().find(|d| d.move_uci == "g5e6").expect("the knight capture double-attacks");
    assert_eq!(d.kind, "double_attack");
    assert_eq!(d.validator, "double_attack_validation");
    assert_eq!(d.mover.id, "white-knight-e6");
    assert_eq!(d.second_attacker.id, "white-rook-d1");
    assert_eq!(d.target_a.id, "black-rook-c7");
    assert_eq!(d.target_b.id, "black-knight-d5");
    assert!(!d.gives_check);
    assert_eq!(d.material_gain, 320);
}
