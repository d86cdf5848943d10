use cvs_bitboard_core::eval::pst::{pst_eg, pst_mg};
use cvs_bitboard_core::eval::residual_hybrid::{
    handcrafted_delta_white, refuse_steer_only_for_promotion, residual_hybrid_eval, ProfileKind, ResidualHybridConfig,
};
use cvs_bitboard_core::eval::{insufficient_material, material_balance_cp, non_king_material_cp, phase_units};
use cvs_bitboard_core::see::{mvv_lva, see};
use cvs_bitboard_core::{square, Color, Piece, Position};

#[test]
fn material_and_phase() {
    let p = Position::startpos();
    assert_eq!(phase_units(&p), 24);
    assert_eq!(material_balance_cp(&p), 0);
    assert_eq!(non_king_material_cp(&p), 2 * (800 + 640 + 660 + 1000 + 900));
    let q = Position::from_fen("4k3/8/8/8/8/8/8/3QK3 w - - 0 1").unwrap();
    assert_eq!(phase_units(&q), 4);
    assert_eq!(material_balance_cp(&q), 900);
    // Extra queens saturate the phase at 24.
    let many = Position::from_fen("qqqqk3/8/8/8/8/8/8/QQQQK3 w - - 0 1").unwrap();
    assert_eq!(phase_units(&many), 24);
}

#[test]
fn insufficient_material_cases() {
    let kk = Position::from_fen("4k3/8/8/8/8/8/8/4K3 w - - 0 1").unwrap();
    assert!(insufficient_material(&kk));
    let kbk = Position::from_fen("4k3/8/8/8/8/8/8/3BK3 w - - 0 1").unwrap();
    assert!(insufficient_material(&kbk));
    let knk = Position::from_fen("4k3/8/8/8/8/8/8/3NK3 w - - 0 1").unwrap();
    assert!(insufficient_material(&knk));
    // Bishops on the same square color (c1 and f8 are both dark).
    let same = Position::from_fen("4kb2/8/8/8/8/8/8/2B1K3 w - - 0 1").unwrap();
    assert!(insufficient_material(&same));
    // Bishops on opposite colors (c8 is light).
    let opposite = Position::from_fen("2b1k3/8/8/8/8/8/8/2B1K3 w - - 0 1").unwrap();
    assert!(!insufficient_material(&opposite));
    let krk = Position::from_fen("4k3/8/8/8/8/8/8/3RK3 w - - 0 1").unwrap();
    assert!(!insufficient_material(&krk));
    let kbbk_same = Position::from_fen("4k3/8/8/8/8/8/1B6/B3K3 w - - 0 1").unwrap();
    assert!(insufficient_material(&kbbk_same));
}

#[test]
fn piece_square_tables() {
    // White pawn on e4 (visual row 4): 20; Black pawn on e5 mirrors it.
    assert_eq!(pst_mg(Piece::Pawn, Color::White, square(4, 3)), 20);
    assert_eq!(pst_mg(Piece::Pawn, Color::Black, square(4, 4)), 20);
    assert_eq!(pst_mg(Piece::Knight, Color::White, square(0, 0)), -50);
    assert_eq!(pst_mg(Piece::King, Color::White, square(6, 0)), 30);
    assert_eq!(pst_eg(Piece::King, Color::White, square(6, 0)), -30);
    assert_eq!(pst_eg(Piece::Queen, Color::White, square(3, 0)), pst_mg(Piece::Queen, Color::White, square(3, 0)));
}

#[test]
fn static_exchange() {
    let free = Position::from_fen("4k3/8/8/3p4/4P3/8/8/4K3 w - - 0 1").unwrap();
    assert_eq!(see(&free, square(4, 3), square(3, 4)), 100);
    let defended = Position::from_fen("4k3/8/2p5/3p4/4P3/8/8/4K3 w - - 0 1").unwrap();
    assert_eq!(see(&defended, square(4, 3), square(3, 4)), 0);
    let bad = Position::from_fen("4k3/8/2p5/3p4/8/8/3Q4/4K3 w - - 0 1").unwrap();
    assert_eq!(see(&bad, square(3, 1), square(3, 4)), -800);
    // Not the mover's piece: 0.
    assert_eq!(see(&bad, square(3, 4), square(3, 1)), 0);
    assert_eq!(mvv_lva(Piece::Queen, Piece::Pawn), 900 * 16 - 100);
}

#[test]
fn residual_hybrid_zero_path_and_guard() {
    let p = Position::from_fen("4k3/8/8/8/8/8/8/2BBK3 w - - 0 1").unwrap();
    let zero = ResidualHybridConfig::zeroed("champion");
    assert!(zero.is_zeroed());
    let r = residual_hybrid_eval(37, &p, &zero);
    assert_eq!(r.score_cp, 37);
    assert!(!r.telemetry.features_extracted);
    assert_eq!(handcrafted_delta_white(&p, &[40]), 40);
    assert_eq!(handcrafted_delta_white(&p, &[]), 0);
    let on = ResidualHybridConfig { lambda_h: 128, handcrafted_weights: vec![40], ..zero.clone() };
    let r2 = residual_hybrid_eval(37, &p, &on);
    assert_eq!(r2.score_cp, 37 + 20);
    assert!(r2.telemetry.features_extracted);
    assert_eq!(r2.telemetry.handcrafted_delta_cp, 20);
    assert!(refuse_steer_only_for_promotion(&zero).is_ok());
    let steer = ResidualHybridConfig { kind: ProfileKind::SteerOnly, ..zero };
    assert_eq!(
        refuse_steer_only_for_promotion(&steer).unwrap_err(),
        "steer-only profile (baseline champion) is diversity-only and refused by promotion/packaging"
    );
}
