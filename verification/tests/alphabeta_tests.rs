use cvs_bitboard_core::eval::material_balance_cp;
use cvs_bitboard_core::search::alphabeta::{negamax, quiesce, INF};
use cvs_bitboard_core::search::tables::SearchTables;
use cvs_bitboard_core::search::deepening::{mate_in_moves, search_step, SearchAction, SearchEvent, SearchState};
use cvs_bitboard_core::search::ordering::{order_moves, sort_by_key_desc, TT_MOVE_KEY};
use cvs_bitboard_core::search::types::SearchTermination;
use cvs_bitboard_core::search::{MATE_SCORE, MATE_THRESHOLD};
use cvs_bitboard_core::{Color, Move, MoveFlag, Position};

fn material_stm(p: &Position) -> i32 {
    let m = material_balance_cp(p);
    if p.stm == Color::White {
        m
    } else {
        -m
    }
}

fn pos(fen: &str) -> Position {
    Position::from_fen(fen).unwrap()
}

fn quiet(from: u8, to: u8) -> Move {
    Move { from, to, flag: MoveFlag::Quiet }
}

#[test]
fn negamax_finds_back_rank_mate_in_one() {
    let mut p = pos("6k1/5ppp/8/8/8/8/8/R5K1 w - - 0 1");
    let before = p.hash;
    let s = negamax(&mut p, 1, -INF, INF, 0, &mut SearchTables::new(), &material_stm);
    assert_eq!(s, MATE_SCORE - 1);
    assert_eq!(p.hash, before);
    assert_eq!(mate_in_moves(s), Some(1));
}

#[test]
fn negamax_checkmated_root_scores_mate() {
    let mut p = pos("R5k1/5ppp/8/8/8/8/8/6K1 b - - 0 1");
    assert_eq!(negamax(&mut p, 3, -INF, INF, 0, &mut SearchTables::new(), &material_stm), -MATE_SCORE);
    assert_eq!(mate_in_moves(-MATE_SCORE), Some(0));
}

#[test]
fn negamax_stalemate_scores_zero() {
    let mut p = pos("7k/5Q2/6K1/8/8/8/8/8 b - - 0 1");
    assert_eq!(negamax(&mut p, 2, -INF, INF, 0, &mut SearchTables::new(), &material_stm), 0);
}

#[test]
fn negamax_fifty_move_rule_draw() {
    let mut p = pos("4k3/8/8/3q4/8/8/3R4/4K3 w - - 100 80");
    assert_eq!(negamax(&mut p, 2, -INF, INF, 0, &mut SearchTables::new(), &material_stm), 0);
}

#[test]
fn quiesce_wins_a_hanging_queen() {
    let mut p = pos("4k3/8/8/3q4/8/8/3R4/4K3 w - - 0 1");
    let after = pos("4k3/8/8/3R4/8/8/8/4K3 b - - 0 1");
    let expected = material_balance_cp(&after);
    assert!(expected > 0);
    assert_eq!(quiesce(&mut p, -INF, INF, 0, &material_stm), expected);
    // Inside a window that the value exceeds, the result is a bound at beta or above.
    assert!(quiesce(&mut p, -INF, expected - 1, 0, &material_stm) >= expected - 1);
}

#[test]
fn quiesce_stand_pat_is_fail_hard() {
    let mut p = Position::startpos();
    let s = quiesce(&mut p, -100, 100, 0, &|_p: &Position| 300);
    assert_eq!(s, 100);
}

#[test]
fn quiesce_checkmate_scores_mate_at_ply() {
    let mut p = pos("R5k1/5ppp/8/8/8/8/8/6K1 b - - 0 1");
    assert_eq!(quiesce(&mut p, -INF, INF, 3, &material_stm), -(MATE_SCORE - 3));
}

#[test]
fn negamax_window_bounds_agree_with_full_window() {
    let mut p = pos("4k3/8/8/3q4/8/8/3R4/4K3 w - - 0 1");
    let v = negamax(&mut p, 2, -INF, INF, 0, &mut SearchTables::new(), &material_stm);
    assert!(negamax(&mut p, 2, v, v + 10, 0, &mut SearchTables::new(), &material_stm) <= v);
    assert!(negamax(&mut p, 2, v - 10, v, 0, &mut SearchTables::new(), &material_stm) >= v);
    assert_eq!(negamax(&mut p, 2, v - 10, v + 10, 0, &mut SearchTables::new(), &material_stm), v);
}

#[test]
fn order_moves_puts_tt_move_first_and_sorts_stably() {
    let (a, b, c, d) = (quiet(8, 16), quiet(9, 17), quiet(10, 18), quiet(11, 19));
    let mut moves = vec![a, b, c, d];
    let keys = vec![5, 10, 5, 1];
    let ordered = order_moves(&mut moves, &keys, Some(d));
    assert_eq!(moves, vec![d, b, a, c]);
    assert_eq!(ordered, vec![TT_MOVE_KEY, 10, 5, 5]);
}

#[test]
fn sort_by_key_desc_keeps_equal_keys_in_order() {
    let (a, b, c) = (quiet(1, 2), quiet(3, 4), quiet(5, 6));
    let mut moves = vec![a, b, c];
    let mut keys = vec![-3, 7, -3];
    sort_by_key_desc(&mut moves, &mut keys);
    assert_eq!(moves, vec![b, a, c]);
    assert_eq!(keys, vec![7, -3, -3]);
}

fn search_of(a: &SearchAction) -> Option<(u32, i32, i32)> {
    match a {
        SearchAction::Search { depth, alpha, beta } => Some((*depth, *alpha, *beta)),
        SearchAction::Finish => None,
    }
}

#[test]
fn search_step_deepens_with_aspiration_and_researches_on_fail() {
    let st = SearchState::new(1, 3, true, None, 0);
    let (st, a) = search_step(st, SearchEvent::Start);
    assert_eq!(search_of(&a), Some((1, -INF, INF)));
    let (st, a) = search_step(st, SearchEvent::Iteration { score: 30, best_move: Some(quiet(12, 28)), elapsed_ms: 1 });
    assert_eq!(search_of(&a), Some((2, -INF, INF)));
    let (st, a) = search_step(st, SearchEvent::Iteration { score: 40, best_move: Some(quiet(12, 28)), elapsed_ms: 2 });
    assert_eq!(search_of(&a), Some((3, -10, 90)));
    let (st, a) = search_step(st, SearchEvent::Iteration { score: 95, best_move: Some(quiet(11, 27)), elapsed_ms: 3 });
    assert_eq!(search_of(&a), Some((3, -INF, INF)));
    assert_eq!(st.completed_depth, 2);
    let (st, a) = search_step(st, SearchEvent::Iteration { score: 120, best_move: Some(quiet(11, 27)), elapsed_ms: 4 });
    assert!(search_of(&a).is_none());
    assert_eq!(st.termination, SearchTermination::DepthLimit);
    assert_eq!(st.completed_depth, 3);
    assert_eq!(st.score_cp, 120);
    assert_eq!(st.best_move, Some(quiet(11, 27)));
}

#[test]
fn search_step_stops_on_proven_mate_in_full_moves() {
    let st = SearchState::new(1, 10, false, None, 0);
    let (st, _) = search_step(st, SearchEvent::Start);
    let (st, a) = search_step(st, SearchEvent::Iteration { score: MATE_SCORE - 3, best_move: Some(quiet(0, 56)), elapsed_ms: 5 });
    assert!(search_of(&a).is_none());
    assert_eq!(st.termination, SearchTermination::ProvenMate);
    assert_eq!(st.mate, Some(2));
}

#[test]
fn search_step_stopped_keeps_last_result() {
    let st = SearchState::new(1, 10, false, None, 17);
    let (st, _) = search_step(st, SearchEvent::Start);
    let (st, _) = search_step(st, SearchEvent::Iteration { score: 25, best_move: Some(quiet(6, 21)), elapsed_ms: 5 });
    let (st, a) = search_step(st, SearchEvent::Stopped);
    assert!(search_of(&a).is_none());
    assert_eq!(st.termination, SearchTermination::HardTime);
    assert_eq!(st.score_cp, 25);
    assert_eq!(st.completed_depth, 1);
}

#[test]
fn search_step_soft_time_ends_at_iteration_boundary() {
    let st = SearchState::new(1, 10, false, Some(100), 0);
    let (st, _) = search_step(st, SearchEvent::Start);
    let (st, a) = search_step(st, SearchEvent::Iteration { score: 10, best_move: Some(quiet(6, 21)), elapsed_ms: 50 });
    assert_eq!(search_of(&a), Some((2, -INF, INF)));
    let (st, a) = search_step(st, SearchEvent::Iteration { score: 12, best_move: Some(quiet(6, 21)), elapsed_ms: 100 });
    assert!(search_of(&a).is_none());
    assert_eq!(st.termination, SearchTermination::SoftTime);
}

#[test]
fn mate_in_moves_counts_full_moves() {
    assert_eq!(mate_in_moves(MATE_SCORE - 1), Some(1));
    assert_eq!(mate_in_moves(MATE_SCORE - 5), Some(3));
    assert_eq!(mate_in_moves(-(MATE_SCORE - 2)), Some(-1));
    assert_eq!(mate_in_moves(MATE_THRESHOLD), None);
    assert_eq!(mate_in_moves(0), None);
}

use cvs_bitboard_core::movegen::{gives_check, generate_legal_list, generate_legal_noisy_list, has_legal_move, in_check};

const LAW_FENS: [&str; 5] = [
    "rnbqkbnr/pppppppp/8/8/8/8/PPPPPPPP/RNBQKBNR w KQkq - 0 1",
    "6k1/5ppp/8/8/8/8/8/R5K1 w - - 0 1",
    "R5k1/5ppp/8/8/8/8/8/6K1 b - - 0 1",
    "7k/5Q2/6K1/8/8/8/8/8 b - - 0 1",
    "r3k2r/p1ppqpb1/bn2pnp1/3PN3/1p2P3/2N2Q1p/PPPBBPPP/R3K2R w KQkq - 0 1",
];

#[test]
fn has_legal_move_matches_legal_list() {
    for fen in LAW_FENS {
        let mut p = pos(fen);
        let listed = !generate_legal_list(&mut p).is_empty();
        assert_eq!(has_legal_move(&mut p), listed, "{fen}");
    }
}

#[test]
fn noisy_list_is_the_legal_captures_and_promotions() {
    for fen in LAW_FENS {
        let mut p = pos(fen);
        let all = generate_legal_list(&mut p).into_vec();
        let noisy = generate_legal_noisy_list(&mut p).into_vec();
        let expected: Vec<Move> = all.iter().copied().filter(|m| m.flag.is_capture() || m.flag.promo_piece().is_some()).collect();
        assert_eq!(noisy.len(), expected.len(), "{fen}");
        for m in &expected {
            assert!(noisy.contains(m), "{fen}");
        }
    }
}

#[test]
fn gives_check_matches_in_check_after_make() {
    for fen in LAW_FENS {
        let mut p = pos(fen);
        let all = generate_legal_list(&mut p).into_vec();
        for m in all {
            let predicted = gives_check(&mut p, m);
            let mut q = p.clone();
            q.make(m);
            assert_eq!(predicted, in_check(&q), "{fen} {:?}", m);
        }
    }
}

use cvs_bitboard_core::search::alphabeta::root_search;

#[test]
fn root_search_returns_the_mating_move() {
    let mut p = pos("6k1/5ppp/8/8/8/8/8/R5K1 w - - 0 1");
    let (score, best) = root_search(&mut p, 1, -INF, INF, None, &mut SearchTables::new(), &material_stm);
    assert_eq!(score, MATE_SCORE - 1);
    let m = best.unwrap();
    assert_eq!((m.from, m.to), (0, 56));
}

#[test]
fn root_search_without_moves_has_no_move() {
    let mut p = pos("7k/5Q2/6K1/8/8/8/8/8 b - - 0 1");
    assert_eq!(root_search(&mut p, 2, -INF, INF, None, &mut SearchTables::new(), &material_stm), (0, None));
    let mut q = pos("R5k1/5ppp/8/8/8/8/8/6K1 b - - 0 1");
    assert_eq!(root_search(&mut q, 2, -INF, INF, None, &mut SearchTables::new(), &material_stm), (-MATE_SCORE, None));
}

#[test]
fn make_keeps_the_hash_equal_to_a_fresh_hash() {
    for fen in LAW_FENS {
        let mut p = pos(fen);
        let all = generate_legal_list(&mut p).into_vec();
        for m in all {
            let mut q = p.clone();
            q.make(m);
            let fresh = Position::from_fen(&q.to_fen()).unwrap();
            assert_eq!(q.hash, fresh.hash, "{fen} {:?}", m);
        }
    }
}

#[test]
fn make_hash_after_en_passant_castling_and_promotion() {
    for fen in [
        "rnbqkbnr/ppp1p1pp/8/3pPp2/8/8/PPPP1PPP/RNBQKBNR w KQkq f6 0 3",
        "r3k2r/8/8/8/8/8/8/R3K2R b KQkq - 0 1",
        "1r2k3/P7/8/8/8/8/8/4K3 w - - 0 1",
    ] {
        let mut p = pos(fen);
        let all = generate_legal_list(&mut p).into_vec();
        assert!(!all.is_empty());
        for m in all {
            let mut q = p.clone();
            q.make(m);
            let fresh = Position::from_fen(&q.to_fen()).unwrap();
            assert_eq!(q.hash, fresh.hash, "{fen} {:?}", m);
        }
    }
}

use cvs_bitboard_core::perft::{is_ready, tree_ready};

#[test]
fn tree_ready_accepts_ordinary_positions() {
    for fen in LAW_FENS {
        let mut p = pos(fen);
        assert!(is_ready(&p), "{fen}");
        assert!(tree_ready(&mut p, 2), "{fen}");
    }
}

#[test]
fn is_ready_refuses_a_pawn_on_its_last_rank() {
    let p = pos("4k2P/8/8/8/8/8/8/4K3 w - - 0 1");
    assert!(!is_ready(&p));
    let mut q = pos("4k3/8/8/8/8/8/8/4K3 w - - 0 1");
    assert!(tree_ready(&mut q, 3));
}

#[test]
fn tree_ready_sees_a_last_rank_pawn_one_ply_down() {
    // White to move is fine, but Black's pawn already stands on its last rank,
    // so Black cannot move from the positions one ply below.
    let mut p = pos("4k3/8/8/8/8/8/8/3pK3 w - - 0 1");
    assert!(is_ready(&p));
    assert!(!tree_ready(&mut p, 2));
}

#[test]
fn root_search_restricted_to_one_move() {
    let mut p = pos("6k1/5ppp/8/8/8/8/8/R5K1 w - - 0 1");
    let king_step = Move { from: 6, to: 7, flag: MoveFlag::Quiet };
    let (score, best) = root_search(&mut p, 1, -INF, INF, Some(king_step), &mut SearchTables::new(), &material_stm);
    assert_eq!(best, Some(king_step));
    assert!(score < MATE_THRESHOLD);
    // A scope move that is not legal leaves nothing to search.
    let bogus = Move { from: 0, to: 63, flag: MoveFlag::Quiet };
    assert_eq!(root_search(&mut p, 1, -INF, INF, Some(bogus), &mut SearchTables::new(), &material_stm), (0, None));
}

use cvs_bitboard_core::search::ordering::{capture_order, order_key};

#[test]
fn order_key_tiers() {
    let p = pos("4k3/P7/8/3p4/4P3/8/8/R3K3 w - - 0 1");
    let pxp = Move { from: 28, to: 35, flag: MoveFlag::Capture };
    let promo = Move { from: 48, to: 56, flag: MoveFlag::PromoQ };
    let quiet_a2 = Move { from: 0, to: 8, flag: MoveFlag::Quiet };
    let killer = Move { from: 0, to: 1, flag: MoveFlag::Quiet };
    let killers = [Some(killer), None];
    assert_eq!(capture_order(&p, pxp, 0), 100 * 16 - 100);
    assert_eq!(order_key(&p, pxp, None, killers, 0, 0, 0), 800_000 + 1500);
    assert_eq!(order_key(&p, pxp, None, killers, 32, 0, 0), 800_000 + 1532);
    assert_eq!(order_key(&p, promo, None, killers, 0, 0, 0), 900_000 - 100);
    assert_eq!(order_key(&p, killer, None, killers, 0, 7, 0), 700_007);
    assert_eq!(order_key(&p, quiet_a2, None, killers, 0, 7, 42), 42);
    assert_eq!(order_key(&p, quiet_a2, Some(quiet_a2), killers, 0, 7, 42), TT_MOVE_KEY);
    let q = pos("4k3/8/2p5/3p4/8/8/8/3QK3 w - - 0 1");
    let qxp = Move { from: 3, to: 35, flag: MoveFlag::Capture };
    assert_eq!(order_key(&q, qxp, None, [None, None], 0, 0, 0), -100_000 + 1600 - 900);
}

#[test]
fn history_gravity_update_and_killers() {
    let mut t = SearchTables::new();
    let m = quiet(12, 28);
    let n = quiet(6, 21);
    t.history_update(0, m, 1500);
    assert_eq!(t.history_of(0, m), 1500);
    t.history_update(0, m, 1500);
    assert_eq!(t.history_of(0, m), 1500 + 1500 - 1500 * 1500 / 8192);
    t.history_update(1, n, -100);
    t.history_update(1, n, 300);
    assert_eq!(t.history_of(1, n), -100 + 300 + (100 * 300) / 8192);
    let mut u = SearchTables::new();
    u.record_quiet_cutoff(0, m, 3, 2, &vec![n, m]);
    assert_eq!(u.killers_at(2), [Some(m), None]);
    assert_eq!(u.history_of(0, m), 450);
    assert_eq!(u.history_of(0, n), -900);
    u.record_quiet_cutoff(0, n, 20, 2, &vec![n]);
    assert_eq!(u.killers_at(2), [Some(n), Some(m)]);
    assert_eq!(u.history_of(0, n), -900 + 1500 + (900 * 1500) / 8192);
    u.record_quiet_cutoff(0, n, 1, 2, &vec![]);
    assert_eq!(u.killers_at(2), [Some(n), Some(m)]);
    assert_eq!(u.killers_at(500), [None, None]);
}

#[test]
fn negamax_teaches_the_tables_and_keeps_its_value() {
    let mut p = pos("r3k2r/p1ppqpb1/bn2pnp1/3PN3/1p2P3/2N2Q1p/PPPBBPPP/R3K2R w KQkq - 0 1");
    let mut t = SearchTables::new();
    let v1 = negamax(&mut p, 2, -INF, INF, 0, &mut t, &material_stm);
    let v2 = negamax(&mut p, 2, -INF, INF, 0, &mut t, &material_stm);
    assert_eq!(v1, v2);
    let v3 = negamax(&mut p, 2, -INF, INF, 0, &mut SearchTables::new(), &material_stm);
    assert_eq!(v1, v3);
    let mut s = Position::startpos();
    let mut ts = SearchTables::new();
    let a = negamax(&mut s, 3, -INF, INF, 0, &mut ts, &material_stm);
    let b = negamax(&mut s, 3, -INF, INF, 0, &mut ts, &material_stm);
    assert_eq!(a, b);
}
