use polyglot_book_rs::types::Piece as Pg;
use cvs_bitboard_core::book::{book_promotion_kind, BookPiece};
use cvs_bitboard_core::book::{draw_book_move, next_seed, BookEntry};
use cvs_bitboard_core::fen::STARTPOS_FEN;
use cvs_bitboard_core::tablebase::{probe_inputs, root_move};
use cvs_bitboard_core::movegen::{
    generate_legal, generate_legal_list, generate_legal_noisy, generate_pseudo, generate_pseudo_noisy, gives_check,
    has_legal_move, in_check, MoveList,
};
use cvs_bitboard_core::perft::{perft, perft_divide};
use cvs_bitboard_core::{square, Color, Move, MoveFlag, Piece, Position};

const KIWIPETE: &str = "r3k2r/p1ppqpb1/bn2pnp1/3PN3/1p2P3/2N2Q1p/PPPBBPPP/R3K2R w KQkq - 0 1";

#[test]
fn startpos_matches_its_fen() {
    let a = Position::startpos();
    let b = Position::from_fen(STARTPOS_FEN).unwrap();
    assert_eq!(a.pieces, b.pieces);
    assert_eq!(a.occ, b.occ);
    assert_eq!(a.all, b.all);
    assert_eq!(a.stm, b.stm);
    assert_eq!(a.castling, b.castling);
    assert_eq!(a.ep, b.ep);
    assert_eq!(a.halfmove, b.halfmove);
    assert_eq!(a.fullmove, b.fullmove);
    assert_eq!(a.hash, b.hash);
}

#[test]
fn fen_errors() {
    assert_eq!(Position::from_fen("8/8/8 w -").err().unwrap(), "FEN needs ≥4 fields: 8/8/8 w -");
    assert_eq!(Position::from_fen("8/8/8/8/8/8/8/7x w - -").err().unwrap(), "bad piece 'x'");
    assert_eq!(Position::from_fen("9p/8/8/8/8/8/8/8 w - -").err().unwrap(), "FEN out of range at 'p'");
    assert_eq!(Position::from_fen("8/8/8/8/8/8/8/8 x - -").err().unwrap(), "bad stm 'x'");
    assert_eq!(Position::from_fen("8/8/8/8/8/8/8/8 w KX -").err().unwrap(), "bad castling 'X'");
    assert_eq!(Position::from_fen("8/8/8/8/8/8/8/8 w - z9").err().unwrap(), "bad ep 'z9'");
}

#[test]
fn fen_fields_and_clocks() {
    let p = Position::from_fen("4k3/8/8/8/4P3/8/8/4K3 b - e3 12 34").unwrap();
    assert_eq!(p.stm, Color::Black);
    assert_eq!(p.ep, Some(square(4, 2)));
    assert_eq!(p.halfmove, 12);
    assert_eq!(p.fullmove, 34);
    assert_eq!(p.piece_at(square(4, 3)), Some((Color::White, Piece::Pawn)));
    // Unreadable clocks fall back to 0 and 1; extra whitespace is ignored.
    let q = Position::from_fen("  4k3/8/8/8/8/8/8/4K3   w  -  -  x  -5 ").unwrap();
    assert_eq!(q.halfmove, 0);
    assert_eq!(q.fullmove, 1);
    let r = Position::from_fen("4k3/8/8/8/8/8/8/4K3 w - - +7 70000").unwrap();
    assert_eq!(r.halfmove, 7);
    assert_eq!(r.fullmove, 1);
}

#[test]
fn perft_startpos() {
    let mut p = Position::startpos();
    assert_eq!(perft(&mut p, 0), 1);
    assert_eq!(perft(&mut p, 1), 20);
    assert_eq!(perft(&mut p, 2), 400);
    assert_eq!(perft(&mut p, 3), 8902);
}

#[test]
fn perft_kiwipete() {
    let mut p = Position::from_fen(KIWIPETE).unwrap();
    assert_eq!(perft(&mut p, 1), 48);
    assert_eq!(perft(&mut p, 2), 2039);
}

#[test]
fn perft_endgame_with_en_passant_and_pins() {
    let mut p = Position::from_fen("8/2p5/3p4/KP5r/1R3p1k/8/4P1P1/8 w - - 0 1").unwrap();
    assert_eq!(perft(&mut p, 1), 14);
    assert_eq!(perft(&mut p, 2), 191);
    assert_eq!(perft(&mut p, 3), 2812);
}

#[test]
fn divide_sums_to_perft() {
    let mut p = Position::from_fen(KIWIPETE).unwrap();
    let table = perft_divide(&mut p, 2);
    assert_eq!(table.len(), 48);
    assert_eq!(table.iter().map(|e| e.1).sum::<u64>(), 2039);
    let ones = perft_divide(&mut p, 1);
    assert!(ones.iter().all(|e| e.1 == 1));
}

#[test]
fn make_unmake_restores_everything() {
    let mut p = Position::from_fen(KIWIPETE).unwrap();
    let before_hash = p.hash;
    let pieces = p.pieces;
    for mv in generate_legal(&mut p) {
        p.make(mv);
        assert_ne!(p.stm, Color::White);
        p.unmake();
        assert_eq!(p.hash, before_hash);
        assert_eq!(p.pieces, pieces);
        assert_eq!(p.castling, 15);
    }
}

#[test]
fn legal_move_lists() {
    let mut p = Position::startpos();
    let legal = generate_legal(&mut p);
    assert_eq!(legal.len(), 20);
    let list: MoveList = generate_legal_list(&mut p);
    assert_eq!(list.len(), 20);
    assert_eq!(list.into_vec(), legal);
    assert!(generate_legal_noisy(&mut p).is_empty());
    assert!(has_legal_move(&mut p));
    let mut pseudo = Vec::new();
    generate_pseudo(&p, &mut pseudo);
    assert_eq!(pseudo.len(), 20);
    let mut noisy = Vec::new();
    generate_pseudo_noisy(&p, &mut noisy);
    assert!(noisy.is_empty());
}

#[test]
fn checks_and_mates() {
    // Fool's mate: White is checkmated.
    let mut mated = Position::from_fen("rnb1kbnr/pppp1ppp/8/4p3/6Pq/5P2/PPPPP2P/RNBQKBNR w KQkq - 1 3").unwrap();
    assert!(in_check(&mated));
    assert!(!has_legal_move(&mut mated));
    assert!(generate_legal(&mut mated).is_empty());
    // Stalemate: no check, no move.
    let mut stale = Position::from_fen("7k/5Q2/6K1/8/8/8/8/8 b - - 0 1").unwrap();
    assert!(!in_check(&stale));
    assert!(!has_legal_move(&mut stale));
    // Qd1-h5 gives check to the king on e8 along the diagonal once f7 is gone.
    let mut p = Position::from_fen("rnbqkbnr/ppppp1pp/8/5p2/4P3/8/PPPP1PPP/RNBQKBNR w KQkq - 0 2").unwrap();
    let qh5 = Move { from: square(3, 0), to: square(7, 4), flag: MoveFlag::Quiet };
    assert!(gives_check(&mut p, qh5));
    let nf3 = Move { from: square(6, 0), to: square(5, 2), flag: MoveFlag::Quiet };
    assert!(!gives_check(&mut p, nf3));
}

#[test]
fn repetition_is_detected() {
    let mut p = Position::startpos();
    let nf3 = Move { from: square(6, 0), to: square(5, 2), flag: MoveFlag::Quiet };
    let nf6 = Move { from: square(6, 7), to: square(5, 5), flag: MoveFlag::Quiet };
    let ng1 = Move { from: square(5, 2), to: square(6, 0), flag: MoveFlag::Quiet };
    let ng8 = Move { from: square(5, 5), to: square(6, 7), flag: MoveFlag::Quiet };
    assert!(!p.is_repetition());
    p.make(nf3);
    p.make(nf6);
    p.make(ng1);
    assert!(!p.is_repetition());
    p.make(ng8);
    assert!(p.is_repetition());
}

#[test]
fn uci_and_squares() {
    let m = Move::new(square(4, 6), square(4, 7), MoveFlag::PromoQ);
    assert_eq!(m.to_uci(), "e7e8q");
    assert_eq!(Move::new(12, 28, MoveFlag::DoublePush).to_uci(), "e2e4");
    assert_eq!(Color::White.flip(), Color::Black);
    assert_eq!(Piece::Queen.index(), 4);
    assert!(MoveFlag::EnPassant.is_capture());
    assert_eq!(MoveFlag::PromoNCap.promo_piece(), Some(Piece::Knight));
}

#[test]
fn fen_text_round_trips() {
    let start = Position::startpos();
    assert_eq!(start.to_fen(), "rnbqkbnr/pppppppp/8/8/8/8/PPPPPPPP/RNBQKBNR w KQkq - 0 1");
    for fen in [
        "rnbqkbnr/pppppppp/8/8/4P3/8/PPPP1PPP/RNBQKBNR b KQkq e3 0 1",
        "r3k2r/p1ppqpb1/bn2pnp1/3PN3/1p2P3/2N2Q1p/PPPBBPPP/R3K2R w Kq - 12 40",
        "8/8/8/8/8/2k5/8/KQ6 w - - 0 1",
    ] {
        assert_eq!(Position::from_fen(fen).unwrap().to_fen(), fen);
    }
}

#[test]
fn book_draw_by_weight() {
    assert_eq!(next_seed(0), 1442695040888963407);
    assert_eq!(next_seed(1), 6364136223846793005u64.wrapping_add(1442695040888963407));
    let entry = |from: u8, to: u8, weight: u16| BookEntry { from, to, promotion: None, weight };
    let entries = vec![entry(12, 28, 1), entry(11, 27, 3), entry(0, 56, 100)];
    let mut p = Position::startpos();
    let (m, seed) = draw_book_move(&mut p, &entries, 0);
    assert_eq!(m.unwrap().to_uci(), "d2d4");
    assert_eq!(seed, 1442695040888963407);
    let none = vec![entry(0, 56, 100)];
    let (m, seed) = draw_book_move(&mut p, &none, 7);
    assert!(m.is_none());
    assert_eq!(seed, 7);
}

#[test]
fn tablebase_inputs_and_root_move() {
    let mut p = Position::from_fen("8/8/8/8/8/2k5/8/KQ6 w - - 0 1").unwrap();
    let i = probe_inputs(&p).unwrap();
    assert_eq!(i.kings, (1u64 << 0) | (1u64 << 18));
    assert_eq!(i.queens, 1u64 << 1);
    assert!(i.turn);
    assert_eq!(i.ep, 0);
    assert!(probe_inputs(&Position::startpos()).is_none());
    let m = root_move(&mut p, 1, 9, None).unwrap();
    assert_eq!(m.to_uci(), "b1b2");
    assert!(root_move(&mut p, 1, 2, Some(Piece::Queen)).is_none());
}

#[test]
fn book_promotions_ignore_colour() {
    assert_eq!(book_promotion_kind(BookPiece::WQueen), Some(Piece::Queen));
    assert_eq!(book_promotion_kind(BookPiece::BQueen), Some(Piece::Queen));
    assert_eq!(book_promotion_kind(BookPiece::BKnight), Some(Piece::Knight));
    assert_eq!(book_promotion_kind(BookPiece::WRook), Some(Piece::Rook));
    assert_eq!(book_promotion_kind(BookPiece::BBishop), Some(Piece::Bishop));
    assert_eq!(book_promotion_kind(BookPiece::WPawn), None);
    assert_eq!(book_promotion_kind(BookPiece::BKing), None);
    assert_eq!(book_promotion_kind(BookPiece::Empty), None);
}

#[test]
fn book_piece_numbers_follow_the_book_piece_list() {
    let pairs = [
        (Pg::WPawn, BookPiece::WPawn),
        (Pg::WKnight, BookPiece::WKnight),
        (Pg::WBishop, BookPiece::WBishop),
        (Pg::WRook, BookPiece::WRook),
        (Pg::WQueen, BookPiece::WQueen),
        (Pg::WKing, BookPiece::WKing),
        (Pg::BPawn, BookPiece::BPawn),
        (Pg::BKnight, BookPiece::BKnight),
        (Pg::BBishop, BookPiece::BBishop),
        (Pg::BRook, BookPiece::BRook),
        (Pg::BQueen, BookPiece::BQueen),
        (Pg::BKing, BookPiece::BKing),
        (Pg::Empty, BookPiece::Empty),
    ];
    for (pg, ours) in pairs {
        assert_eq!(cvs_bitboard_core::book::book_piece(pg as u8), ours);
    }
}
