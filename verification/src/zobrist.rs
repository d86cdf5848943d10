//! The Zobrist hash of a position computed from scratch, and the law that
//! making a legal move updates the hash to the from-scratch hash of the new
//! position.
use vstd::prelude::*;
use crate::bits::{bit, del, put};
use crate::position::{castling_key, ep_key_spec, piece_key, piece_on, stm_key, Position};
use crate::movegen::{legal_move, lemma_pseudo_consistent, made_pieces, movable};
use crate::perft::after;
use crate::position::{behind, captured_piece, castle_rook_from, castle_rook_to, make_castling, make_ep, make_hash, make_piece_hash, make_pieces, move_consistent, moving_piece};
use crate::{piece_of_index, Move, MoveFlag};
use crate::Color;

verus! {

/// The key square `s` of bitboard `x` contributes for (color `c`, piece `p`).
pub open spec fn sq_term(x: u64, c: int, p: int, s: int) -> u64 {
    if bit(x, s as u64) { piece_key(c, p, s) } else { 0 }
}

/// The keys of the occupied squares below `n` of the bitboard `x` of (`c`, `p`).
pub open spec fn board_keys(x: u64, c: int, p: int, n: int) -> u64
    decreases n,
{
    if n <= 0 { 0 } else { board_keys(x, c, p, n - 1) ^ sq_term(x, c, p, n - 1) }
}

/// The keys of the first `k` of the twelve piece bitboards (white pawns first,
/// black king last).
pub open spec fn pieces_keys(pieces: [[u64; 6]; 2], k: int) -> u64
    decreases k,
{
    if k <= 0 {
        0
    } else {
        pieces_keys(pieces, k - 1) ^ board_keys(pieces[(k - 1) / 6][(k - 1) % 6], (k - 1) / 6, (k - 1) % 6, 64)
    }
}

/// The Zobrist hash of `pos` from scratch: the keys of all pieces on their
/// squares, the side key when Black is to move, the castling-rights key and
/// the en-passant file key.
pub open spec fn zobrist(pos: Position) -> u64 {
    let h = pieces_keys(pos.pieces, 12);
    let h1 = if pos.stm == Color::Black { h ^ stm_key() } else { h };
    (h1 ^ castling_key(pos.castling as int)) ^ ep_key_spec(pos.ep)
}

/// `a` with square `s` of the bitboard of (`c`, `p`) flipped.
pub open spec fn toggled(a: [[u64; 6]; 2], c: int, p: int, s: u64) -> [[u64; 6]; 2] {
    let f = |c2: int, p2: int| if c2 == c && p2 == p { a[c2][p2] ^ (1u64 << s) } else { a[c2][p2] };
    [[f(0, 0), f(0, 1), f(0, 2), f(0, 3), f(0, 4), f(0, 5)], [f(1, 0), f(1, 1), f(1, 2), f(1, 3), f(1, 4), f(1, 5)]]
}

proof fn lemma_xor_regroup(a: u64, b: u64, c: u64, d: u64)
    ensures
        (a ^ b) ^ (c ^ d) == (a ^ c) ^ (b ^ d),
{
    assert((a ^ b) ^ (c ^ d) == (a ^ c) ^ (b ^ d)) by (bit_vector);
}

proof fn lemma_xor_unit(x: u64)
    ensures
        x ^ 0u64 == x,
        0u64 ^ x == x,
        x ^ x == 0u64,
{
    assert(x ^ 0u64 == x && 0u64 ^ x == x && x ^ x == 0u64) by (bit_vector);
}

proof fn lemma_bit_flip(x: u64, s: u64, t: u64)
    requires
        s < 64,
        t < 64,
    ensures
        bit(x ^ (1u64 << s), t) == (bit(x, t) != (s == t)),
{
    assert(bit(x ^ (1u64 << s), t) == (bit(x, t) != (s == t))) by (bit_vector)
        requires
            s < 64,
            t < 64,
    ;
}

/// Flipping one square of a bitboard adds (or removes) that square's key.
proof fn lemma_board_keys_flip(x: u64, c: int, p: int, s: u64, n: int)
    requires
        s < 64,
        0 <= n <= 64,
    ensures
        board_keys(x ^ (1u64 << s), c, p, n) == board_keys(x, c, p, n) ^ (if (s as int) < n { piece_key(c, p, s as int) } else { 0 }),
    decreases n,
{
    let y = x ^ (1u64 << s);
    let k = piece_key(c, p, s as int);
    if n == 0 {
        lemma_xor_unit(0);
    } else {
        lemma_board_keys_flip(x, c, p, s, n - 1);
        let t = n - 1;
        lemma_bit_flip(x, s, t as u64);
        let d: u64 = if (s as int) < n - 1 { k } else { 0 };
        let e: u64 = if s as int == t { k } else { 0 };
        let tx = sq_term(x, c, p, t);
        let ty = sq_term(y, c, p, t);
        lemma_xor_unit(k);
        lemma_xor_unit(tx);
        assert(ty == tx ^ e);
        lemma_xor_regroup(board_keys(x, c, p, n - 1), d, tx, e);
        lemma_xor_unit(d);
        assert(d ^ e == (if (s as int) < n { k } else { 0u64 }));
    }
}

/// Flipping one square of one piece bitboard adds (or removes) its key.
proof fn lemma_pieces_keys_flip(a: [[u64; 6]; 2], c: int, p: int, s: u64, k: int)
    requires
        0 <= c < 2,
        0 <= p < 6,
        s < 64,
        0 <= k <= 12,
    ensures
        pieces_keys(toggled(a, c, p, s), k) == pieces_keys(a, k) ^ (if c * 6 + p < k { piece_key(c, p, s as int) } else { 0 }),
    decreases k,
{
    let b = toggled(a, c, p, s);
    let key = piece_key(c, p, s as int);
    if k == 0 {
        lemma_xor_unit(0);
    } else {
        lemma_pieces_keys_flip(a, c, p, s, k - 1);
        let cc = (k - 1) / 6;
        let pp = (k - 1) % 6;
        assert(0 <= cc < 2 && 0 <= pp < 6 && cc * 6 + pp == k - 1);
        let xa = board_keys(a[cc][pp], cc, pp, 64);
        let xb = board_keys(b[cc][pp], cc, pp, 64);
        let e: u64 = if cc == c && pp == p { key } else { 0 };
        if cc == c && pp == p {
            assert(b[cc][pp] == a[cc][pp] ^ (1u64 << s));
            lemma_board_keys_flip(a[cc][pp], cc, pp, s, 64);
        } else {
            assert(b[cc][pp] == a[cc][pp]);
            lemma_xor_unit(xa);
        }
        assert(xb == xa ^ e);
        let d: u64 = if c * 6 + p < k - 1 { key } else { 0 };
        lemma_xor_regroup(pieces_keys(a, k - 1), d, xa, e);
        lemma_xor_unit(key);
        lemma_xor_unit(0);
        assert((cc == c && pp == p) == (c * 6 + p == k - 1));
        assert(d ^ e == (if c * 6 + p < k { key } else { 0u64 }));
    }
}

/// The whole-board keys after flipping one square.
pub proof fn lemma_toggled_keys(a: [[u64; 6]; 2], c: int, p: int, s: u64)
    requires
        0 <= c < 2,
        0 <= p < 6,
        s < 64,
    ensures
        pieces_keys(toggled(a, c, p, s), 12) == pieces_keys(a, 12) ^ piece_key(c, p, s as int),
{
    lemma_pieces_keys_flip(a, c, p, s, 12);
}

/// Moving a piece off an occupied square onto an empty one flips both squares.
proof fn lemma_move_bits(x: u64, f: u64, t: u64)
    requires
        f < 64,
        t < 64,
    ensures
        bit(x, f) ==> del(x, f) == x ^ (1u64 << f),
        !bit(x, t) ==> put(x, t) == x ^ (1u64 << t),
{
    assert(bit(x, f) ==> del(x, f) == x ^ (1u64 << f)) by (bit_vector)
        requires
            f < 64,
    ;
    assert(!bit(x, t) ==> put(x, t) == x ^ (1u64 << t)) by (bit_vector)
        requires
            t < 64,
    ;
}

} // verus!

verus! {

proof fn lemma_xor_assoc(a: u64, b: u64, c: u64)
    ensures
        (a ^ b) ^ c == a ^ (b ^ c),
{
    assert((a ^ b) ^ c == a ^ (b ^ c)) by (bit_vector);
}

/// The side, castling and en-passant terms of a made move's hash.
proof fn lemma_hash_algebra(pk: u64, k: u64, sk: u64, c0: u64, c1: u64, e0: u64, e1: u64, black: bool)
    ensures
        ((((((if black { pk ^ sk } else { pk }) ^ c0) ^ e0) ^ k) ^ sk) ^ (c0 ^ c1)) ^ (e0 ^ e1) == ((if !black {
            (pk ^ k) ^ sk
        } else {
            pk ^ k
        }) ^ c1) ^ e1,
{
    assert(((((((if black { pk ^ sk } else { pk }) ^ c0) ^ e0) ^ k) ^ sk) ^ (c0 ^ c1)) ^ (e0 ^ e1) == ((if !black {
        (pk ^ k) ^ sk
    } else {
        pk ^ k
    }) ^ c1) ^ e1) by (bit_vector);
}

/// Facts about the squares of a consistent move on a well-formed board.
proof fn lemma_square_facts(pos: Position, sq: u64)
    requires
        pos.board_wf(),
        sq < 64,
    ensures
        forall|c: int, p: int| 0 <= c < 2 && 0 <= p < 6 && #[trigger] bit(pos.pieces[c][p], sq) ==> bit(pos.all, sq)
            && bit(pos.occ[c], sq),
        forall|c: int, p: int, c2: int, p2: int|
            0 <= c < 2 && 0 <= p < 6 && 0 <= c2 < 2 && 0 <= p2 < 6 && (c != c2 || p != p2) && #[trigger] bit(pos.pieces[c][p], sq)
                ==> !#[trigger] bit(pos.pieces[c2][p2], sq),
        forall|c: int| 0 <= c < 2 ==> (#[trigger] piece_on(pos.pieces, c, sq) matches Some(q) ==> bit(pos.pieces[c][q.spec_index()], sq)),
        forall|c: int, p: int| 0 <= c < 2 && 0 <= p < 6 && #[trigger] bit(pos.pieces[c][p], sq) ==> piece_on(pos.pieces, c, sq) == Some(piece_of_index(p)),
{
    crate::position::lemma_occ_bits(pos, sq);
    crate::position::lemma_disjoint_square(pos.pieces, sq);
    crate::position::lemma_piece_on(pos.pieces, 0, sq);
    crate::position::lemma_piece_on(pos.pieces, 1, sq);
}

} // verus!

verus! {

/// A quiet move or double push: the mover's bitboard loses `from` and gains `to`.
proof fn lemma_keys_push(pos: Position, mv: Move) -> (k: u64)
    requires
        pos.board_wf(),
        move_consistent(pos, mv),
        mv.flag == MoveFlag::Quiet || mv.flag == MoveFlag::DoublePush,
    ensures
        pieces_keys(made_pieces(pos, mv), 12) == pieces_keys(pos.pieces, 12) ^ k,
        make_piece_hash(pos, mv) == pos.hash ^ k,
{
    reveal(make_pieces);
    reveal(make_piece_hash);
    let pcs = pos.pieces;
    let us = pos.stm.spec_index();
    let q = if mv.flag == MoveFlag::Quiet { moving_piece(pos, mv).spec_index() } else { 0 };
    let f = mv.from as u64;
    let t = mv.to as u64;
    lemma_square_facts(pos, f);
    lemma_square_facts(pos, t);
    assert(bit(pcs[us][q], f));
    assert(!bit(pcs[us][q], t));
    let x = pcs[us][q];
    lemma_move_bits(x, f, t);
    lemma_bit_flip(x, f, t);
    lemma_move_bits(x ^ (1u64 << f), f, t);
    let a1 = toggled(pcs, us, q, f);
    let a2 = toggled(a1, us, q, t);
    let made = made_pieces(pos, mv);
    assert(made[0] =~= a2[0]);
    assert(made[1] =~= a2[1]);
    assert(made =~= a2);
    lemma_toggled_keys(pcs, us, q, f);
    lemma_toggled_keys(a1, us, q, t);
    let k1 = piece_key(us, q, f as int);
    let k2 = piece_key(us, q, t as int);
    lemma_xor_assoc(pieces_keys(pcs, 12), k1, k2);
    lemma_xor_assoc(pos.hash, k1, k2);
    k1 ^ k2
}

} // verus!

verus! {

proof fn lemma_xor_assoc3(a: u64, b: u64, c: u64, d: u64)
    ensures
        ((a ^ b) ^ c) ^ d == a ^ ((b ^ c) ^ d),
{
    assert(((a ^ b) ^ c) ^ d == a ^ ((b ^ c) ^ d)) by (bit_vector);
}

proof fn lemma_xor_assoc4(a: u64, b: u64, c: u64, d: u64, e: u64)
    ensures
        (((a ^ b) ^ c) ^ d) ^ e == a ^ (((b ^ c) ^ d) ^ e),
{
    assert((((a ^ b) ^ c) ^ d) ^ e == a ^ (((b ^ c) ^ d) ^ e)) by (bit_vector);
}

/// A capture: the victim leaves `to`, the mover leaves `from` for `to`.
proof fn lemma_keys_capture(pos: Position, mv: Move) -> (k: u64)
    requires
        pos.board_wf(),
        move_consistent(pos, mv),
        mv.flag == MoveFlag::Capture,
    ensures
        pieces_keys(made_pieces(pos, mv), 12) == pieces_keys(pos.pieces, 12) ^ k,
        make_piece_hash(pos, mv) == pos.hash ^ k,
{
    reveal(make_pieces);
    reveal(make_piece_hash);
    let pcs = pos.pieces;
    let us = pos.stm.spec_index();
    let them = 1 - us;
    let m = moving_piece(pos, mv).spec_index();
    let cq = captured_piece(pos, mv)->0;
    let cap = cq.spec_index();
    let f = mv.from as u64;
    let t = mv.to as u64;
    lemma_square_facts(pos, f);
    lemma_square_facts(pos, t);
    assert(bit(pcs[us][m], f));
    assert(bit(pcs[them][cap], t));
    assert(!bit(pcs[us][m], t));
    let x = pcs[us][m];
    lemma_move_bits(x, f, t);
    lemma_bit_flip(x, f, t);
    lemma_move_bits(x ^ (1u64 << f), f, t);
    lemma_move_bits(pcs[them][cap], t, t);
    let a1 = toggled(pcs, them, cap, t);
    let a2 = toggled(a1, us, m, f);
    let a3 = toggled(a2, us, m, t);
    let made = made_pieces(pos, mv);
    assert(made[0] =~= a3[0]);
    assert(made[1] =~= a3[1]);
    assert(made =~= a3);
    lemma_toggled_keys(pcs, them, cap, t);
    lemma_toggled_keys(a1, us, m, f);
    lemma_toggled_keys(a2, us, m, t);
    let k1 = piece_key(them, cap, t as int);
    let k2 = piece_key(us, m, f as int);
    let k3 = piece_key(us, m, t as int);
    lemma_xor_assoc3(pieces_keys(pcs, 12), k1, k2, k3);
    lemma_xor_assoc3(pos.hash, k1, k2, k3);
    (k1 ^ k2) ^ k3
}

/// En passant: the pawn moves, the pawn behind `to` is taken.
proof fn lemma_keys_ep(pos: Position, mv: Move) -> (k: u64)
    requires
        pos.board_wf(),
        move_consistent(pos, mv),
        mv.flag == MoveFlag::EnPassant,
    ensures
        pieces_keys(made_pieces(pos, mv), 12) == pieces_keys(pos.pieces, 12) ^ k,
        make_piece_hash(pos, mv) == pos.hash ^ k,
{
    reveal(make_pieces);
    reveal(make_piece_hash);
    let pcs = pos.pieces;
    let us = pos.stm.spec_index();
    let them = 1 - us;
    let f = mv.from as u64;
    let t = mv.to as u64;
    let b = behind(pos.stm, mv.to) as u64;
    lemma_square_facts(pos, f);
    lemma_square_facts(pos, t);
    lemma_square_facts(pos, b);
    assert(bit(pcs[us][0], f));
    assert(!bit(pcs[us][0], t));
    assert(bit(pcs[them][0], b));
    let x = pcs[us][0];
    lemma_move_bits(x, f, t);
    lemma_bit_flip(x, f, t);
    lemma_move_bits(x ^ (1u64 << f), f, t);
    lemma_move_bits(pcs[them][0], b, b);
    let a1 = toggled(pcs, us, 0, f);
    let a2 = toggled(a1, us, 0, t);
    let a3 = toggled(a2, them, 0, b);
    let made = made_pieces(pos, mv);
    assert(made[0] =~= a3[0]);
    assert(made[1] =~= a3[1]);
    assert(made =~= a3);
    lemma_toggled_keys(pcs, us, 0, f);
    lemma_toggled_keys(a1, us, 0, t);
    lemma_toggled_keys(a2, them, 0, b);
    let k1 = piece_key(us, 0, f as int);
    let k2 = piece_key(us, 0, t as int);
    let k3 = piece_key(them, 0, b as int);
    lemma_xor_assoc3(pieces_keys(pcs, 12), k1, k2, k3);
    lemma_xor_assoc3(pos.hash, k1, k2, k3);
    (k1 ^ k2) ^ k3
}

/// Castling: the king and the rook each move to an empty square.
proof fn lemma_keys_castle(pos: Position, mv: Move) -> (k: u64)
    requires
        pos.board_wf(),
        move_consistent(pos, mv),
        mv.flag == MoveFlag::KingCastle || mv.flag == MoveFlag::QueenCastle,
    ensures
        pieces_keys(made_pieces(pos, mv), 12) == pieces_keys(pos.pieces, 12) ^ k,
        make_piece_hash(pos, mv) == pos.hash ^ k,
{
    reveal(make_pieces);
    reveal(make_piece_hash);
    let pcs = pos.pieces;
    let us = pos.stm.spec_index();
    let ks = mv.flag == MoveFlag::KingCastle;
    let f = mv.from as u64;
    let t = mv.to as u64;
    let rf = castle_rook_from(pos.stm, ks) as u64;
    let rt = castle_rook_to(pos.stm, ks) as u64;
    lemma_square_facts(pos, f);
    lemma_square_facts(pos, t);
    lemma_square_facts(pos, rf);
    lemma_square_facts(pos, rt);
    assert(bit(pcs[us][5], f));
    assert(!bit(pcs[us][5], t));
    assert(bit(pcs[us][3], rf));
    assert(!bit(pcs[us][3], rt));
    let x = pcs[us][5];
    let y = pcs[us][3];
    lemma_move_bits(x, f, t);
    lemma_bit_flip(x, f, t);
    lemma_move_bits(x ^ (1u64 << f), f, t);
    lemma_move_bits(y, rf, rt);
    lemma_bit_flip(y, rf, rt);
    lemma_move_bits(y ^ (1u64 << rf), rf, rt);
    let a1 = toggled(pcs, us, 5, f);
    let a2 = toggled(a1, us, 5, t);
    let a3 = toggled(a2, us, 3, rf);
    let a4 = toggled(a3, us, 3, rt);
    let made = made_pieces(pos, mv);
    assert(made[0] =~= a4[0]);
    assert(made[1] =~= a4[1]);
    assert(made =~= a4);
    lemma_toggled_keys(pcs, us, 5, f);
    lemma_toggled_keys(a1, us, 5, t);
    lemma_toggled_keys(a2, us, 3, rf);
    lemma_toggled_keys(a3, us, 3, rt);
    let k1 = piece_key(us, 5, f as int);
    let k2 = piece_key(us, 5, t as int);
    let k3 = piece_key(us, 3, rf as int);
    let k4 = piece_key(us, 3, rt as int);
    lemma_xor_assoc4(pieces_keys(pcs, 12), k1, k2, k3, k4);
    lemma_xor_assoc4(pos.hash, k1, k2, k3, k4);
    ((k1 ^ k2) ^ k3) ^ k4
}

} // verus!

verus! {

/// A promotion: the pawn leaves `from`, the new piece appears on `to`, and on
/// a capturing promotion the victim leaves `to`.
proof fn lemma_keys_promo(pos: Position, mv: Move) -> (k: u64)
    requires
        pos.board_wf(),
        move_consistent(pos, mv),
        mv.flag.spec_promo_piece() is Some,
    ensures
        pieces_keys(made_pieces(pos, mv), 12) == pieces_keys(pos.pieces, 12) ^ k,
        make_piece_hash(pos, mv) == pos.hash ^ k,
{
    reveal(make_pieces);
    reveal(make_piece_hash);
    let pcs = pos.pieces;
    let us = pos.stm.spec_index();
    let them = 1 - us;
    let pp = mv.flag.spec_promo_piece()->0.spec_index();
    let f = mv.from as u64;
    let t = mv.to as u64;
    lemma_square_facts(pos, f);
    lemma_square_facts(pos, t);
    assert(bit(pcs[us][0], f));
    assert(!bit(pcs[us][pp], t));
    lemma_move_bits(pcs[us][0], f, f);
    lemma_move_bits(pcs[us][pp], t, t);
    let a1 = toggled(pcs, us, 0, f);
    let k1 = piece_key(us, 0, f as int);
    let k3 = piece_key(us, pp, t as int);
    let made = made_pieces(pos, mv);
    lemma_toggled_keys(pcs, us, 0, f);
    if crate::position::is_promo_capture(mv.flag) {
        let cap = captured_piece(pos, mv)->0.spec_index();
        assert(bit(pcs[them][cap], t));
        lemma_move_bits(pcs[them][cap], t, t);
        let a2 = toggled(a1, them, cap, t);
        let a3 = toggled(a2, us, pp, t);
        assert(made[0] =~= a3[0]);
        assert(made[1] =~= a3[1]);
        assert(made =~= a3);
        lemma_toggled_keys(a1, them, cap, t);
        lemma_toggled_keys(a2, us, pp, t);
        let k2 = piece_key(them, cap, t as int);
        lemma_xor_assoc3(pieces_keys(pcs, 12), k1, k2, k3);
        lemma_xor_assoc3(pos.hash, k1, k2, k3);
        (k1 ^ k2) ^ k3
    } else {
        let a3 = toggled(a1, us, pp, t);
        assert(made[0] =~= a3[0]);
        assert(made[1] =~= a3[1]);
        assert(made =~= a3);
        lemma_toggled_keys(a1, us, pp, t);
        lemma_xor_assoc(pieces_keys(pcs, 12), k1, k3);
        lemma_xor_assoc(pos.hash, k1, k3);
        k1 ^ k3
    }
}

/// Making a legal move keeps the hash equal to the Zobrist hash computed from
/// scratch: when `pos`'s hash is its from-scratch hash, the hash that `make`
/// produces is the from-scratch hash of the position after the move.
pub proof fn law_make_hash_is_zobrist(pos: Position, mv: Move)
    requires
        movable(pos),
        legal_move(pos, mv),
        pos.hash == zobrist(pos),
    ensures
        make_hash(pos, mv) == zobrist(after(pos, mv)),
{
    lemma_pseudo_consistent(pos, mv);
    let k = if mv.flag == MoveFlag::Quiet || mv.flag == MoveFlag::DoublePush {
        lemma_keys_push(pos, mv)
    } else if mv.flag == MoveFlag::Capture {
        lemma_keys_capture(pos, mv)
    } else if mv.flag == MoveFlag::EnPassant {
        lemma_keys_ep(pos, mv)
    } else if mv.flag == MoveFlag::KingCastle || mv.flag == MoveFlag::QueenCastle {
        lemma_keys_castle(pos, mv)
    } else {
        lemma_keys_promo(pos, mv)
    };
    let q = after(pos, mv);
    reveal(make_hash);
    lemma_hash_algebra(
        pieces_keys(pos.pieces, 12),
        k,
        stm_key(),
        castling_key(pos.castling as int),
        castling_key(make_castling(pos, mv) as int),
        ep_key_spec(pos.ep),
        ep_key_spec(make_ep(pos, mv)),
        pos.stm == Color::Black,
    );
    assert(q.pieces == made_pieces(pos, mv));
}

} // verus!
