//! Board state, FEN parsing, and make/unmake. Bitboards are maintained
//! incrementally. make/unmake is exact: an undo stack records the captured piece
//! and the prior castling/ep/halfmove/hash state. A Zobrist hash is maintained
//! incrementally (piece-square keys xored in set/clear_piece; side-to-move,
//! castling and en-passant deltas applied in make; unmake restores the recorded
//! prior hash).
use vstd::prelude::*;
use crate::bits::{bit, del, put, lemma_bit_and, lemma_bit_or, lemma_del_bit, lemma_put_bit};
use crate::{castle, piece_of_index, Color, Move, MoveFlag, Piece};

verus! {

/// Increment of the splitmix64 generator that seeds the Zobrist keys.
pub const ZOBRIST_GAMMA: u64 = 0x9E37_79B9_7F4A_7C15;

/// The `n`-th output (1-based) of the splitmix64 generator whose state starts at
/// `ZOBRIST_GAMMA` and advances by `ZOBRIST_GAMMA` before each output.
pub open spec fn splitmix_output(n: u64) -> u64 {
    let s = vstd::wrapping::u64_specs::wrapping_mul((n + 1) as u64, ZOBRIST_GAMMA);
    let z1 = vstd::wrapping::u64_specs::wrapping_mul(s ^ (s >> 30u64), 0xBF58_476D_1CE4_E5B9);
    let z2 = vstd::wrapping::u64_specs::wrapping_mul(z1 ^ (z1 >> 27u64), 0x94D0_49BB_1331_11EB);
    z2 ^ (z2 >> 31u64)
}

/// Key of a piece of color index `c` and type index `p` on square `s`: the
/// generator outputs are assigned in (color, piece, square) order.
pub open spec fn piece_key(c: int, p: int, s: int) -> u64 {
    splitmix_output((c * 384 + p * 64 + s + 1) as u64)
}

/// Key toggled when Black is to move.
pub open spec fn stm_key() -> u64 {
    splitmix_output(769)
}

/// Key of a castling-rights value (0..16).
pub open spec fn castling_key(c: int) -> u64 {
    splitmix_output((770 + c) as u64)
}

/// Key of an en-passant square (by its file), or 0 when there is none.
pub open spec fn ep_key_spec(ep: Option<u8>) -> u64 {
    match ep {
        Some(sq) => splitmix_output((786 + sq % 8) as u64),
        None => 0,
    }
}

pub(crate) fn zobrist_output(n: u64) -> (k: u64)
    requires
        n < 1000,
    ensures
        k == splitmix_output(n),
{
    let s = (n + 1).wrapping_mul(ZOBRIST_GAMMA);
    let z1 = (s ^ (s >> 30)).wrapping_mul(0xBF58_476D_1CE4_E5B9);
    let z2 = (z1 ^ (z1 >> 27)).wrapping_mul(0x94D0_49BB_1331_11EB);
    z2 ^ (z2 >> 31)
}

fn piece_key_exec(c: usize, p: usize, s: u8) -> (k: u64)
    requires
        c < 2,
        p < 6,
        s < 64,
    ensures
        k == piece_key(c as int, p as int, s as int),
{
    zobrist_output((c * 384 + p * 64 + s as usize + 1) as u64)
}

pub(crate) fn castling_key_exec(c: u8) -> (k: u64)
    requires
        c < 16,
    ensures
        k == castling_key(c as int),
{
    zobrist_output(770 + c as u64)
}

pub(crate) fn ep_key(ep: Option<u8>) -> (k: u64)
    ensures
        k == ep_key_spec(ep),
{
    match ep {
        Some(sq) => zobrist_output(786 + (sq % 8) as u64),
        None => 0,
    }
}

/// What `unmake` needs to restore the position before a move.
#[derive(Clone, Copy)]
pub struct Undo {
    pub mv: Move,
    pub captured: Option<Piece>,
    pub prev_castling: u8,
    pub prev_ep: Option<u8>,
    pub prev_halfmove: u16,
    pub prev_hash: u64,
}

#[derive(Clone)]
pub struct Position {
    /// pieces[color][piece] bitboards.
    pub pieces: [[u64; 6]; 2],
    /// occupancy per color.
    pub occ: [u64; 2],
    /// all occupied squares.
    pub all: u64,
    pub stm: Color,
    pub castling: u8,
    pub ep: Option<u8>,
    pub halfmove: u16,
    pub fullmove: u16,
    /// Zobrist hash of (pieces, stm, castling, ep-file).
    pub hash: u64,
    /// Undo records of the moves made so far (most recent last).
    pub history: Vec<Undo>,
}

/// Union of a side's six piece bitboards.
pub open spec fn union6(b: [u64; 6]) -> u64 {
    b[0] | b[1] | b[2] | b[3] | b[4] | b[5]
}

/// The first piece type (in index order from `i`) of color index `c` on `sq`.
pub open spec fn first_piece_from(pieces: [[u64; 6]; 2], c: int, sq: u64, i: int) -> Option<Piece>
    decreases 6 - i,
{
    if i >= 6 || i < 0 {
        None
    } else if bit(pieces[c][i], sq) {
        Some(piece_of_index(i))
    } else {
        first_piece_from(pieces, c, sq, i + 1)
    }
}

/// The piece type of color index `c` on `sq`, if any.
pub open spec fn piece_on(pieces: [[u64; 6]; 2], c: int, sq: u64) -> Option<Piece> {
    first_piece_from(pieces, c, sq, 0)
}

/// The piece bitboards of distinct (color, type) pairs do not overlap.
pub open spec fn pieces_disjoint(pieces: [[u64; 6]; 2]) -> bool {
    forall|c: int, p: int, c2: int, p2: int|
        0 <= c < 2 && 0 <= p < 6 && 0 <= c2 < 2 && 0 <= p2 < 6 && (c != c2 || p != p2) ==> (
        #[trigger] pieces[c][p] & #[trigger] pieces[c2][p2]) == 0
}

impl Position {
    /// The redundant occupancy fields agree with the piece bitboards, no two
    /// pieces share a square, and the castling/ep fields are in range.
    pub open spec fn board_wf(self) -> bool {
        &&& pieces_disjoint(self.pieces)
        &&& self.occ[0] == union6(self.pieces[0])
        &&& self.occ[1] == union6(self.pieces[1])
        &&& self.all == self.occ[0] | self.occ[1]
        &&& self.castling < 16
        &&& (self.ep matches Some(e) ==> e < 64)
    }

    /// The undo record stack.
    pub open spec fn history_view(self) -> Seq<Undo> {
        self.history@
    }

    pub open spec fn wf(self) -> bool {
        &&& self.board_wf()
        &&& forall|i: int| 0 <= i < self.history_view().len() ==> #[trigger] undo_wf(self.history_view()[i])
    }

    /// Bitboards and fields other than the hash are as in `other`.
    pub open spec fn same_state(self, other: Position) -> bool {
        &&& self.pieces == other.pieces
        &&& self.occ == other.occ
        &&& self.all == other.all
        &&& self.stm == other.stm
        &&& self.castling == other.castling
        &&& self.ep == other.ep
        &&& self.halfmove == other.halfmove
        &&& self.fullmove == other.fullmove
        &&& self.hash == other.hash
        &&& self.history_view() == other.history_view()
    }
}

/// The squares and saved fields of an undo record are in range.
pub open spec fn undo_wf(u: Undo) -> bool {
    &&& u.mv.from < 64
    &&& u.mv.to < 64
    &&& u.prev_castling < 16
    &&& (u.prev_ep matches Some(e) ==> e < 64)
}

} // verus!

verus! {

/// `b` equals `a` except possibly at (c, p).
pub open spec fn pieces_except(a: [[u64; 6]; 2], b: [[u64; 6]; 2], c: int, p: int) -> bool {
    forall|c2: int, p2: int|
        0 <= c2 < 2 && 0 <= p2 < 6 && !(c2 == c && p2 == p) ==> #[trigger] b[c2][p2] == a[c2][p2]
}

/// All fields other than bitboards and hash are as before.
pub open spec fn same_meta(a: Position, b: Position) -> bool {
    &&& b.stm == a.stm
    &&& b.castling == a.castling
    &&& b.ep == a.ep
    &&& b.halfmove == a.halfmove
    &&& b.fullmove == a.fullmove
    &&& b.history_view() == a.history_view()
}

impl Position {
    pub(crate) fn set_piece(&mut self, color: Color, piece: Piece, sq: u8)
        requires
            sq < 64,
        ensures
            final(self).pieces[color.spec_index()][piece.spec_index()] == put(old(self).pieces[color.spec_index()][piece.spec_index()], sq as u64),
            pieces_except(old(self).pieces, final(self).pieces, color.spec_index(), piece.spec_index()),
            final(self).occ[color.spec_index()] == put(old(self).occ[color.spec_index()], sq as u64),
            final(self).occ[1 - color.spec_index()] == old(self).occ[1 - color.spec_index()],
            final(self).all == put(old(self).all, sq as u64),
            final(self).hash == old(self).hash ^ piece_key(color.spec_index(), piece.spec_index(), sq as int),
            same_meta(*old(self), *final(self)),
    {
        let b = 1u64 << sq;
        let ci = color.index();
        let pi = piece.index();
        self.pieces[ci][pi] = self.pieces[ci][pi] | b;
        self.occ[ci] = self.occ[ci] | b;
        self.all = self.all | b;
        self.hash = self.hash ^ piece_key_exec(ci, pi, sq);
    }

    fn clear_piece(&mut self, color: Color, piece: Piece, sq: u8)
        requires
            sq < 64,
        ensures
            final(self).pieces[color.spec_index()][piece.spec_index()] == del(old(self).pieces[color.spec_index()][piece.spec_index()], sq as u64),
            pieces_except(old(self).pieces, final(self).pieces, color.spec_index(), piece.spec_index()),
            final(self).occ[color.spec_index()] == del(old(self).occ[color.spec_index()], sq as u64),
            final(self).occ[1 - color.spec_index()] == old(self).occ[1 - color.spec_index()],
            final(self).all == del(old(self).all, sq as u64),
            final(self).hash == old(self).hash ^ piece_key(color.spec_index(), piece.spec_index(), sq as int),
            same_meta(*old(self), *final(self)),
    {
        let b = !(1u64 << sq);
        let ci = color.index();
        let pi = piece.index();
        self.pieces[ci][pi] = self.pieces[ci][pi] & b;
        self.occ[ci] = self.occ[ci] & b;
        self.all = self.all & b;
        self.hash = self.hash ^ piece_key_exec(ci, pi, sq);
    }
}

} // verus!

verus! {

/// With at most one piece of color `c` on `sq`, the lookup finds exactly it.
pub proof fn lemma_piece_on(pieces: [[u64; 6]; 2], c: int, sq: u64)
    requires
        0 <= c < 2,
        sq < 64,
        forall|p: int, p2: int| 0 <= p < 6 && 0 <= p2 < 6 && p != p2 && #[trigger] bit(pieces[c][p], sq) ==> !#[trigger] bit(pieces[c][p2], sq),
    ensures
        forall|p: int| 0 <= p < 6 && #[trigger] bit(pieces[c][p], sq) ==> piece_on(pieces, c, sq) == Some(piece_of_index(p)),
        (forall|p: int| 0 <= p < 6 ==> !#[trigger] bit(pieces[c][p], sq)) ==> piece_on(pieces, c, sq) == None::<Piece>,
        piece_on(pieces, c, sq) matches Some(q) ==> bit(pieces[c][q.spec_index()], sq),
{
    reveal_with_fuel(first_piece_from, 7);
}

/// Disjoint bitboards hold at most one piece per square.
pub proof fn lemma_disjoint_square(pieces: [[u64; 6]; 2], sq: u64)
    requires
        pieces_disjoint(pieces),
        sq < 64,
    ensures
        forall|c: int, p: int, c2: int, p2: int|
            0 <= c < 2 && 0 <= p < 6 && 0 <= c2 < 2 && 0 <= p2 < 6 && (c != c2 || p != p2) && #[trigger] bit(pieces[c][p], sq)
                ==> !#[trigger] bit(pieces[c2][p2], sq),
{
    assert forall|c: int, p: int, c2: int, p2: int|
        0 <= c < 2 && 0 <= p < 6 && 0 <= c2 < 2 && 0 <= p2 < 6 && (c != c2 || p != p2) && #[trigger] bit(pieces[c][p], sq)
        implies !#[trigger] bit(pieces[c2][p2], sq) by {
        assert((pieces[c][p] & pieces[c2][p2]) == 0);
        lemma_bit_and(pieces[c][p], pieces[c2][p2], sq);
        crate::bits::lemma_bit_zero(sq);
    }
}

/// Occupancy membership of a well-formed board in terms of the piece bitboards.
pub proof fn lemma_occ_bits(pos: Position, sq: u64)
    requires
        pos.board_wf(),
        sq < 64,
    ensures
        bit(pos.occ[0], sq) == (exists|p: int| 0 <= p < 6 && #[trigger] bit(pos.pieces[0][p], sq)),
        bit(pos.occ[1], sq) == (exists|p: int| 0 <= p < 6 && #[trigger] bit(pos.pieces[1][p], sq)),
        bit(pos.all, sq) == (bit(pos.occ[0], sq) || bit(pos.occ[1], sq)),
{
    let b0 = pos.pieces[0];
    let b1 = pos.pieces[1];
    lemma_bit_or(b0[0] | b0[1] | b0[2] | b0[3] | b0[4], b0[5], sq);
    lemma_bit_or(b0[0] | b0[1] | b0[2] | b0[3], b0[4], sq);
    lemma_bit_or(b0[0] | b0[1] | b0[2], b0[3], sq);
    lemma_bit_or(b0[0] | b0[1], b0[2], sq);
    lemma_bit_or(b0[0], b0[1], sq);
    lemma_bit_or(b1[0] | b1[1] | b1[2] | b1[3] | b1[4], b1[5], sq);
    lemma_bit_or(b1[0] | b1[1] | b1[2] | b1[3], b1[4], sq);
    lemma_bit_or(b1[0] | b1[1] | b1[2], b1[3], sq);
    lemma_bit_or(b1[0] | b1[1], b1[2], sq);
    lemma_bit_or(b1[0], b1[1], sq);
    lemma_bit_or(pos.occ[0], pos.occ[1], sq);
    if bit(pos.occ[0], sq) {
        if bit(b0[0], sq) { assert(bit(pos.pieces[0][0], sq)); }
        else if bit(b0[1], sq) { assert(bit(pos.pieces[0][1], sq)); }
        else if bit(b0[2], sq) { assert(bit(pos.pieces[0][2], sq)); }
        else if bit(b0[3], sq) { assert(bit(pos.pieces[0][3], sq)); }
        else if bit(b0[4], sq) { assert(bit(pos.pieces[0][4], sq)); }
        else { assert(bit(pos.pieces[0][5], sq)); }
    }
    if bit(pos.occ[1], sq) {
        if bit(b1[0], sq) { assert(bit(pos.pieces[1][0], sq)); }
        else if bit(b1[1], sq) { assert(bit(pos.pieces[1][1], sq)); }
        else if bit(b1[2], sq) { assert(bit(pos.pieces[1][2], sq)); }
        else if bit(b1[3], sq) { assert(bit(pos.pieces[1][3], sq)); }
        else if bit(b1[4], sq) { assert(bit(pos.pieces[1][4], sq)); }
        else { assert(bit(pos.pieces[1][5], sq)); }
    }
}

/// The piece on `sq`, if any, read from a well-formed board.
pub open spec fn spec_piece_at(pos: Position, sq: u64) -> Option<(Color, Piece)> {
    match piece_on(pos.pieces, 0, sq) {
        Some(p) => Some((Color::White, p)),
        None => match piece_on(pos.pieces, 1, sq) {
            Some(p) => Some((Color::Black, p)),
            None => None,
        },
    }
}

impl Position {
    fn move_piece(&mut self, color: Color, piece: Piece, from: u8, to: u8)
        requires
            from < 64,
            to < 64,
        ensures
            final(self).pieces[color.spec_index()][piece.spec_index()] == put(del(old(self).pieces[color.spec_index()][piece.spec_index()], from as u64), to as u64),
            pieces_except(old(self).pieces, final(self).pieces, color.spec_index(), piece.spec_index()),
            final(self).occ[color.spec_index()] == put(del(old(self).occ[color.spec_index()], from as u64), to as u64),
            final(self).occ[1 - color.spec_index()] == old(self).occ[1 - color.spec_index()],
            final(self).all == put(del(old(self).all, from as u64), to as u64),
            final(self).hash == old(self).hash ^ piece_key(color.spec_index(), piece.spec_index(), from as int) ^ piece_key(color.spec_index(), piece.spec_index(), to as int),
            same_meta(*old(self), *final(self)),
    {
        self.clear_piece(color, piece, from);
        self.set_piece(color, piece, to);
    }

    /// The piece of `color` on `sq`, if any.
    pub fn piece_at_color(&self, color: Color, sq: u8) -> (r: Option<Piece>)
        requires
            sq < 64,
        ensures
            r == piece_on(self.pieces, color.spec_index(), sq as u64),
    {
        let b = 1u64 << sq;
        let ci = color.index();
        let all = crate::all_pieces();
        let mut i: usize = 0;
        while i < 6
            invariant
                0 <= i <= 6,
                ci == color.spec_index(),
                b == 1u64 << sq,
                sq < 64,
                forall|k: int| 0 <= k < 6 ==> #[trigger] all[k] == piece_of_index(k),
                first_piece_from(self.pieces, ci as int, sq as u64, 0) == first_piece_from(self.pieces, ci as int, sq as u64, i as int),
            decreases 6 - i,
        {
            if self.pieces[ci][i] & b != 0 {
                return Some(all[i]);
            }
            i = i + 1;
        }
        None
    }

    /// The (color, piece) on `sq`, or None if empty.
    pub fn piece_at(&self, sq: u8) -> (r: Option<(Color, Piece)>)
        requires
            self.board_wf(),
            sq < 64,
        ensures
            r == spec_piece_at(*self, sq as u64),
    {
        let b = 1u64 << sq;
        proof {
            lemma_occ_bits(*self, sq as u64);
            lemma_disjoint_square(self.pieces, sq as u64);
            lemma_piece_on(self.pieces, 0, sq as u64);
            lemma_piece_on(self.pieces, 1, sq as u64);
        }
        if self.occ[0] & b != 0 {
            match self.piece_at_color(Color::White, sq) {
                Some(p) => Some((Color::White, p)),
                None => None,
            }
        } else if self.occ[1] & b != 0 {
            match self.piece_at_color(Color::Black, sq) {
                Some(p) => Some((Color::Black, p)),
                None => None,
            }
        } else {
            None
        }
    }

    /// The square of `color`'s king: the lowest square of its king bitboard
    /// (64 when the side has no king).
    pub fn king_sq(&self, color: Color) -> (s: u8)
        ensures
            s as u32 == vstd::std_specs::bits::u64_trailing_zeros(self.pieces[color.spec_index()][5]),
            self.pieces[color.spec_index()][5] != 0 ==> s < 64 && bit(self.pieces[color.spec_index()][5], s as u64),
    {
        let kb = self.pieces[color.index()][Piece::King.index()];
        proof {
            vstd::std_specs::bits::axiom_u64_trailing_zeros(kb);
            if kb != 0 {
                crate::bits::lemma_trailing_zeros_bit(kb);
            }
        }
        kb.trailing_zeros() as u8
    }
}

} // verus!

verus! {

/// The union of a side's bitboards, square by square.
pub proof fn lemma_union6_bit(b: [u64; 6], t: u64)
    requires
        t < 64,
    ensures
        bit(union6(b), t) == (bit(b[0], t) || bit(b[1], t) || bit(b[2], t) || bit(b[3], t) || bit(b[4], t) || bit(b[5], t)),
{
    lemma_bit_or(b[0] | b[1] | b[2] | b[3] | b[4], b[5], t);
    lemma_bit_or(b[0] | b[1] | b[2] | b[3], b[4], t);
    lemma_bit_or(b[0] | b[1] | b[2], b[3], t);
    lemma_bit_or(b[0] | b[1], b[2], t);
    lemma_bit_or(b[0], b[1], t);
}

/// Square-wise description of a well-formed board.
pub open spec fn board_bits_ok(pos: Position) -> bool {
    forall|t: u64| t < 64 ==> #[trigger] square_ok(pos, t)
}

/// At square `t`: at most one piece, and the occupancy fields agree with the pieces.
pub open spec fn square_ok(pos: Position, t: u64) -> bool {
    &&& forall|c: int, p: int, c2: int, p2: int|
        0 <= c < 2 && 0 <= p < 6 && 0 <= c2 < 2 && 0 <= p2 < 6 && (c != c2 || p != p2) && #[trigger] bit(pos.pieces[c][p], t)
            ==> !#[trigger] bit(pos.pieces[c2][p2], t)
    &&& bit(pos.occ[0], t) == bit(union6(pos.pieces[0]), t)
    &&& bit(pos.occ[1], t) == bit(union6(pos.pieces[1]), t)
    &&& bit(pos.all, t) == (bit(pos.occ[0], t) || bit(pos.occ[1], t))
}

/// Square-wise well-formedness gives word-level well-formedness.
pub proof fn lemma_board_wf_from_bits(pos: Position)
    requires
        board_bits_ok(pos),
        pos.castling < 16,
        pos.ep matches Some(e) ==> e < 64,
    ensures
        pos.board_wf(),
{
    assert forall|c: int, p: int, c2: int, p2: int|
        0 <= c < 2 && 0 <= p < 6 && 0 <= c2 < 2 && 0 <= p2 < 6 && (c != c2 || p != p2) implies (
        #[trigger] pos.pieces[c][p] & #[trigger] pos.pieces[c2][p2]) == 0 by {
        assert forall|t: u64| t < 64 implies #[trigger] bit(pos.pieces[c][p] & pos.pieces[c2][p2], t) == bit(0u64, t) by {
            assert(square_ok(pos, t));
            lemma_bit_and(pos.pieces[c][p], pos.pieces[c2][p2], t);
            crate::bits::lemma_bit_zero(t);
        }
        crate::bits::lemma_bits_ext(pos.pieces[c][p] & pos.pieces[c2][p2], 0u64);
    }
    assert forall|t: u64| t < 64 implies #[trigger] bit(pos.occ[0], t) == bit(union6(pos.pieces[0]), t) by {
        assert(square_ok(pos, t));
    }
    crate::bits::lemma_bits_ext(pos.occ[0], union6(pos.pieces[0]));
    assert forall|t: u64| t < 64 implies #[trigger] bit(pos.occ[1], t) == bit(union6(pos.pieces[1]), t) by {
        assert(square_ok(pos, t));
    }
    crate::bits::lemma_bits_ext(pos.occ[1], union6(pos.pieces[1]));
    assert forall|t: u64| t < 64 implies #[trigger] bit(pos.all, t) == bit(pos.occ[0] | pos.occ[1], t) by {
        assert(square_ok(pos, t));
        lemma_bit_or(pos.occ[0], pos.occ[1], t);
    }
    crate::bits::lemma_bits_ext(pos.all, pos.occ[0] | pos.occ[1]);
}

/// A well-formed board is square-wise well-formed.
pub proof fn lemma_board_bits_from_wf(pos: Position)
    requires
        pos.board_wf(),
    ensures
        board_bits_ok(pos),
{
    assert forall|t: u64| t < 64 implies #[trigger] square_ok(pos, t) by {
        lemma_disjoint_square(pos.pieces, t);
        lemma_bit_or(pos.occ[0], pos.occ[1], t);
    }
}

} // verus!

verus! {

/// Rook (from, to) squares of a castling move by `us`.
pub open spec fn castle_rook_from(us: Color, king_side: bool) -> u8 {
    if us == Color::White {
        if king_side { 7 } else { 0 }
    } else {
        if king_side { 63 } else { 56 }
    }
}

pub open spec fn castle_rook_to(us: Color, king_side: bool) -> u8 {
    if us == Color::White {
        if king_side { 5 } else { 3 }
    } else {
        if king_side { 61 } else { 59 }
    }
}

/// The square behind `to` from `us`'s point of view (the en-passant victim
/// square, or the skipped square of a double push).
pub open spec fn behind(us: Color, to: u8) -> int {
    if us == Color::White {
        to - 8
    } else {
        to + 8
    }
}

/// The piece that moves.
pub open spec fn moving_piece(pos: Position, mv: Move) -> Piece {
    match piece_on(pos.pieces, pos.stm.spec_index(), mv.from as u64) {
        Some(p) => p,
        None => Piece::Pawn,
    }
}

pub open spec fn is_promo_capture(f: MoveFlag) -> bool {
    f.spec_is_capture() && f.spec_promo_piece() is Some
}

/// The piece a move captures.
pub open spec fn captured_piece(pos: Position, mv: Move) -> Option<Piece> {
    if mv.flag == MoveFlag::Capture || is_promo_capture(mv.flag) {
        piece_on(pos.pieces, pos.stm.spec_flip().spec_index(), mv.to as u64)
    } else if mv.flag == MoveFlag::EnPassant {
        Some(Piece::Pawn)
    } else {
        None
    }
}

/// Castling rights after a move touching `sq` (a rook leaving or being
/// captured on its home corner).
pub open spec fn clear_corner(c: u8, sq: u8) -> u8 {
    if sq == 0 {
        c & !castle::WQ
    } else if sq == 7 {
        c & !castle::WK
    } else if sq == 56 {
        c & !castle::BQ
    } else if sq == 63 {
        c & !castle::BK
    } else {
        c
    }
}

#[verifier::opaque]
pub open spec fn make_castling(pos: Position, mv: Move) -> u8 {
    let c1 = if moving_piece(pos, mv) == Piece::King {
        if pos.stm == Color::White {
            pos.castling & !(castle::WK | castle::WQ)
        } else {
            pos.castling & !(castle::BK | castle::BQ)
        }
    } else {
        pos.castling
    };
    clear_corner(clear_corner(c1, mv.from), mv.to)
}

pub open spec fn make_ep(pos: Position, mv: Move) -> Option<u8> {
    if mv.flag == MoveFlag::DoublePush {
        Some(behind(pos.stm, mv.to) as u8)
    } else {
        None
    }
}

pub open spec fn resets_halfmove(pos: Position, mv: Move) -> bool {
    moving_piece(pos, mv) == Piece::Pawn || captured_piece(pos, mv) is Some || mv.flag.spec_promo_piece() is Some
}

pub open spec fn is_castle(f: MoveFlag) -> bool {
    f == MoveFlag::KingCastle || f == MoveFlag::QueenCastle
}

pub open spec fn is_promo(f: MoveFlag) -> bool {
    f.spec_promo_piece() is Some
}

/// Bitboard (c, p) after making `mv`.
#[verifier::opaque]
pub open spec fn make_pieces(pos: Position, mv: Move, c: int, p: int) -> u64 {
    let us = pos.stm.spec_index();
    let them = 1 - us;
    let m = moving_piece(pos, mv).spec_index();
    let x = pos.pieces[c][p];
    let f = mv.from as u64;
    let t = mv.to as u64;
    let ks = mv.flag == MoveFlag::KingCastle;
    match mv.flag {
        MoveFlag::Quiet => if c == us && p == m { put(del(x, f), t) } else { x },
        MoveFlag::DoublePush => if c == us && p == 0 { put(del(x, f), t) } else { x },
        MoveFlag::Capture => if c == them && Some(piece_of_index(p)) == captured_piece(pos, mv) {
            del(x, t)
        } else if c == us && p == m {
            put(del(x, f), t)
        } else {
            x
        },
        MoveFlag::EnPassant => if c == us && p == 0 {
            put(del(x, f), t)
        } else if c == them && p == 0 {
            del(x, behind(pos.stm, mv.to) as u64)
        } else {
            x
        },
        MoveFlag::KingCastle | MoveFlag::QueenCastle => if c == us && p == 5 {
            put(del(x, f), t)
        } else if c == us && p == 3 {
            put(del(x, castle_rook_from(pos.stm, ks) as u64), castle_rook_to(pos.stm, ks) as u64)
        } else {
            x
        },
        _ => if c == us && p == 0 {
            del(x, f)
        } else if c == them && is_promo_capture(mv.flag) && Some(piece_of_index(p)) == captured_piece(pos, mv) {
            del(x, t)
        } else if c == us && Some(piece_of_index(p)) == mv.flag.spec_promo_piece() {
            put(x, t)
        } else {
            x
        },
    }
}

/// Occupancy of color index `c` after making `mv`.
#[verifier::opaque]
pub open spec fn make_occ(pos: Position, mv: Move, c: int) -> u64 {
    let us = pos.stm.spec_index();
    let o = pos.occ[c];
    let f = mv.from as u64;
    let t = mv.to as u64;
    let ks = mv.flag == MoveFlag::KingCastle;
    if c == us {
        if is_castle(mv.flag) {
            put(del(put(del(o, f), t), castle_rook_from(pos.stm, ks) as u64), castle_rook_to(pos.stm, ks) as u64)
        } else {
            put(del(o, f), t)
        }
    } else {
        if mv.flag == MoveFlag::Capture || is_promo_capture(mv.flag) {
            del(o, t)
        } else if mv.flag == MoveFlag::EnPassant {
            del(o, behind(pos.stm, mv.to) as u64)
        } else {
            o
        }
    }
}

/// All-occupancy after making `mv`.
#[verifier::opaque]
pub open spec fn make_all(pos: Position, mv: Move) -> u64 {
    let a = pos.all;
    let f = mv.from as u64;
    let t = mv.to as u64;
    let ks = mv.flag == MoveFlag::KingCastle;
    if mv.flag == MoveFlag::Capture {
        put(del(del(a, t), f), t)
    } else if mv.flag == MoveFlag::EnPassant {
        del(put(del(a, f), t), behind(pos.stm, mv.to) as u64)
    } else if is_castle(mv.flag) {
        put(del(put(del(a, f), t), castle_rook_from(pos.stm, ks) as u64), castle_rook_to(pos.stm, ks) as u64)
    } else if is_promo_capture(mv.flag) {
        put(del(del(a, f), t), t)
    } else {
        put(del(a, f), t)
    }
}

/// Hash after the piece-key toggles of `mv` (before the side/castling/ep deltas).
#[verifier::opaque]
pub open spec fn make_piece_hash(pos: Position, mv: Move) -> u64 {
    let us = pos.stm.spec_index();
    let them = 1 - us;
    let m = moving_piece(pos, mv).spec_index();
    let h = pos.hash;
    let f = mv.from as int;
    let t = mv.to as int;
    let ks = mv.flag == MoveFlag::KingCastle;
    let cap = match captured_piece(pos, mv) { Some(q) => q.spec_index(), None => 0 };
    match mv.flag {
        MoveFlag::Quiet => h ^ piece_key(us, m, f) ^ piece_key(us, m, t),
        MoveFlag::DoublePush => h ^ piece_key(us, 0, f) ^ piece_key(us, 0, t),
        MoveFlag::Capture => h ^ piece_key(them, cap, t) ^ piece_key(us, m, f) ^ piece_key(us, m, t),
        MoveFlag::EnPassant => h ^ piece_key(us, 0, f) ^ piece_key(us, 0, t) ^ piece_key(them, 0, behind(pos.stm, mv.to)),
        MoveFlag::KingCastle | MoveFlag::QueenCastle => h ^ piece_key(us, 5, f) ^ piece_key(us, 5, t)
            ^ piece_key(us, 3, castle_rook_from(pos.stm, ks) as int) ^ piece_key(us, 3, castle_rook_to(pos.stm, ks) as int),
        _ => {
            let h1 = h ^ piece_key(us, 0, f);
            let h2 = if is_promo_capture(mv.flag) { h1 ^ piece_key(them, cap, t) } else { h1 };
            let pp = match mv.flag.spec_promo_piece() { Some(q) => q.spec_index(), None => 0 };
            h2 ^ piece_key(us, pp, t)
        },
    }
}

/// Full hash after making `mv`.
#[verifier::opaque]
pub open spec fn make_hash(pos: Position, mv: Move) -> u64 {
    make_piece_hash(pos, mv) ^ stm_key() ^ (castling_key(pos.castling as int) ^ castling_key(make_castling(pos, mv) as int))
        ^ (ep_key_spec(pos.ep) ^ ep_key_spec(make_ep(pos, mv)))
}

/// The undo record pushed by making `mv`.
pub open spec fn make_undo(pos: Position, mv: Move) -> Undo {
    Undo {
        mv,
        captured: captured_piece(pos, mv),
        prev_castling: pos.castling,
        prev_ep: pos.ep,
        prev_halfmove: pos.halfmove,
        prev_hash: pos.hash,
    }
}

/// `make(mv)` can run on `pos` without a panic.
pub open spec fn make_ok(pos: Position, mv: Move) -> bool {
    &&& mv.from < 64
    &&& mv.to < 64
    &&& piece_on(pos.pieces, pos.stm.spec_index(), mv.from as u64) is Some
    &&& (mv.flag == MoveFlag::Capture || is_promo_capture(mv.flag)) ==> captured_piece(pos, mv) is Some
    &&& (mv.flag == MoveFlag::DoublePush || mv.flag == MoveFlag::EnPassant) ==> 0 <= behind(pos.stm, mv.to) < 64
    &&& !resets_halfmove(pos, mv) ==> pos.halfmove < u16::MAX
    &&& pos.stm == Color::Black ==> pos.fullmove < u16::MAX
}

/// `after` is the position obtained by making `mv` on `pos`.
pub open spec fn make_result(pos: Position, mv: Move, after: Position) -> bool {
    &&& forall|c: int, p: int| 0 <= c < 2 && 0 <= p < 6 ==> #[trigger] after.pieces[c][p] == make_pieces(pos, mv, c, p)
    &&& after.occ[0] == make_occ(pos, mv, 0)
    &&& after.occ[1] == make_occ(pos, mv, 1)
    &&& after.all == make_all(pos, mv)
    &&& after.stm == pos.stm.spec_flip()
    &&& after.castling == make_castling(pos, mv)
    &&& after.ep == make_ep(pos, mv)
    &&& after.halfmove == (if resets_halfmove(pos, mv) { 0 } else { (pos.halfmove + 1) as u16 })
    &&& after.fullmove == (if pos.stm == Color::Black { (pos.fullmove + 1) as u16 } else { pos.fullmove })
    &&& after.hash == make_hash(pos, mv)
    &&& after.history_view() == pos.history_view().push(make_undo(pos, mv))
}

/// The fifty-move clock after a move: a capture (en passant included), a pawn
/// move or a promotion sets it to 0; any other move advances it by one.
pub proof fn law_make_halfmove(pos: Position, mv: Move, after: Position)
    requires
        make_ok(pos, mv),
        make_result(pos, mv, after),
    ensures
        mv.flag.spec_is_capture() ==> after.halfmove == 0,
        moving_piece(pos, mv) == Piece::Pawn ==> after.halfmove == 0,
        mv.flag.spec_promo_piece() is Some ==> after.halfmove == 0,
        !mv.flag.spec_is_capture() && moving_piece(pos, mv) != Piece::Pawn && mv.flag.spec_promo_piece() is None
            ==> after.halfmove == pos.halfmove + 1,
{
}

/// A move that takes an enemy piece standing on its destination sets the
/// fifty-move clock to 0.
pub proof fn law_taking_resets_halfmove(pos: Position, mv: Move, after: Position)
    requires
        pos.board_wf(),
        move_consistent(pos, mv),
        make_result(pos, mv, after),
        bit(pos.occ[1 - pos.stm.spec_index()], mv.to as u64),
    ensures
        after.halfmove == 0,
{
    lemma_bit_or(pos.occ[0], pos.occ[1], mv.to as u64);
}

impl Position {
    fn clear_castle_for_square(&mut self, sq: u8)
        ensures
            final(self).castling == clear_corner(old(self).castling, sq),
            final(self).pieces == old(self).pieces,
            final(self).occ == old(self).occ,
            final(self).all == old(self).all,
            final(self).stm == old(self).stm,
            final(self).ep == old(self).ep,
            final(self).halfmove == old(self).halfmove,
            final(self).fullmove == old(self).fullmove,
            final(self).hash == old(self).hash,
            final(self).history_view() == old(self).history_view(),
    {
        if sq == 0 {
            self.castling = self.castling & !castle::WQ;
        } else if sq == 7 {
            self.castling = self.castling & !castle::WK;
        } else if sq == 56 {
            self.castling = self.castling & !castle::BQ;
        } else if sq == 63 {
            self.castling = self.castling & !castle::BK;
        }
    }

    fn make_board_move(&mut self, mv: Move, piece: Piece)
        requires
            make_ok(*old(self), mv),
            mv.flag == MoveFlag::Quiet || mv.flag == MoveFlag::DoublePush,
            mv.flag == MoveFlag::Quiet ==> piece == moving_piece(*old(self), mv),
            mv.flag == MoveFlag::DoublePush ==> piece == Piece::Pawn,
        ensures
            board_after(*old(self), mv, *final(self)),
    {
        reveal(make_pieces);
        reveal(make_occ);
        reveal(make_all);
        reveal(make_piece_hash);
        reveal(unmake_pieces);
        reveal(unmake_occ);
        reveal(unmake_all);
        let us = self.stm;
        self.move_piece(us, piece, mv.from, mv.to);
    }

    fn make_board_capture(&mut self, mv: Move, moving: Piece, cap: Piece)
        requires
            make_ok(*old(self), mv),
            mv.flag == MoveFlag::Capture,
            moving == moving_piece(*old(self), mv),
            captured_piece(*old(self), mv) == Some(cap),
        ensures
            board_after(*old(self), mv, *final(self)),
    {
        reveal(make_pieces);
        reveal(make_occ);
        reveal(make_all);
        reveal(make_piece_hash);
        reveal(unmake_pieces);
        reveal(unmake_occ);
        reveal(unmake_all);
        let us = self.stm;
        let them = us.flip();
        self.clear_piece(them, cap, mv.to);
        self.move_piece(us, moving, mv.from, mv.to);
    }

    fn make_board_ep(&mut self, mv: Move)
        requires
            make_ok(*old(self), mv),
            mv.flag == MoveFlag::EnPassant,
        ensures
            board_after(*old(self), mv, *final(self)),
    {
        reveal(make_pieces);
        reveal(make_occ);
        reveal(make_all);
        reveal(make_piece_hash);
        reveal(unmake_pieces);
        reveal(unmake_occ);
        reveal(unmake_all);
        let us = self.stm;
        let them = us.flip();
        let to = mv.to;
        self.move_piece(us, Piece::Pawn, mv.from, to);
        let capsq = if us == Color::White { to - 8 } else { to + 8 };
        self.clear_piece(them, Piece::Pawn, capsq);
    }

    fn make_board_castle(&mut self, mv: Move)
        requires
            make_ok(*old(self), mv),
            is_castle(mv.flag),
        ensures
            board_after(*old(self), mv, *final(self)),
    {
        reveal(make_pieces);
        reveal(make_occ);
        reveal(make_all);
        reveal(make_piece_hash);
        reveal(unmake_pieces);
        reveal(unmake_occ);
        reveal(unmake_all);
        let us = self.stm;
        self.move_piece(us, Piece::King, mv.from, mv.to);
        let (rf, rt) = if mv.flag == MoveFlag::KingCastle {
            if us == Color::White { (7u8, 5u8) } else { (63u8, 61u8) }
        } else {
            if us == Color::White { (0u8, 3u8) } else { (56u8, 59u8) }
        };
        self.move_piece(us, Piece::Rook, rf, rt);
    }

    fn make_board_promo(&mut self, mv: Move)
        requires
            make_ok(*old(self), mv),
            is_promo(mv.flag),
        ensures
            board_after(*old(self), mv, *final(self)),
    {
        reveal(make_pieces);
        reveal(make_occ);
        reveal(make_all);
        reveal(make_piece_hash);
        reveal(unmake_pieces);
        reveal(unmake_occ);
        reveal(unmake_all);
        let us = self.stm;
        let them = us.flip();
        let ghost p0 = *self;
        let capture = mv.flag.is_capture();
        let cap = if capture { self.piece_at_color(them, mv.to).unwrap() } else { Piece::Pawn };
        self.clear_piece(us, Piece::Pawn, mv.from);
        if capture {
            assert(Some(cap) == captured_piece(p0, mv));
            self.clear_piece(them, cap, mv.to);
        }
        self.set_piece(us, mv.flag.promo_piece().unwrap(), mv.to);
    }

    /// Play `mv` (which must be consistent with the board; see `make_ok`).
    pub fn make(&mut self, mv: Move)
        requires
            old(self).wf(),
            make_ok(*old(self), mv),
        ensures
            make_result(*old(self), mv, *final(self)),
            move_consistent(*old(self), mv) ==> final(self).wf() && unmake_ok(*final(self)),
    {
        reveal(make_hash);
        reveal(make_castling);
        let ghost p0 = *self;
        let us = self.stm;
        let them = us.flip();
        let from = mv.from;
        let to = mv.to;
        let moving = self.piece_at_color(us, from).unwrap();
        let prev_castling = self.castling;
        let prev_ep = self.ep;
        let prev_halfmove = self.halfmove;
        let prev_hash = self.hash;
        let captured: Option<Piece> = match mv.flag {
            MoveFlag::Quiet => {
                self.make_board_move(mv, moving);
                None
            },
            MoveFlag::DoublePush => {
                self.make_board_move(mv, Piece::Pawn);
                None
            },
            MoveFlag::Capture => {
                let cap = self.piece_at_color(them, to).unwrap();
                self.make_board_capture(mv, moving, cap);
                Some(cap)
            },
            MoveFlag::EnPassant => {
                self.make_board_ep(mv);
                Some(Piece::Pawn)
            },
            MoveFlag::KingCastle | MoveFlag::QueenCastle => {
                self.make_board_castle(mv);
                None
            },
            _ => {
                // Promotion (with or without capture).
                let cap = if mv.flag.is_capture() { self.piece_at_color(them, to) } else { None };
                self.make_board_promo(mv);
                cap
            },
        };
        assert(captured == captured_piece(p0, mv));
        self.ep = if mv.flag == MoveFlag::DoublePush {
            Some(if us == Color::White { to - 8 } else { to + 8 })
        } else {
            None
        };
        // Castling rights.
        if moving == Piece::King {
            let mask = if us == Color::White { castle::WK | castle::WQ } else { castle::BK | castle::BQ };
            self.castling = self.castling & !mask;
        }
        self.clear_castle_for_square(from);
        self.clear_castle_for_square(to);
        self.halfmove = if moving == Piece::Pawn || captured.is_some() || mv.flag.promo_piece().is_some() {
            0
        } else {
            self.halfmove + 1
        };
        if us == Color::Black {
            self.fullmove = self.fullmove + 1;
        }
        self.stm = them;
        proof {
            lemma_make_castling_range(p0, mv);
        }
        self.hash = self.hash ^ zobrist_output(769);
        let cn = self.castling;
        self.hash = self.hash ^ (castling_key_exec(prev_castling) ^ castling_key_exec(cn));
        let en = self.ep;
        self.hash = self.hash ^ (ep_key(prev_ep) ^ ep_key(en));
        self.history.push(Undo { mv, captured, prev_castling, prev_ep, prev_halfmove, prev_hash });
        proof {
            if move_consistent(p0, mv) {
                lemma_make_wf(p0, mv, *self);
            }
        }
    }
}

/// Castling rights stay a 4-bit value.
proof fn lemma_make_castling_range(pos: Position, mv: Move)
    requires
        pos.castling < 16,
    ensures
        make_castling(pos, mv) < 16,
{
    reveal(make_castling);
    let c0 = pos.castling;
    assert(c0 < 16 ==> c0 & !(castle::WK | castle::WQ) < 16 && c0 & !(castle::BK | castle::BQ) < 16) by (bit_vector);
    assert(forall|c: u8| c < 16 ==> #[trigger] clear_corner(c, mv.from) < 16) by {
        assert forall|c: u8| c < 16 implies #[trigger] clear_corner(c, mv.from) < 16 by {
            assert(c < 16 ==> c & !castle::WQ < 16 && c & !castle::WK < 16 && c & !castle::BQ < 16 && c & !castle::BK < 16) by (bit_vector);
        }
    }
    assert(forall|c: u8| c < 16 ==> #[trigger] clear_corner(c, mv.to) < 16) by {
        assert forall|c: u8| c < 16 implies #[trigger] clear_corner(c, mv.to) < 16 by {
            assert(c < 16 ==> c & !castle::WQ < 16 && c & !castle::WK < 16 && c & !castle::BQ < 16 && c & !castle::BK < 16) by (bit_vector);
        }
    }
}

/// The bitboards and hash of `after` are those of `pos` with `mv` applied;
/// other fields are unchanged.
pub open spec fn board_after(pos: Position, mv: Move, after: Position) -> bool {
    &&& forall|c: int, p: int| 0 <= c < 2 && 0 <= p < 6 ==> #[trigger] after.pieces[c][p] == make_pieces(pos, mv, c, p)
    &&& after.occ[0] == make_occ(pos, mv, 0)
    &&& after.occ[1] == make_occ(pos, mv, 1)
    &&& after.all == make_all(pos, mv)
    &&& after.hash == make_piece_hash(pos, mv)
    &&& same_meta(pos, after)
}

} // verus!

verus! {

/// The most recent undo record.
pub open spec fn last_undo(pos: Position) -> Undo {
    pos.history_view().last()
}

/// The side that made the last move.
pub open spec fn mover(pos: Position) -> Color {
    pos.stm.spec_flip()
}

/// Bitboard (c, p) after taking back the last move.
#[verifier::opaque]
pub open spec fn unmake_pieces(pos: Position, c: int, p: int) -> u64 {
    let u = last_undo(pos);
    let mv = u.mv;
    let usc = mover(pos);
    let us = usc.spec_index();
    let them = 1 - us;
    let x = pos.pieces[c][p];
    let f = mv.from as u64;
    let t = mv.to as u64;
    let ks = mv.flag == MoveFlag::KingCastle;
    let m = match piece_on(pos.pieces, us, t) { Some(q) => q.spec_index(), None => 0 };
    match mv.flag {
        MoveFlag::Quiet | MoveFlag::DoublePush => if c == us && p == m { put(del(x, t), f) } else { x },
        MoveFlag::Capture => if c == us && p == m {
            put(del(x, t), f)
        } else if c == them && Some(piece_of_index(p)) == u.captured {
            put(x, t)
        } else {
            x
        },
        MoveFlag::EnPassant => if c == us && p == 0 {
            put(del(x, t), f)
        } else if c == them && p == 0 {
            put(x, behind(usc, mv.to) as u64)
        } else {
            x
        },
        MoveFlag::KingCastle | MoveFlag::QueenCastle => if c == us && p == 5 {
            put(del(x, t), f)
        } else if c == us && p == 3 {
            put(del(x, castle_rook_to(usc, ks) as u64), castle_rook_from(usc, ks) as u64)
        } else {
            x
        },
        _ => if c == us && Some(piece_of_index(p)) == mv.flag.spec_promo_piece() {
            del(x, t)
        } else if c == us && p == 0 {
            put(x, f)
        } else if c == them && is_promo_capture(mv.flag) && Some(piece_of_index(p)) == u.captured {
            put(x, t)
        } else {
            x
        },
    }
}

/// Occupancy of color index `c` after taking back the last move.
#[verifier::opaque]
pub open spec fn unmake_occ(pos: Position, c: int) -> u64 {
    let u = last_undo(pos);
    let mv = u.mv;
    let usc = mover(pos);
    let o = pos.occ[c];
    let f = mv.from as u64;
    let t = mv.to as u64;
    let ks = mv.flag == MoveFlag::KingCastle;
    if c == usc.spec_index() {
        if is_castle(mv.flag) {
            put(del(put(del(o, t), f), castle_rook_to(usc, ks) as u64), castle_rook_from(usc, ks) as u64)
        } else {
            put(del(o, t), f)
        }
    } else {
        if mv.flag == MoveFlag::Capture || is_promo_capture(mv.flag) {
            put(o, t)
        } else if mv.flag == MoveFlag::EnPassant {
            put(o, behind(usc, mv.to) as u64)
        } else {
            o
        }
    }
}

/// All-occupancy after taking back the last move.
#[verifier::opaque]
pub open spec fn unmake_all(pos: Position) -> u64 {
    let u = last_undo(pos);
    let mv = u.mv;
    let usc = mover(pos);
    let a = pos.all;
    let f = mv.from as u64;
    let t = mv.to as u64;
    let ks = mv.flag == MoveFlag::KingCastle;
    if mv.flag == MoveFlag::Capture || is_promo_capture(mv.flag) {
        put(put(del(a, t), f), t)
    } else if mv.flag == MoveFlag::EnPassant {
        put(put(del(a, t), f), behind(usc, mv.to) as u64)
    } else if is_castle(mv.flag) {
        put(del(put(del(a, t), f), castle_rook_to(usc, ks) as u64), castle_rook_from(usc, ks) as u64)
    } else {
        put(del(a, t), f)
    }
}

/// `unmake()` can run on `pos` without a panic.
pub open spec fn unmake_ok(pos: Position) -> bool {
    let u = last_undo(pos);
    let usc = mover(pos);
    &&& pos.history_view().len() > 0
    &&& (u.mv.flag == MoveFlag::Quiet || u.mv.flag == MoveFlag::DoublePush || u.mv.flag == MoveFlag::Capture)
        ==> piece_on(pos.pieces, usc.spec_index(), u.mv.to as u64) is Some
    &&& (u.mv.flag == MoveFlag::Capture || is_promo_capture(u.mv.flag)) ==> u.captured is Some
    &&& u.mv.flag == MoveFlag::EnPassant ==> 0 <= behind(usc, u.mv.to) < 64
    &&& usc == Color::Black ==> pos.fullmove >= 1
}

/// `after` is `pos` with its last move taken back.
pub open spec fn unmake_result(pos: Position, after: Position) -> bool {
    let u = last_undo(pos);
    let usc = mover(pos);
    &&& forall|c: int, p: int| 0 <= c < 2 && 0 <= p < 6 ==> #[trigger] after.pieces[c][p] == unmake_pieces(pos, c, p)
    &&& after.occ[0] == unmake_occ(pos, 0)
    &&& after.occ[1] == unmake_occ(pos, 1)
    &&& after.all == unmake_all(pos)
    &&& after.stm == usc
    &&& after.castling == u.prev_castling
    &&& after.ep == u.prev_ep
    &&& after.halfmove == u.prev_halfmove
    &&& after.fullmove == (if usc == Color::Black { (pos.fullmove - 1) as u16 } else { pos.fullmove })
    &&& after.hash == u.prev_hash
    &&& after.history_view() == pos.history_view().drop_last()
}

/// The bitboards of `after` are those of `pos` with its last move taken back.
pub open spec fn board_before(pos: Position, after: Position) -> bool {
    &&& forall|c: int, p: int| 0 <= c < 2 && 0 <= p < 6 ==> #[trigger] after.pieces[c][p] == unmake_pieces(pos, c, p)
    &&& after.occ[0] == unmake_occ(pos, 0)
    &&& after.occ[1] == unmake_occ(pos, 1)
    &&& after.all == unmake_all(pos)
    &&& same_meta(pos, after)
}

impl Position {
    fn unmake_board_move(&mut self, u: Undo, moving: Piece)
        requires
            old(self).wf(),
            unmake_ok(*old(self)),
            u == last_undo(*old(self)),
            u.mv.flag == MoveFlag::Quiet || u.mv.flag == MoveFlag::DoublePush || u.mv.flag == MoveFlag::Capture,
            Some(moving) == piece_on(old(self).pieces, mover(*old(self)).spec_index(), u.mv.to as u64),
        ensures
            board_before(*old(self), *final(self)),
    {
        reveal(make_pieces);
        reveal(make_occ);
        reveal(make_all);
        reveal(make_piece_hash);
        reveal(unmake_pieces);
        reveal(unmake_occ);
        reveal(unmake_all);
        let us = self.stm.flip();
        let them = us.flip();
        let ghost p0 = *self;
        let ghost ui = p0.history_view().len() - 1;
        assert(undo_wf(p0.history_view()[ui]));
        self.move_piece(us, moving, u.mv.to, u.mv.from);
        if u.mv.flag == MoveFlag::Capture {
            self.set_piece(them, u.captured.unwrap(), u.mv.to);
        }
    }

    fn unmake_board_ep(&mut self, u: Undo)
        requires
            old(self).wf(),
            unmake_ok(*old(self)),
            u == last_undo(*old(self)),
            u.mv.flag == MoveFlag::EnPassant,
        ensures
            board_before(*old(self), *final(self)),
    {
        reveal(make_pieces);
        reveal(make_occ);
        reveal(make_all);
        reveal(make_piece_hash);
        reveal(unmake_pieces);
        reveal(unmake_occ);
        reveal(unmake_all);
        let us = self.stm.flip();
        let them = us.flip();
        let to = u.mv.to;
        let ghost p0 = *self;
        let ghost ui = p0.history_view().len() - 1;
        assert(undo_wf(p0.history_view()[ui]));
        self.move_piece(us, Piece::Pawn, to, u.mv.from);
        let capsq = if us == Color::White { to - 8 } else { to + 8 };
        self.set_piece(them, Piece::Pawn, capsq);
    }

    fn unmake_board_castle(&mut self, u: Undo)
        requires
            old(self).wf(),
            unmake_ok(*old(self)),
            u == last_undo(*old(self)),
            is_castle(u.mv.flag),
        ensures
            board_before(*old(self), *final(self)),
    {
        reveal(make_pieces);
        reveal(make_occ);
        reveal(make_all);
        reveal(make_piece_hash);
        reveal(unmake_pieces);
        reveal(unmake_occ);
        reveal(unmake_all);
        let us = self.stm.flip();
        let ghost p0 = *self;
        let ghost ui = p0.history_view().len() - 1;
        assert(undo_wf(p0.history_view()[ui]));
        self.move_piece(us, Piece::King, u.mv.to, u.mv.from);
        let (rf, rt) = if u.mv.flag == MoveFlag::KingCastle {
            if us == Color::White { (7u8, 5u8) } else { (63u8, 61u8) }
        } else {
            if us == Color::White { (0u8, 3u8) } else { (56u8, 59u8) }
        };
        self.move_piece(us, Piece::Rook, rt, rf);
    }

    fn unmake_board_promo(&mut self, u: Undo)
        requires
            old(self).wf(),
            unmake_ok(*old(self)),
            u == last_undo(*old(self)),
            is_promo(u.mv.flag),
        ensures
            board_before(*old(self), *final(self)),
    {
        reveal(make_pieces);
        reveal(make_occ);
        reveal(make_all);
        reveal(make_piece_hash);
        reveal(unmake_pieces);
        reveal(unmake_occ);
        reveal(unmake_all);
        let us = self.stm.flip();
        let them = us.flip();
        let ghost p0 = *self;
        let ghost ui = p0.history_view().len() - 1;
        assert(undo_wf(p0.history_view()[ui]));
        self.clear_piece(us, u.mv.flag.promo_piece().unwrap(), u.mv.to);
        self.set_piece(us, Piece::Pawn, u.mv.from);
        if u.mv.flag.is_capture() {
            self.set_piece(them, u.captured.unwrap(), u.mv.to);
        }
    }

    /// Take back the last move made.
    pub fn unmake(&mut self)
        requires
            old(self).wf(),
            unmake_ok(*old(self)),
        ensures
            unmake_result(*old(self), *final(self)),
    {
        let ghost p0 = *self;
        let n = self.history.len();
        let undo = self.history[n - 1];
        let us = self.stm.flip();
        let mv = undo.mv;
        proof {
            assert(undo_wf(p0.history_view()[n - 1]));
        }
        match mv.flag {
            MoveFlag::Quiet | MoveFlag::DoublePush | MoveFlag::Capture => {
                let moving = self.piece_at_color(us, mv.to).unwrap();
                self.unmake_board_move(undo, moving);
            },
            MoveFlag::EnPassant => self.unmake_board_ep(undo),
            MoveFlag::KingCastle | MoveFlag::QueenCastle => self.unmake_board_castle(undo),
            _ => self.unmake_board_promo(undo),
        }
        if us == Color::Black {
            self.fullmove = self.fullmove - 1;
        }
        self.stm = us;
        self.castling = undo.prev_castling;
        self.ep = undo.prev_ep;
        self.halfmove = undo.prev_halfmove;
        // Restoring the recorded hash wipes out the piece-key xors applied during
        // the restore moves above.
        self.hash = undo.prev_hash;
        self.history.pop();
    }
}

} // verus!

verus! {

/// `mv` is consistent with the board of `pos`: the moving piece stands on
/// `from`, the destination (and, for castling, the rook's destination) is free
/// unless the move captures there, and the captured piece stands where the move
/// takes it. Every move the generator produces is consistent.
pub open spec fn move_consistent(pos: Position, mv: Move) -> bool {
    let us = pos.stm.spec_index();
    let them = 1 - us;
    let f = mv.from as u64;
    let t = mv.to as u64;
    let ks = mv.flag == MoveFlag::KingCastle;
    &&& make_ok(pos, mv)
    &&& mv.from != mv.to
    &&& (mv.flag == MoveFlag::Capture || is_promo_capture(mv.flag)) ==> bit(pos.occ[them], t)
    &&& !(mv.flag == MoveFlag::Capture || is_promo_capture(mv.flag)) ==> !bit(pos.all, t)
    &&& (mv.flag == MoveFlag::DoublePush || mv.flag == MoveFlag::EnPassant || is_promo(mv.flag)) ==> bit(pos.pieces[us][0], f)
    &&& mv.flag == MoveFlag::EnPassant ==> bit(pos.pieces[them][0], behind(pos.stm, mv.to) as u64)
    &&& is_castle(mv.flag) ==> {
        let rf = castle_rook_from(pos.stm, ks);
        let rt = castle_rook_to(pos.stm, ks);
        &&& bit(pos.pieces[us][5], f)
        &&& bit(pos.pieces[us][3], rf as u64)
        &&& !bit(pos.all, rt as u64)
        &&& rf != mv.from && rf != mv.to && rt != mv.from && rt != mv.to
    }
}

} // verus!

verus! {

/// The moving piece stands on `from`.
proof fn lemma_moving_on(p0: Position, mv: Move)
    requires
        p0.wf(),
        make_ok(p0, mv),
    ensures
        bit(p0.pieces[p0.stm.spec_index()][moving_piece(p0, mv).spec_index()], mv.from as u64),
        piece_on(p0.pieces, p0.stm.spec_index(), mv.from as u64) == Some(moving_piece(p0, mv)),
        bit(p0.occ[p0.stm.spec_index()], mv.from as u64),
        bit(p0.all, mv.from as u64),
{
    let us = p0.stm.spec_index();
    lemma_disjoint_square(p0.pieces, mv.from as u64);
    lemma_piece_on(p0.pieces, us, mv.from as u64);
    lemma_board_bits_from_wf(p0);
    assert(square_ok(p0, mv.from as u64));
    lemma_union6_bit(p0.pieces[us], mv.from as u64);
}

/// The captured piece stands on `to`.
proof fn lemma_captured_on(p0: Position, mv: Move)
    requires
        p0.wf(),
        make_ok(p0, mv),
        mv.flag == MoveFlag::Capture || is_promo_capture(mv.flag),
    ensures
        captured_piece(p0, mv) matches Some(q) && bit(p0.pieces[1 - p0.stm.spec_index()][q.spec_index()], mv.to as u64),
{
    let them = 1 - p0.stm.spec_index();
    lemma_disjoint_square(p0.pieces, mv.to as u64);
    lemma_piece_on(p0.pieces, them, mv.to as u64);
}

/// A square with no occupancy holds no piece.
proof fn lemma_empty_square(p0: Position, s: u64)
    requires
        p0.board_wf(),
        s < 64,
        !bit(p0.all, s),
    ensures
        forall|c: int, q: int| 0 <= c < 2 && 0 <= q < 6 ==> !#[trigger] bit(p0.pieces[c][q], s),
{
    lemma_occ_bits(p0, s);
}

/// A square holding piece (c, q) holds no other piece.
proof fn lemma_owner_square(p0: Position, c: int, q: int, s: u64)
    requires
        p0.board_wf(),
        s < 64,
        0 <= c < 2,
        0 <= q < 6,
        bit(p0.pieces[c][q], s),
    ensures
        forall|c2: int, q2: int| 0 <= c2 < 2 && 0 <= q2 < 6 && (c2 != c || q2 != q) ==> !#[trigger] bit(p0.pieces[c2][q2], s),
{
    lemma_disjoint_square(p0.pieces, s);
}

/// After making a consistent move, the mover's piece on `to` is the one that moved
/// (the pawn for a double push).
#[verifier::spinoff_prover]
proof fn lemma_unmake_moving(p0: Position, mv: Move, p1: Position)
    requires
        p0.wf(),
        move_consistent(p0, mv),
        make_result(p0, mv, p1),
        mv.flag == MoveFlag::Quiet || mv.flag == MoveFlag::DoublePush || mv.flag == MoveFlag::Capture,
    ensures
        piece_on(p1.pieces, p0.stm.spec_index(), mv.to as u64) == Some(moving_piece(p0, mv)),
        mv.flag == MoveFlag::DoublePush ==> moving_piece(p0, mv) == Piece::Pawn,
{
    broadcast use crate::bits::lemma_put_bit, crate::bits::lemma_del_bit;
    let us = p0.stm.spec_index();
    let them = 1 - us;
    let t = mv.to as u64;
    let f = mv.from as u64;
    lemma_moving_on(p0, mv);
    let m = moving_piece(p0, mv).spec_index();
    if mv.flag == MoveFlag::DoublePush {
        lemma_owner_square(p0, us, 0, f);
        assert(moving_piece(p0, mv) == Piece::Pawn);
    }
    if mv.flag == MoveFlag::Capture {
        lemma_captured_on(p0, mv);
        let cq = captured_piece(p0, mv)->Some_0.spec_index();
        lemma_owner_square(p0, them, cq, t);
    } else {
        lemma_empty_square(p0, t);
    }
    assert forall|q: int| 0 <= q < 6 implies #[trigger] bit(p1.pieces[us][q], t) == (q == m) by {
        assert(p1.pieces[us][q] == make_pieces(p0, mv, us, q));
        assert(!bit(p0.pieces[us][q], t));
        if mv.flag == MoveFlag::Quiet || mv.flag == MoveFlag::Capture {
            assert(make_pieces(p0, mv, us, q) == if q == m { put(del(p0.pieces[us][q], f), t) } else { p0.pieces[us][q] }) by {
                reveal(make_pieces);
            }
        } else {
            assert(make_pieces(p0, mv, us, q) == if q == 0 { put(del(p0.pieces[us][q], f), t) } else { p0.pieces[us][q] }) by {
                reveal(make_pieces);
            }
        }
    }
    assert(bit(p1.pieces[us][m], t));
    assert(piece_of_index(m) == moving_piece(p0, mv));
    lemma_piece_on(p1.pieces, us, t);
}

} // verus!

verus! {

/// Taking back a consistent move restores every piece bitboard.
#[verifier::spinoff_prover]
proof fn lemma_roundtrip_pieces(p0: Position, mv: Move, p1: Position, c: int, p: int)
    requires
        p0.wf(),
        move_consistent(p0, mv),
        make_result(p0, mv, p1),
        0 <= c < 2,
        0 <= p < 6,
    ensures
        unmake_pieces(p1, c, p) == p0.pieces[c][p],
{
    broadcast use crate::bits::lemma_put_bit, crate::bits::lemma_del_bit;
    let us = p0.stm.spec_index();
    let them = 1 - us;
    let t = mv.to as u64;
    let f = mv.from as u64;
    let x = p0.pieces[c][p];
    let ks = mv.flag == MoveFlag::KingCastle;
    assert(last_undo(p1) == make_undo(p0, mv));
    assert(mover(p1) == p0.stm);
    lemma_moving_on(p0, mv);
    let m = moving_piece(p0, mv).spec_index();
    if mv.flag == MoveFlag::Quiet || mv.flag == MoveFlag::DoublePush || mv.flag == MoveFlag::Capture {
        lemma_unmake_moving(p0, mv, p1);
    }
    if mv.flag == MoveFlag::Capture || is_promo_capture(mv.flag) {
        lemma_captured_on(p0, mv);
        let cq = captured_piece(p0, mv)->Some_0.spec_index();
        lemma_owner_square(p0, them, cq, t);
    } else {
        lemma_empty_square(p0, t);
    }
    if is_castle(mv.flag) {
        lemma_empty_square(p0, castle_rook_to(p0.stm, ks) as u64);
    }
    assert(p1.pieces[c][p] == make_pieces(p0, mv, c, p));
    let y = unmake_pieces(p1, c, p);
    assert forall|s: u64| s < 64 implies #[trigger] bit(y, s) == bit(x, s) by {
        reveal(make_pieces);
        reveal(unmake_pieces);
    }
    crate::bits::lemma_bits_ext(y, x);
}

} // verus!

verus! {

/// Square facts of a consistent move at the word level of the occupancy fields.
proof fn lemma_consistent_occ(p0: Position, mv: Move)
    requires
        p0.wf(),
        move_consistent(p0, mv),
    ensures
        ({
            let us = p0.stm.spec_index();
            let them = 1 - us;
            let t = mv.to as u64;
            let f = mv.from as u64;
            let ks = mv.flag == MoveFlag::KingCastle;
            let rf = castle_rook_from(p0.stm, ks) as u64;
            let rt = castle_rook_to(p0.stm, ks) as u64;
            let b = behind(p0.stm, mv.to) as u64;
            &&& bit(p0.occ[us], f)
            &&& bit(p0.all, f)
            &&& !bit(p0.occ[them], f)
            &&& !bit(p0.occ[us], t)
            &&& ((mv.flag == MoveFlag::Capture || is_promo_capture(mv.flag)) ==> bit(p0.occ[them], t) && bit(p0.all, t))
            &&& (!(mv.flag == MoveFlag::Capture || is_promo_capture(mv.flag)) ==> !bit(p0.occ[them], t) && !bit(p0.all, t))
            &&& (mv.flag == MoveFlag::EnPassant ==> bit(p0.occ[them], b) && bit(p0.all, b) && !bit(p0.occ[us], b) && b != t && b != f)
            &&& (is_castle(mv.flag) ==> bit(p0.occ[us], rf) && bit(p0.all, rf) && !bit(p0.occ[us], rt) && !bit(p0.occ[them], rt)
                && !bit(p0.all, rt) && !bit(p0.occ[them], rf))
        }),
{
    let us = p0.stm.spec_index();
    let them = 1 - us;
    let t = mv.to as u64;
    let f = mv.from as u64;
    let ks = mv.flag == MoveFlag::KingCastle;
    let rf = castle_rook_from(p0.stm, ks) as u64;
    let rt = castle_rook_to(p0.stm, ks) as u64;
    let b = behind(p0.stm, mv.to) as u64;
    lemma_moving_on(p0, mv);
    let m = moving_piece(p0, mv).spec_index();
    lemma_owner_square(p0, us, m, f);
    lemma_occ_bits(p0, f);
    lemma_occ_bits(p0, t);
    if mv.flag == MoveFlag::Capture || is_promo_capture(mv.flag) {
        lemma_captured_on(p0, mv);
        let cq = captured_piece(p0, mv)->Some_0.spec_index();
        lemma_owner_square(p0, them, cq, t);
        assert(bit(p0.pieces[them][cq], t));
    } else {
        lemma_empty_square(p0, t);
    }
    if mv.flag == MoveFlag::EnPassant {
        lemma_owner_square(p0, them, 0, b);
        lemma_occ_bits(p0, b);
        assert(bit(p0.pieces[them][0], b));
    }
    if is_castle(mv.flag) {
        lemma_owner_square(p0, us, 3, rf);
        lemma_occ_bits(p0, rf);
        assert(bit(p0.pieces[us][3], rf));
        lemma_empty_square(p0, rt);
        lemma_occ_bits(p0, rt);
    }
    assert(bit(p0.pieces[us][m], f));
}

/// Taking back a consistent move restores the occupancy fields.
#[verifier::spinoff_prover]
proof fn lemma_roundtrip_occ(p0: Position, mv: Move, p1: Position)
    requires
        p0.wf(),
        move_consistent(p0, mv),
        make_result(p0, mv, p1),
    ensures
        unmake_occ(p1, 0) == p0.occ[0],
        unmake_occ(p1, 1) == p0.occ[1],
        unmake_all(p1) == p0.all,
{
    broadcast use crate::bits::lemma_put_bit, crate::bits::lemma_del_bit;
    assert(last_undo(p1) == make_undo(p0, mv));
    assert(mover(p1) == p0.stm);
    lemma_consistent_occ(p0, mv);
    let y0 = unmake_occ(p1, 0);
    let y1 = unmake_occ(p1, 1);
    let ya = unmake_all(p1);
    assert forall|s: u64| s < 64 implies #[trigger] bit(y0, s) == bit(p0.occ[0], s) by {
        reveal(make_occ);
        reveal(unmake_occ);
    }
    assert forall|s: u64| s < 64 implies #[trigger] bit(y1, s) == bit(p0.occ[1], s) by {
        reveal(make_occ);
        reveal(unmake_occ);
    }
    assert forall|s: u64| s < 64 implies #[trigger] bit(ya, s) == bit(p0.all, s) by {
        reveal(make_all);
        reveal(unmake_all);
    }
    crate::bits::lemma_bits_ext(y0, p0.occ[0]);
    crate::bits::lemma_bits_ext(y1, p0.occ[1]);
    crate::bits::lemma_bits_ext(ya, p0.all);
}

} // verus!

verus! {

/// The (color index, piece index) standing on `s`, if any.
pub open spec fn content(pos: Position, s: u64) -> Option<(int, int)> {
    match spec_piece_at(pos, s) {
        Some((c, p)) => Some((c.spec_index(), p.spec_index())),
        None => None,
    }
}

/// The piece that stands on `to` after the move.
pub open spec fn placed_piece(pos: Position, mv: Move) -> int {
    if is_promo(mv.flag) {
        mv.flag.spec_promo_piece()->Some_0.spec_index()
    } else if mv.flag == MoveFlag::DoublePush || mv.flag == MoveFlag::EnPassant {
        0
    } else if is_castle(mv.flag) {
        5
    } else {
        moving_piece(pos, mv).spec_index()
    }
}

/// The content of square `s` after making `mv`.
pub open spec fn content_after(pos: Position, mv: Move, s: u64) -> Option<(int, int)> {
    let us = pos.stm.spec_index();
    let ks = mv.flag == MoveFlag::KingCastle;
    if s == mv.to as u64 {
        Some((us, placed_piece(pos, mv)))
    } else if s == mv.from as u64 {
        None
    } else if mv.flag == MoveFlag::EnPassant && s == behind(pos.stm, mv.to) as u64 {
        None
    } else if is_castle(mv.flag) && s == castle_rook_from(pos.stm, ks) as u64 {
        None
    } else if is_castle(mv.flag) && s == castle_rook_to(pos.stm, ks) as u64 {
        Some((us, 3))
    } else {
        content(pos, s)
    }
}

/// On a well-formed board, bitboard membership is the square's content.
proof fn lemma_content_bits(pos: Position, s: u64)
    requires
        pos.board_wf(),
        s < 64,
    ensures
        forall|c: int, p: int| 0 <= c < 2 && 0 <= p < 6 ==> #[trigger] bit(pos.pieces[c][p], s) == (content(pos, s) == Some((c, p))),
        bit(pos.occ[0], s) == (content(pos, s) matches Some((c, _)) && c == 0),
        bit(pos.occ[1], s) == (content(pos, s) matches Some((c, _)) && c == 1),
        bit(pos.all, s) == (content(pos, s) is Some),
        content(pos, s) matches Some((c, p)) ==> 0 <= c < 2 && 0 <= p < 6,
{
    lemma_disjoint_square(pos.pieces, s);
    lemma_piece_on(pos.pieces, 0, s);
    lemma_piece_on(pos.pieces, 1, s);
    lemma_occ_bits(pos, s);
    assert forall|c: int, p: int| 0 <= c < 2 && 0 <= p < 6 implies #[trigger] bit(pos.pieces[c][p], s) == (content(pos, s) == Some((c, p))) by {
        if bit(pos.pieces[c][p], s) {
            assert(piece_of_index(p).spec_index() == p);
        }
        match piece_on(pos.pieces, 0, s) {
            Some(q) => { assert(bit(pos.pieces[0][q.spec_index()], s)); },
            None => {
                match piece_on(pos.pieces, 1, s) {
                    Some(q) => { assert(bit(pos.pieces[1][q.spec_index()], s)); },
                    None => {},
                }
            },
        }
    }
    match piece_on(pos.pieces, 0, s) {
        Some(q) => { assert(bit(pos.pieces[0][q.spec_index()], s)); },
        None => {
            match piece_on(pos.pieces, 1, s) {
                Some(q) => { assert(bit(pos.pieces[1][q.spec_index()], s)); },
                None => {},
            }
        },
    }
}

} // verus!

verus! {

/// Square contents around a consistent move.
proof fn lemma_consistent_content(p0: Position, mv: Move)
    requires
        p0.wf(),
        move_consistent(p0, mv),
    ensures
        ({
            let us = p0.stm.spec_index();
            let them = 1 - us;
            let ks = mv.flag == MoveFlag::KingCastle;
            &&& content(p0, mv.from as u64) == Some((us, moving_piece(p0, mv).spec_index()))
            &&& ((mv.flag == MoveFlag::Capture || is_promo_capture(mv.flag)) ==> content(p0, mv.to as u64) == Some((them, captured_piece(p0, mv)->Some_0.spec_index())))
            &&& (!(mv.flag == MoveFlag::Capture || is_promo_capture(mv.flag)) ==> content(p0, mv.to as u64) is None)
            &&& (mv.flag == MoveFlag::EnPassant ==> content(p0, behind(p0.stm, mv.to) as u64) == Some((them, 0int)))
            &&& (is_castle(mv.flag) ==> content(p0, castle_rook_from(p0.stm, ks) as u64) == Some((us, 3int))
                && content(p0, castle_rook_to(p0.stm, ks) as u64) is None)
            &&& ((mv.flag == MoveFlag::DoublePush || mv.flag == MoveFlag::EnPassant || is_promo(mv.flag)) ==> moving_piece(p0, mv) == Piece::Pawn)
            &&& (is_castle(mv.flag) ==> moving_piece(p0, mv) == Piece::King)
        }),
{
    let us = p0.stm.spec_index();
    let them = 1 - us;
    let ks = mv.flag == MoveFlag::KingCastle;
    lemma_moving_on(p0, mv);
    let m = moving_piece(p0, mv).spec_index();
    lemma_content_bits(p0, mv.from as u64);
    lemma_content_bits(p0, mv.to as u64);
    assert(bit(p0.pieces[us][m], mv.from as u64));
    if mv.flag == MoveFlag::Capture || is_promo_capture(mv.flag) {
        lemma_captured_on(p0, mv);
        let cq = captured_piece(p0, mv)->Some_0.spec_index();
        assert(bit(p0.pieces[them][cq], mv.to as u64));
    }
    if mv.flag == MoveFlag::EnPassant {
        lemma_content_bits(p0, behind(p0.stm, mv.to) as u64);
        assert(bit(p0.pieces[them][0], behind(p0.stm, mv.to) as u64));
    }
    if is_castle(mv.flag) {
        lemma_content_bits(p0, castle_rook_from(p0.stm, ks) as u64);
        lemma_content_bits(p0, castle_rook_to(p0.stm, ks) as u64);
        assert(bit(p0.pieces[us][3], castle_rook_from(p0.stm, ks) as u64));
        assert(bit(p0.pieces[us][5], mv.from as u64));
    }
    if mv.flag == MoveFlag::DoublePush || mv.flag == MoveFlag::EnPassant || is_promo(mv.flag) {
        assert(bit(p0.pieces[us][0], mv.from as u64));
    }
}

/// After a consistent move each square holds its `content_after` value.
#[verifier::spinoff_prover]
proof fn lemma_make_square(p0: Position, mv: Move, p1: Position, s: u64)
    requires
        p0.wf(),
        move_consistent(p0, mv),
        make_result(p0, mv, p1),
        s < 64,
    ensures
        forall|c: int, p: int| 0 <= c < 2 && 0 <= p < 6 ==> #[trigger] bit(p1.pieces[c][p], s) == (content_after(p0, mv, s) == Some((c, p))),
        bit(p1.occ[0], s) == (content_after(p0, mv, s) matches Some((c, _)) && c == 0),
        bit(p1.occ[1], s) == (content_after(p0, mv, s) matches Some((c, _)) && c == 1),
        bit(p1.all, s) == (content_after(p0, mv, s) is Some),
{
    broadcast use crate::bits::lemma_put_bit, crate::bits::lemma_del_bit;
    lemma_consistent_content(p0, mv);
    lemma_content_bits(p0, s);
    lemma_consistent_occ(p0, mv);
    let us = p0.stm.spec_index();
    assert forall|c: int, p: int| 0 <= c < 2 && 0 <= p < 6 implies #[trigger] bit(p1.pieces[c][p], s) == (content_after(p0, mv, s) == Some((c, p))) by {
        assert(p1.pieces[c][p] == make_pieces(p0, mv, c, p));
        reveal(make_pieces);
        if is_promo(mv.flag) {
            assert(piece_of_index(placed_piece(p0, mv)) == mv.flag.spec_promo_piece()->Some_0);
        }
        if mv.flag == MoveFlag::Capture || is_promo_capture(mv.flag) {
            assert(piece_of_index(captured_piece(p0, mv)->Some_0.spec_index()) == captured_piece(p0, mv)->Some_0);
        }
    }
    assert(bit(p1.occ[0], s) == (content_after(p0, mv, s) matches Some((c, _)) && c == 0)) by {
        reveal(make_occ);
    }
    assert(bit(p1.occ[1], s) == (content_after(p0, mv, s) matches Some((c, _)) && c == 1)) by {
        reveal(make_occ);
    }
    assert(bit(p1.all, s) == (content_after(p0, mv, s) is Some)) by {
        reveal(make_all);
    }
}

} // verus!

verus! {

/// Making a consistent move keeps the position well formed and leaves an undo
/// record that `unmake` can take back.
pub proof fn lemma_make_wf(p0: Position, mv: Move, p1: Position)
    requires
        p0.wf(),
        move_consistent(p0, mv),
        make_result(p0, mv, p1),
    ensures
        p1.wf(),
        unmake_ok(p1),
{
    lemma_consistent_content(p0, mv);
    assert forall|s: u64| s < 64 implies #[trigger] square_ok(p1, s) by {
        lemma_make_square(p0, mv, p1, s);
        lemma_content_bits(p0, s);
        lemma_union6_bit(p1.pieces[0], s);
        lemma_union6_bit(p1.pieces[1], s);
        let ca = content_after(p0, mv, s);
        if ca is Some {
            let (c, p) = ca->Some_0;
            assert(0 <= c < 2 && 0 <= p < 6);
            assert(bit(p1.pieces[c][p], s));
        }
    }
    lemma_make_castling_range(p0, mv);
    lemma_board_wf_from_bits(p1);
    assert(last_undo(p1) == make_undo(p0, mv));
    assert forall|i: int| 0 <= i < p1.history_view().len() implies #[trigger] undo_wf(p1.history_view()[i]) by {
        if i < p0.history_view().len() {
            assert(p1.history_view()[i] == p0.history_view()[i]);
        }
    }
    if mv.flag == MoveFlag::Quiet || mv.flag == MoveFlag::DoublePush || mv.flag == MoveFlag::Capture {
        lemma_unmake_moving(p0, mv, p1);
    }
}

/// Make/unmake is exact: taking back a consistent move restores the position
/// (bitboards, side to move, castling rights, en-passant square, move clocks,
/// hash and undo stack).
pub proof fn lemma_make_unmake(p0: Position, mv: Move, p1: Position, p2: Position)
    requires
        p0.wf(),
        move_consistent(p0, mv),
        make_result(p0, mv, p1),
        unmake_result(p1, p2),
    ensures
        p2.same_state(p0),
{
    assert(last_undo(p1) == make_undo(p0, mv));
    lemma_roundtrip_occ(p0, mv, p1);
    assert forall|c: int, p: int| 0 <= c < 2 && 0 <= p < 6 implies #[trigger] p2.pieces[c][p] == p0.pieces[c][p] by {
        lemma_roundtrip_pieces(p0, mv, p1, c, p);
    }
    assert(p2.pieces[0] =~= p0.pieces[0]);
    assert(p2.pieces[1] =~= p0.pieces[1]);
    assert(p2.pieces =~= p0.pieces);
    assert(p2.occ =~= p0.occ);
    assert(p2.history_view() =~= p0.history_view());
}

} // verus!

verus! {

impl Position {
    /// A copy of the position, undo stack included.
    pub fn duplicate(&self) -> (p: Position)
        ensures
            p.same_state(*self),
    {
        let mut history: Vec<Undo> = Vec::new();
        let n = self.history.len();
        let mut i: usize = 0;
        while i < n
            invariant
                n == self.history_view().len(),
                i <= n,
                history@ == self.history_view().take(i as int),
            decreases n - i,
        {
            history.push(self.history[i]);
            assert(self.history_view().take(i + 1) =~= self.history_view().take(i as int).push(self.history_view()[i as int]));
            i = i + 1;
        }
        assert(self.history_view().take(n as int) =~= self.history_view());
        Position {
            pieces: self.pieces,
            occ: self.occ,
            all: self.all,
            stm: self.stm,
            castling: self.castling,
            ep: self.ep,
            halfmove: self.halfmove,
            fullmove: self.fullmove,
            hash: self.hash,
            history,
        }
    }

    /// True when the current position already occurred earlier in the
    /// make/unmake history (same Zobrist hash, which includes side-to-move,
    /// castling and ep-file). Only the reversible window matters: nothing
    /// before the last pawn move/capture (halfmove reset) can repeat. One
    /// prior occurrence is enough for the search to treat the node as a draw.
    pub fn is_repetition(&self) -> (r: bool)
        ensures
            r == exists|i: int|
                self.history_view().len() - self.halfmove <= i < self.history_view().len() && 0 <= i
                    && #[trigger] self.history_view()[i].prev_hash == self.hash,
    {
        let n = self.history.len();
        let window = self.halfmove as usize;
        let mut k: usize = 0;
        while k < window && k < n
            invariant
                n == self.history_view().len(),
                window == self.halfmove,
                k <= n,
                forall|i: int| n - k <= i < n ==> #[trigger] self.history_view()[i].prev_hash != self.hash,
            decreases n - k,
        {
            if self.history[n - 1 - k].prev_hash == self.hash {
                return true;
            }
            k = k + 1;
        }
        false
    }
}

} // verus!
