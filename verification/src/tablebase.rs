//! What the library hands to a Syzygy tablebase probe and how it reads the
//! answer back: the position as the eight bitboards the prober takes, and the
//! root move it suggests matched against the legal moves. The probe itself
//! reads table files and is made by the caller.
use vstd::prelude::*;
use crate::movegen::{generate_legal, legal_move, movable};
use crate::position::Position;
use crate::{Color, Move, Piece};

verus! {

/// The position in the form the prober takes.
#[derive(Clone, Copy, Debug)]
pub struct ProbeInputs {
    pub white: u64,
    pub black: u64,
    pub kings: u64,
    pub queens: u64,
    pub rooks: u64,
    pub bishops: u64,
    pub knights: u64,
    pub pawns: u64,
    /// The en-passant square, 0 when there is none.
    pub ep: u32,
    /// White is to move.
    pub turn: bool,
    /// The half-move clock.
    pub rule50: u32,
}

pub open spec fn both(pos: Position, p: int) -> u64 {
    pos.pieces[0][p] | pos.pieces[1][p]
}

pub open spec fn inputs_of(pos: Position, r: ProbeInputs) -> bool {
    &&& r.white == pos.occ[0]
    &&& r.black == pos.occ[1]
    &&& r.kings == both(pos, 5)
    &&& r.queens == both(pos, 4)
    &&& r.rooks == both(pos, 3)
    &&& r.bishops == both(pos, 2)
    &&& r.knights == both(pos, 1)
    &&& r.pawns == both(pos, 0)
    &&& r.ep == (match pos.ep {
        Some(s) => s as u32,
        None => 0u32,
    })
    &&& r.turn == (pos.stm == Color::White)
    &&& r.rule50 == pos.halfmove as u32
}

/// The probe inputs of `pos`; none while castling rights remain (the tables
/// hold no castling positions).
pub fn probe_inputs(pos: &Position) -> (r: Option<ProbeInputs>)
    ensures
        pos.castling != 0 <==> r is None,
        r matches Some(i) ==> inputs_of(*pos, i),
{
    if pos.castling != 0 {
        return None;
    }
    let ep: u32 = match pos.ep {
        Some(s) => s as u32,
        None => 0,
    };
    Some(ProbeInputs {
        white: pos.occ[0],
        black: pos.occ[1],
        kings: pos.pieces[0][5] | pos.pieces[1][5],
        queens: pos.pieces[0][4] | pos.pieces[1][4],
        rooks: pos.pieces[0][3] | pos.pieces[1][3],
        bishops: pos.pieces[0][2] | pos.pieces[1][2],
        knights: pos.pieces[0][1] | pos.pieces[1][1],
        pawns: pos.pieces[0][0] | pos.pieces[1][0],
        ep,
        turn: pos.stm == Color::White,
        rule50: pos.halfmove as u32,
    })
}

/// A legal move with the suggested squares and promotion piece (none for a
/// plain move).
pub open spec fn suggested(pos: Position, from: u8, to: u8, promo: Option<Piece>, m: Move) -> bool {
    legal_move(pos, m) && m.from == from && m.to == to && m.flag.spec_promo_piece() == promo
}

/// The legal move that a root probe suggests, if one matches.
pub fn root_move(pos: &mut Position, from: u8, to: u8, promo: Option<Piece>) -> (r: Option<Move>)
    requires
        movable(*old(pos)),
    ensures
        final(pos).same_state(*old(pos)),
        r matches Some(m) ==> suggested(*old(pos), from, to, promo, m),
        r is None ==> forall|m: Move| !#[trigger] suggested(*old(pos), from, to, promo, m),
{
    let ghost p0 = *pos;
    let legal = generate_legal(pos);
    let mut i: usize = 0;
    while i < legal.len()
        invariant
            i <= legal@.len(),
            p0 == *old(pos),
            pos.same_state(p0),
            forall|m: Move| legal@.contains(m) <==> #[trigger] legal_move(p0, m),
            forall|j: int| 0 <= j < i ==> !#[trigger] suggested(p0, from, to, promo, legal@[j]),
        decreases legal@.len() - i,
    {
        let m = legal[i];
        assert(legal@.contains(m));
        assert(legal_move(p0, m));
        if m.from == from && m.to == to && m.flag.promo_piece() == promo {
            return Some(m);
        }
        i = i + 1;
    }
    proof {
        assert forall|m: Move| !#[trigger] suggested(p0, from, to, promo, m) by {
            if suggested(p0, from, to, promo, m) {
                assert(legal@.contains(m));
                let j = choose|j: int| 0 <= j < legal@.len() && legal@[j] == m;
                assert(!suggested(p0, from, to, promo, legal@[j]));
            }
        }
    }
    None
}

} // verus!
