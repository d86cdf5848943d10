//! Piece references for the fact builders.
use vstd::prelude::*;
use crate::attacks::{abs, attacker_on, attackers_of, square_attacked};
use crate::facts::position::{
    analysable, analysis_probe, ascending_filter, lemma_filter_len, lemma_filters_agree, lemma_probe_movable, name_order_filter, names_of,
    occupied_members, position_for_analysis_side, refs_from_bitboard, refs_match, side, side_spec, square_in_name_order,
    square_name, square_name_spec, stm_king_attacked_by,
};
use crate::facts::types::{CaptureOpportunity, FactCollection, FactValue, KingSafetyFact, PieceFact, PieceRef, PieceType, SeeLosingFact};
use crate::movegen::{generate_legal, king_square, legal_move, movable};
use crate::position::{spec_piece_at, Position};
use crate::bits::bit;
use crate::see::{see, see_spec};
use crate::{uci_text, all_pieces, piece_of_index, Color, Move, MoveFlag, Piece};
use crate::order::{key_sorted, lemma_sorted_by_key, sort_by_key, sorted_by_key, text_lt};
use crate::perft::{after, lemma_board_moves, lemma_child, perft_ok, ready, same_board};

verus! {

pub open spec fn color_word(color: Color) -> Seq<char> {
    match color {
        Color::White => "white"@,
        Color::Black => "black"@,
    }
}

pub open spec fn piece_word(piece: Piece) -> Seq<char> {
    match piece {
        Piece::Pawn => "pawn"@,
        Piece::Knight => "knight"@,
        Piece::Bishop => "bishop"@,
        Piece::Rook => "rook"@,
        Piece::Queen => "queen"@,
        Piece::King => "king"@,
    }
}

pub open spec fn piece_type_spec(piece: Piece) -> PieceType {
    match piece {
        Piece::Pawn => PieceType::Pawn,
        Piece::Knight => PieceType::Knight,
        Piece::Bishop => PieceType::Bishop,
        Piece::Rook => PieceType::Rook,
        Piece::Queen => PieceType::Queen,
        Piece::King => PieceType::King,
    }
}

/// `r` refers to a piece of `color` and type `piece` on `square`, with the id
/// `<color>-<piece>-<square>`.
pub open spec fn piece_ref_spec(color: Color, piece: Piece, square: u8, r: PieceRef) -> bool {
    &&& r.id@ == color_word(color) + "-"@ + piece_word(piece) + "-"@ + square_name_spec(square)
    &&& r.side == side_spec(color)
    &&& r.piece_type == piece_type_spec(piece)
    &&& r.square@ == square_name_spec(square)
}

pub fn piece_ref(color: Color, piece: Piece, square: u8) -> (r: PieceRef)
    ensures
        piece_ref_spec(color, piece, square, r),
{
    let side_name = match color {
        Color::White => "white",
        Color::Black => "black",
    };
    let piece_name = match piece {
        Piece::Pawn => "pawn",
        Piece::Knight => "knight",
        Piece::Bishop => "bishop",
        Piece::Rook => "rook",
        Piece::Queen => "queen",
        Piece::King => "king",
    };
    let mut id = String::from_str(side_name);
    id.append("-");
    id.append(piece_name);
    id.append("-");
    let sq = square_name(square);
    id.append(sq.as_str());
    let piece_type = match piece {
        Piece::Pawn => PieceType::Pawn,
        Piece::Knight => PieceType::Knight,
        Piece::Bishop => PieceType::Bishop,
        Piece::Rook => PieceType::Rook,
        Piece::Queen => PieceType::Queen,
        Piece::King => PieceType::King,
    };
    PieceRef { id, side: side(color), piece_type, square: square_name(square) }
}

} // verus!

verus! {

/// `t` is `k` or one of its neighbours.
pub open spec fn in_zone(k: int, t: int) -> bool {
    abs(t % 8 - k % 8) <= 1 && abs(t / 8 - k / 8) <= 1
}

/// The squares, holding a piece, from which the other side attacks `c`'s king, ascending.
pub open spec fn king_attackers(pos: Position, c: Color) -> Seq<u8> {
    let k = king_square(pos.pieces, c.spec_index());
    ascending_filter(|t: u8| attacker_on(pos.pieces, c.spec_flip(), t as u64, k, pos.all) && spec_piece_at(pos, t as u64) is Some, 64)
}

/// The squares around `c`'s king (its own square included) that the other side
/// attacks, in name order.
pub open spec fn pressured(pos: Position, c: Color) -> Seq<u8> {
    let k = king_square(pos.pieces, c.spec_index());
    name_order_filter(|t: u8| in_zone(k, t as int) && square_attacked(pos.pieces, t as int, c.spec_flip(), pos.all), 64)
}

/// The squares that a legal move of `p` from `k` reaches, in name order.
pub open spec fn legal_targets_from(p: Position, k: int) -> Seq<u8> {
    name_order_filter(|t: u8| exists|m: Move| #[trigger] legal_move(p, m) && m.from as int == k && m.to == t, 64)
}

/// The escape squares of `c`'s king: refused for the side not to move while
/// the side to move is in check, else the legal king targets of the probe with
/// `c` to move.
pub open spec fn escapes_fact(pos: Position, c: Color, col: FactCollection<String>) -> bool {
    let k = king_square(pos.pieces, c.spec_index());
    match col {
        FactCollection::Computed { items } => !(pos.stm != c && stm_king_attacked_by(pos, c)) && exists|p: Position|
            #[trigger] analysis_probe(pos, c, p) && names_of(items@, legal_targets_from(p, k)),
        FactCollection::Unavailable { reason } => pos.stm != c && stm_king_attacked_by(pos, c) && reason@
            == "opposite_side_probe_while_in_check"@,
        _ => false,
    }
}

pub open spec fn king_fact(pos: Position, c: Color, f: KingSafetyFact) -> bool {
    let k = king_square(pos.pieces, c.spec_index());
    &&& f.side == side_spec(c)
    &&& f.king_square@ == square_name_spec(k as u8)
    &&& refs_match(pos, f.attackers@, king_attackers(pos, c))
    &&& f.in_check == (king_attackers(pos, c).len() > 0)
    &&& names_of(f.pressured_squares@, pressured(pos, c))
    &&& escapes_fact(pos, c, f.legal_escape_squares)
}

/// The attacked squares around the king on `k` of `c`, in name order.
fn zone_pressure(pos: &Position, k: u8, c: Color) -> (names: Vec<String>)
    requires
        k < 64,
        k as int == king_square(pos.pieces, c.spec_index()),
    ensures
        names_of(names@, pressured(*pos, c)),
{
    let ghost keep = |t: u8| in_zone(k as int, t as int) && square_attacked(pos.pieces, t as int, c.spec_flip(), pos.all);
    let mut out: Vec<String> = Vec::new();
    let mut n: u32 = 0;
    while n < 64
        invariant
            n <= 64,
            k < 64,
            keep == (|t: u8| in_zone(k as int, t as int) && square_attacked(pos.pieces, t as int, c.spec_flip(), pos.all)),
            names_of(out@, name_order_filter(keep, n as nat)),
        decreases 64 - n,
    {
        let t = square_in_name_order(n);
        let df = (t % 8) as i32 - (k % 8) as i32;
        let dr = (t / 8) as i32 - (k / 8) as i32;
        let near = -1 <= df && df <= 1 && -1 <= dr && dr <= 1;
        let mut hit = false;
        if near {
            let a = attackers_of(&pos.pieces, t, c.flip(), pos.all);
            proof {
                if a != 0 {
                    crate::bits::lemma_nonzero_has_bit(a);
                    let w = choose|w: u64| w < 64 && #[trigger] crate::bits::bit(a, w);
                    assert(attacker_on(pos.pieces, c.spec_flip(), w, t as int, pos.all));
                } else {
                    crate::bits::lemma_zero_no_bit(a);
                    assert forall|w: u64| w < 64 implies !#[trigger] attacker_on(pos.pieces, c.spec_flip(), w, t as int, pos.all) by {
                        assert(!crate::bits::bit(a, w));
                    }
                }
            }
            hit = a != 0;
        }
        assert(keep(t) == hit);
        let ghost before = out@;
        if hit {
            out.push(square_name(t));
            assert forall|i: int| 0 <= i < out@.len() implies #[trigger] out@[i]@ == square_name_spec(
                name_order_filter(keep, (n + 1) as nat)[i]) by {
                if i < before.len() {
                    assert(out@[i] == before[i]);
                }
            }
        }
        n = n + 1;
    }
    out
}

/// The squares that legal moves of `p` from `k` reach, in name order.
fn legal_targets(p: &mut Position, k: u8) -> (names: Vec<String>)
    requires
        movable(*old(p)),
    ensures
        names_of(names@, legal_targets_from(*old(p), k as int)),
{
    let ghost p0 = *p;
    let legal = generate_legal(p);
    let ghost keep = |t: u8| exists|m: Move| #[trigger] legal_move(p0, m) && m.from as int == k as int && m.to == t;
    let mut out: Vec<String> = Vec::new();
    let mut n: u32 = 0;
    while n < 64
        invariant
            n <= 64,
            keep == (|t: u8| exists|m: Move| #[trigger] legal_move(p0, m) && m.from as int == k as int && m.to == t),
            forall|m: Move| legal@.contains(m) <==> #[trigger] legal_move(p0, m),
            names_of(out@, name_order_filter(keep, n as nat)),
        decreases 64 - n,
    {
        let t = square_in_name_order(n);
        let mut found = false;
        let mut i: usize = 0;
        while i < legal.len()
            invariant
                i <= legal@.len(),
                !found ==> forall|j: int| 0 <= j < i ==> !(#[trigger] legal@[j].from == k && legal@[j].to == t),
                found ==> keep(t),
                keep == (|t: u8| exists|m: Move| #[trigger] legal_move(p0, m) && m.from as int == k as int && m.to == t),
                forall|m: Move| legal@.contains(m) <==> #[trigger] legal_move(p0, m),
            decreases legal@.len() - i,
        {
            let m = legal[i];
            if m.from == k && m.to == t {
                assert(legal@.contains(m));
                assert(legal_move(p0, m));
                found = true;
            }
            i = i + 1;
        }
        proof {
            if !found && keep(t) {
                let m = choose|m: Move| #[trigger] legal_move(p0, m) && m.from as int == k as int && m.to == t;
                assert(legal@.contains(m));
                let j = choose|j: int| 0 <= j < legal@.len() && legal@[j] == m;
                assert(!(legal@[j].from == k && legal@[j].to == t));
            }
        }
        let ghost before = out@;
        if found {
            out.push(square_name(t));
            assert forall|i: int| 0 <= i < out@.len() implies #[trigger] out@[i]@ == square_name_spec(
                name_order_filter(keep, (n + 1) as nat)[i]) by {
                if i < before.len() {
                    assert(out@[i] == before[i]);
                }
            }
        }
        n = n + 1;
    }
    out
}

/// The safety fact of `c`'s king.
fn king_safety_fact(pos: &Position, c: Color) -> (f: KingSafetyFact)
    requires
        analysable(*pos),
    ensures
        king_fact(*pos, c, f),
{
    let k = pos.king_sq(c);
    let a = attackers_of(&pos.pieces, k, c.flip(), pos.all);
    let attackers = refs_from_bitboard(pos, a);
    proof {
        lemma_filters_agree(
            |t: u8| crate::bits::bit(a, t as u64) && spec_piece_at(*pos, t as u64) is Some,
            |t: u8| attacker_on(pos.pieces, c.spec_flip(), t as u64, k as int, pos.all) && spec_piece_at(*pos, t as u64) is Some,
            64,
        );
    }
    let pressured_squares = zone_pressure(pos, k, c);
    let legal_escape_squares = match position_for_analysis_side(pos, c) {
        Ok(probe) => {
            let mut probe = probe;
            proof {
                lemma_probe_movable(*pos, c, probe);
            }
            let ghost p0 = probe;
            let names = legal_targets(&mut probe, k);
            assert(analysis_probe(*pos, c, p0) && names_of(names@, legal_targets_from(p0, k as int)));
            FactCollection::computed(names)
        },
        Err(reason) => FactCollection::unavailable(reason),
    };
    let in_check = attackers.len() > 0;
    KingSafetyFact { side: side(c), king_square: square_name(k), in_check, attackers, pressured_squares, legal_escape_squares }
}

/// Both kings' safety, White first.
pub open spec fn king_safety_result(pos: Position, col: FactCollection<KingSafetyFact>) -> bool {
    match col {
        FactCollection::Computed { items } => items@.len() == 2 && king_fact(pos, Color::White, items@[0]) && king_fact(
            pos,
            Color::Black,
            items@[1],
        ),
        _ => false,
    }
}

/// For each king, White first: the pieces attacking it (lowest square first),
/// whether it is in check, the attacked squares of its zone (its own square
/// and neighbours) in name order, and the squares its legal moves reach in name
/// order (refused for the side not to move while the side to move is in check).
pub fn king_safety_facts(pos: &Position) -> (col: FactCollection<KingSafetyFact>)
    requires
        analysable(*pos),
    ensures
        king_safety_result(*pos, col),
{
    let white = king_safety_fact(pos, Color::White);
    let black = king_safety_fact(pos, Color::Black);
    let mut facts: Vec<KingSafetyFact> = Vec::new();
    facts.push(white);
    facts.push(black);
    FactCollection::computed(facts)
}

} // verus!

verus! {

/// A legal capture of the side to move onto `t`.
pub open spec fn capture_onto(pos: Position, t: int, m: Move) -> bool {
    legal_move(pos, m) && m.to as int == t && m.flag.spec_is_capture()
}

/// `f` reports the best legal capture onto `t` by static exchange: its score
/// (the greatest), the move of one capture that reaches it, and whether the
/// score is a gain; nothing when no capture lands there.
pub open spec fn see_losing_ok(pos: Position, t: int, f: SeeLosingFact) -> bool {
    if exists|m: Move| #[trigger] capture_onto(pos, t, m) {
        &&& f.score_cp is Some
        &&& forall|m: Move| #[trigger] capture_onto(pos, t, m) ==> see_spec(pos, m.from, m.to) <= f.score_cp.unwrap()
        &&& f.best_capture_uci is Some
        &&& exists|m: Move| #[trigger] capture_onto(pos, t, m) && see_spec(pos, m.from, m.to) == f.score_cp.unwrap()
            && f.best_capture_uci.unwrap()@ == uci_text(m)
        &&& f.losing == (f.score_cp.unwrap() > 0)
    } else {
        f.score_cp is None && f.best_capture_uci is None && !f.losing
    }
}

/// The best capture onto `target` for the side to move.
fn see_losing_for_target(pos: &Position, target: u8) -> (f: SeeLosingFact)
    requires
        movable(*pos),
    ensures
        see_losing_ok(*pos, target as int, f),
{
    let mut probe = pos.duplicate();
    proof {
        crate::movegen::lemma_same_state_moves(probe, *pos);
    }
    let legal = generate_legal(&mut probe);
    let mut best_uci: Option<String> = None;
    let mut best_score: Option<i32> = None;
    let mut i: usize = 0;
    while i < legal.len()
        invariant
            i <= legal@.len(),
            movable(*pos),
            forall|m: Move| legal@.contains(m) <==> #[trigger] legal_move(*pos, m),
            best_score is Some == best_uci is Some,
            best_score is None ==> forall|j: int| 0 <= j < i ==> !#[trigger] capture_onto(*pos, target as int, legal@[j]),
            best_score is Some ==> {
                &&& forall|j: int| 0 <= j < i && #[trigger] capture_onto(*pos, target as int, legal@[j]) ==> see_spec(
                    *pos,
                    legal@[j].from,
                    legal@[j].to,
                ) <= best_score.unwrap()
                &&& exists|m: Move| #[trigger] capture_onto(*pos, target as int, m) && see_spec(*pos, m.from, m.to)
                    == best_score.unwrap() && best_uci.unwrap()@ == uci_text(m)
            },
        decreases legal@.len() - i,
    {
        let m = legal[i];
        assert(legal@.contains(m));
        assert(legal_move(*pos, m));
        if m.to == target && m.flag.is_capture() {
            proof {
                crate::movegen::lemma_pseudo_consistent(*pos, m);
            }
            let score = see(pos, m.from, m.to);
            let better = match best_score {
                Some(b) => score > b,
                None => true,
            };
            if better {
                best_uci = Some(m.to_uci());
                best_score = Some(score);
                assert(capture_onto(*pos, target as int, m));
            }
        }
        i = i + 1;
    }
    proof {
        if best_score is None {
            assert forall|m: Move| !#[trigger] capture_onto(*pos, target as int, m) by {
                if capture_onto(*pos, target as int, m) {
                    assert(legal@.contains(m));
                    let j = choose|j: int| 0 <= j < legal@.len() && legal@[j] == m;
                    assert(!capture_onto(*pos, target as int, legal@[j]));
                }
            }
        } else {
            assert forall|m: Move| #[trigger] capture_onto(*pos, target as int, m) implies see_spec(*pos, m.from, m.to)
                <= best_score.unwrap() by {
                assert(legal@.contains(m));
                let j = choose|j: int| 0 <= j < legal@.len() && legal@[j] == m;
                assert(capture_onto(*pos, target as int, legal@[j]));
            }
        }
    }
    let losing = match best_score {
        Some(b) => b > 0,
        None => false,
    };
    SeeLosingFact { losing, best_capture_uci: best_uci, score_cp: best_score }
}

} // verus!

verus! {

/// Piece types in the order of their words: bishop, king, knight, pawn, queen, rook.
pub open spec fn piece_word_order(k: int) -> int {
    if k == 0 { 2 } else if k == 1 { 5 } else if k == 2 { 1 } else if k == 3 { 0 } else if k == 4 { 4 } else { 3 }
}

pub(crate) fn piece_in_word_order(k: u32) -> (p: usize)
    requires
        k < 6,
    ensures
        p == piece_word_order(k as int),
{
    if k == 0 { 2 } else if k == 1 { 5 } else if k == 2 { 1 } else if k == 3 { 0 } else if k == 4 { 4 } else { 3 }
}

/// The squares of `side`'s pieces (other than on `sq` itself) that attack `sq`.
pub open spec fn guards(pos: Position, side: Color, sq: int, u: u64) -> bool {
    attacker_on(pos.pieces, side, u, sq, pos.all) && u as int != sq
}

/// The piece of `c` on `t` is defended by the piece on `d` and by no other.
pub open spec fn only_defended_by(pos: Position, c: Color, t: int, d: int) -> bool {
    forall|u: u64| u < 64 ==> #[trigger] guards(pos, c, t, u) == (u as int == d)
}

/// Candidate `n` of the 6 * 64 (piece type, square) pairs of one side, in the
/// order of their ids.
pub open spec fn own_candidate(n: int) -> (int, int) {
    (piece_word_order(n / 64), crate::facts::position::name_order_square(n % 64))
}

/// The pieces of `c` that only the piece on `d` defends, among the first `n`
/// candidates, in id order.
pub open spec fn only_defended(pos: Position, c: Color, d: int, n: nat) -> Seq<(int, u8)>
    decreases n,
{
    if n == 0 {
        Seq::empty()
    } else {
        let prev = only_defended(pos, c, d, (n - 1) as nat);
        let (p, t) = own_candidate(n - 1);
        if bit(pos.pieces[c.spec_index()][p], t as u64) && t != d && only_defended_by(pos, c, t, d) {
            prev.push((p, t as u8))
        } else {
            prev
        }
    }
}

/// `refs` refer to the pieces of `c` given as (type, square), in order.
pub open spec fn typed_refs(c: Color, refs: Seq<PieceRef>, pieces: Seq<(int, u8)>) -> bool {
    &&& refs.len() == pieces.len()
    &&& forall|i: int| 0 <= i < refs.len() ==> #[trigger] piece_ref_spec(c, piece_of_index(pieces[i].0), pieces[i].1, refs[i])
}

/// The defenders of the piece on `t`: the attack set of `c` on `t` without `t`.
pub(crate) fn guard_set(pos: &Position, c: Color, t: u8) -> (g: u64)
    requires
        t < 64,
    ensures
        forall|u: u64| u < 64 ==> #[trigger] bit(g, u) == guards(*pos, c, t as int, u),
{
    let a = attackers_of(&pos.pieces, t, c, pos.all);
    let g = a & !(1u64 << (t as u64));
    proof {
        assert forall|u: u64| u < 64 implies #[trigger] bit(g, u) == guards(*pos, c, t as int, u) by {
            crate::bits::lemma_bit_and(a, !(1u64 << (t as u64)), u);
            crate::bits::lemma_bit_not(1u64 << (t as u64), u);
            crate::bits::lemma_bit_single(t as u64, u);
        }
    }
    g
}

/// The pieces of `c` whose only defender stands on `d`, in id order.
fn only_defender_targets(pos: &Position, c: Color, d: u8) -> (refs: Vec<PieceRef>)
    requires
        d < 64,
    ensures
        typed_refs(c, refs@, only_defended(*pos, c, d as int, 384)),
{
    let mut out: Vec<PieceRef> = Vec::new();
    let pieces = all_pieces();
    let mut n: u32 = 0;
    while n < 384
        invariant
            n <= 384,
            d < 64,
            forall|i: int| 0 <= i < 6 ==> #[trigger] pieces[i] == piece_of_index(i),
            typed_refs(c, out@, only_defended(*pos, c, d as int, n as nat)),
        decreases 384 - n,
    {
        let p = piece_in_word_order(n / 64);
        let t = square_in_name_order(n % 64);
        assert(own_candidate(n as int) == (p as int, t as int));
        let ghost before = out@;
        if pos.pieces[c.index()][p] & (1u64 << (t as u64)) != 0 && t != d {
            let g = guard_set(pos, c, t);
            let single = 1u64 << (d as u64);
            proof {
                assert forall|u: u64| u < 64 implies #[trigger] bit(single, u) == (u as int == d as int) by {
                    crate::bits::lemma_bit_single(d as u64, u);
                }
                if g == single {
                    assert forall|u: u64| u < 64 implies #[trigger] guards(*pos, c, t as int, u) == (u as int == d as int) by {
                        assert(bit(g, u) == bit(single, u));
                    }
                } else {
                    if only_defended_by(*pos, c, t as int, d as int) {
                        assert forall|u: u64| u < 64 implies #[trigger] bit(g, u) == bit(single, u) by {
                            assert(guards(*pos, c, t as int, u) == (u as int == d as int));
                        }
                        crate::bits::lemma_bits_ext(g, single);
                    }
                }
            }
            if g == single {
                out.push(piece_ref(c, pieces[p], t));
                assert forall|i: int| 0 <= i < out@.len() implies #[trigger] piece_ref_spec(
                    c,
                    piece_of_index(only_defended(*pos, c, d as int, (n + 1) as nat)[i].0),
                    only_defended(*pos, c, d as int, (n + 1) as nat)[i].1,
                    out@[i],
                ) by {
                    if i < before.len() {
                        assert(out@[i] == before[i]);
                    }
                }
            }
        }
        n = n + 1;
    }
    out
}

} // verus!

verus! {

/// Candidate `n` of the 2 * 6 * 64 (color, piece type, square) triples, in
/// the order of their ids (black before white).
pub open spec fn piece_candidate(n: int) -> (Color, int, int) {
    (if n / 384 == 0 { Color::Black } else { Color::White }, own_candidate(n % 384).0, own_candidate(n % 384).1)
}

/// The pieces on the board among the first `n` candidates, in id order.
pub open spec fn board_pieces(pos: Position, n: nat) -> Seq<(Color, int, u8)>
    decreases n,
{
    if n == 0 {
        Seq::empty()
    } else {
        let prev = board_pieces(pos, (n - 1) as nat);
        let (c, p, t) = piece_candidate(n - 1);
        if bit(pos.pieces[c.spec_index()][p], t as u64) {
            prev.push((c, p, t as u8))
        } else {
            prev
        }
    }
}

/// The squares, holding a piece, from which `side` attacks `t`, ascending.
pub open spec fn attacker_squares(pos: Position, side: Color, t: int) -> Seq<u8> {
    ascending_filter(|u: u8| attacker_on(pos.pieces, side, u as u64, t, pos.all) && spec_piece_at(pos, u as u64) is Some, 64)
}

/// The squares, holding a piece, from which `c` defends its piece on `t`, ascending.
pub open spec fn defender_squares(pos: Position, c: Color, t: int) -> Seq<u8> {
    ascending_filter(|u: u8| guards(pos, c, t, u as u64) && spec_piece_at(pos, u as u64) is Some, 64)
}

/// The exchange report of a piece: only for pieces of the side not to move.
pub open spec fn see_fact(pos: Position, c: Color, t: int, v: FactValue<SeeLosingFact>) -> bool {
    match v {
        FactValue::Computed { value } => c != pos.stm && see_losing_ok(pos, t, value),
        FactValue::Unavailable { reason } => c == pos.stm && reason@ == "piece_not_capturable_by_side_to_move"@,
        _ => false,
    }
}

pub open spec fn piece_fact_ok(pos: Position, c: Color, p: int, t: u8, f: PieceFact) -> bool {
    let att = attacker_squares(pos, c.spec_flip(), t as int);
    let def = defender_squares(pos, c, t as int);
    &&& piece_ref_spec(c, piece_of_index(p), t, f.piece)
    &&& refs_match(pos, f.attackers@, att)
    &&& refs_match(pos, f.defenders@, def)
    &&& f.attacker_count == att.len()
    &&& f.defender_count == def.len()
    &&& f.attacked == (att.len() > 0)
    &&& f.loose == (def.len() == 0)
    &&& see_fact(pos, c, t as int, f.see)
    &&& typed_refs(c, f.only_defender_of@, only_defended(pos, c, t as int, 384))
}

/// The fact of the piece of `c` and type `p` on `t`.
fn piece_fact(pos: &Position, c: Color, p: usize, t: u8) -> (f: PieceFact)
    requires
        movable(*pos),
        p < 6,
        t < 64,
    ensures
        piece_fact_ok(*pos, c, p as int, t, f),
{
    let pieces = all_pieces();
    let a = attackers_of(&pos.pieces, t, c.flip(), pos.all);
    let attackers = refs_from_bitboard(pos, a);
    proof {
        lemma_filters_agree(
            |u: u8| bit(a, u as u64) && spec_piece_at(*pos, u as u64) is Some,
            |u: u8| attacker_on(pos.pieces, c.spec_flip(), u as u64, t as int, pos.all) && spec_piece_at(*pos, u as u64) is Some,
            64,
        );
    }
    let g = guard_set(pos, c, t);
    let defenders = refs_from_bitboard(pos, g);
    proof {
        lemma_filters_agree(
            |u: u8| bit(g, u as u64) && spec_piece_at(*pos, u as u64) is Some,
            |u: u8| guards(*pos, c, t as int, u as u64) && spec_piece_at(*pos, u as u64) is Some,
            64,
        );
        lemma_filter_len(|u: u8| attacker_on(pos.pieces, c.spec_flip(), u as u64, t as int, pos.all) && spec_piece_at(*pos, u as u64) is Some, 64);
        lemma_filter_len(|u: u8| guards(*pos, c, t as int, u as u64) && spec_piece_at(*pos, u as u64) is Some, 64);
    }
    let see = if c != pos.stm {
        FactValue::Computed { value: see_losing_for_target(pos, t) }
    } else {
        FactValue::Unavailable { reason: String::from_str("piece_not_capturable_by_side_to_move") }
    };
    let attacker_count = attackers.len() as u32;
    let defender_count = defenders.len() as u32;
    let attacked = attackers.len() > 0;
    let loose = defenders.len() == 0;
    PieceFact {
        piece: piece_ref(c, pieces[p], t),
        attackers,
        defenders,
        attacker_count,
        defender_count,
        attacked,
        loose,
        see,
        only_defender_of: only_defender_targets(pos, c, t),
    }
}

/// `facts` describe the pieces listed in `entries`, one for one.
pub open spec fn piece_facts_follow(pos: Position, facts: Seq<PieceFact>, entries: Seq<(Color, int, u8)>) -> bool {
    &&& facts.len() == entries.len()
    &&& forall|i: int| 0 <= i < facts.len() ==> #[trigger] piece_fact_ok(pos, entries[i].0, entries[i].1, entries[i].2, facts[i])
}

/// Adds the fact of candidate `n`, if a piece stands there.
#[verifier::spinoff_prover]
#[verifier::rlimit(40)]
fn add_piece_fact(pos: &Position, out: &mut Vec<PieceFact>, n: u32)
    requires
        movable(*pos),
        n < 768,
        piece_facts_follow(*pos, old(out)@, board_pieces(*pos, n as nat)),
    ensures
        piece_facts_follow(*pos, final(out)@, board_pieces(*pos, (n + 1) as nat)),
{
    let c = if n / 384 == 0 { Color::Black } else { Color::White };
    let p = piece_in_word_order((n % 384) / 64);
    let t = square_in_name_order(n % 64);
    assert(piece_candidate(n as int) == (c, p as int, t as int));
    let ghost before = out@;
    let ghost prev = board_pieces(*pos, n as nat);
    let ghost next = board_pieces(*pos, (n + 1) as nat);
    if pos.pieces[c.index()][p] & (1u64 << (t as u64)) != 0 {
        assert(next == prev.push((c, p as int, t)));
        let f = piece_fact(pos, c, p, t);
        out.push(f);
        assert forall|i: int| 0 <= i < out@.len() implies #[trigger] piece_fact_ok(*pos, next[i].0, next[i].1, next[i].2, out@[i]) by {
            if i < before.len() {
                assert(out@[i] == before[i]);
                assert(next[i] == prev[i]);
            }
        }
    } else {
        assert(next == prev);
    }
}

/// A fact for every piece on the board, in id order: its attackers and
/// defenders (lowest square first), their counts, whether it is attacked or
/// undefended, the best capture of it by the side to move (for the pieces of
/// the other side), and the pieces of its side that it alone defends.
pub fn piece_facts(pos: &Position) -> (facts: Vec<PieceFact>)
    requires
        movable(*pos),
    ensures
        piece_facts_follow(*pos, facts@, board_pieces(*pos, 768)),
{
    let mut out: Vec<PieceFact> = Vec::new();
    let mut n: u32 = 0;
    while n < 768
        invariant
            n <= 768,
            movable(*pos),
            piece_facts_follow(*pos, out@, board_pieces(*pos, n as nat)),
        decreases 768 - n,
    {
        add_piece_fact(pos, &mut out, n);
        n = n + 1;
    }
    out
}

} // verus!

