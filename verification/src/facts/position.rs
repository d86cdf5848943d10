//! Position-level fact helpers: sides, square names, and the probe that lets
//! either color be analysed as if it were to move.
use vstd::prelude::*;
use crate::attacks::{attackers_of, attacker_on, square_attacked};
use crate::facts::piece_safety::{piece_ref, piece_ref_spec};
use crate::facts::types::{unavailable_because, uncomputed_because, FactCollection, PieceRef, PositionFacts, Side};
use crate::movegen::{king_square, lemma_same_state_moves, movable, pawns_in_range, promo_rank};
use crate::bits::bit;
use crate::position::{Position, spec_piece_at};
use crate::text::push_char;
use crate::Color;

verus! {

pub open spec fn side_spec(color: Color) -> Side {
    match color {
        Color::White => Side::White,
        Color::Black => Side::Black,
    }
}

pub fn side(color: Color) -> (s: Side)
    ensures
        s == side_spec(color),
{
    match color {
        Color::White => Side::White,
        Color::Black => Side::Black,
    }
}

/// The name of a square: its file letter and rank digit (`a1` .. `h8`).
pub open spec fn square_name_spec(square: u8) -> Seq<char> {
    seq![(('a' as u32) + square % 8) as char, (('1' as u32) + square / 8) as char]
}

pub fn square_name(square: u8) -> (s: String)
    ensures
        s@ == square_name_spec(square),
{
    let file = (97u8 + square % 8) as char;
    let rank = (49u8 + square / 8) as char;
    let mut s = String::new();
    push_char(&mut s, file);
    push_char(&mut s, rank);
    assert(s@ =~= square_name_spec(square));
    s
}

/// The reference to the piece on `square`, or none when it is empty.
pub fn piece_ref_for_square(pos: &Position, square: u8) -> (r: Option<PieceRef>)
    requires
        pos.board_wf(),
        square < 64,
    ensures
        match spec_piece_at(*pos, square as u64) {
            Some((c, p)) => r matches Some(pr) && piece_ref_spec(c, p, square, pr),
            None => r is None,
        },
{
    match pos.piece_at(square) {
        Some((color, piece)) => Some(piece_ref(color, piece, square)),
        None => None,
    }
}

/// The king of the side to move is attacked by `requested`.
pub open spec fn stm_king_attacked_by(pos: Position, requested: Color) -> bool {
    square_attacked(pos.pieces, king_square(pos.pieces, pos.stm.spec_index()), requested, pos.all)
}

/// `p` is `pos` with `requested` to move and no en-passant square.
pub open spec fn handed_over(pos: Position, requested: Color, p: Position) -> bool {
    &&& p.pieces == pos.pieces
    &&& p.occ == pos.occ
    &&& p.all == pos.all
    &&& p.stm == requested
    &&& p.castling == pos.castling
    &&& p.ep is None
    &&& p.halfmove == pos.halfmove
    &&& p.fullmove == pos.fullmove
    &&& p.hash == pos.hash
    &&& p.history_view() == pos.history_view()
}

/// A probe of `pos` with `requested` to move. For the other color the probe is
/// refused while the side to move is in check (giving the checking side
/// another turn would allow a king capture), and the en-passant square is
/// cleared, since it belongs only to the actual turn.
pub fn position_for_analysis_side(pos: &Position, requested: Color) -> (r: Result<Position, &'static str>)
    requires
        pos.stm != requested ==> pos.pieces[pos.stm.spec_index()][5] != 0,
    ensures
        match r {
            Ok(p) => if pos.stm == requested {
                p.same_state(*pos)
            } else {
                !stm_king_attacked_by(*pos, requested) && handed_over(*pos, requested, p)
            },
            Err(e) => pos.stm != requested && stm_king_attacked_by(*pos, requested) && e@ == "opposite_side_probe_while_in_check"@,
        },
{
    let mut probe = pos.duplicate();
    if probe.stm != requested {
        let checked_king = probe.king_sq(probe.stm);
        let a = attackers_of(&probe.pieces, checked_king, requested, probe.all);
        proof {
            let sq = checked_king as int;
            if a != 0 {
                crate::bits::lemma_nonzero_has_bit(a);
                let t = choose|t: u64| t < 64 && #[trigger] crate::bits::bit(a, t);
                assert(attacker_on(probe.pieces, requested, t, sq, probe.all));
            } else {
                crate::bits::lemma_zero_no_bit(a);
                assert forall|t: u64| t < 64 implies !#[trigger] attacker_on(probe.pieces, requested, t, sq, probe.all) by {
                    assert(!crate::bits::bit(a, t));
                }
            }
        }
        if a != 0 {
            return Err("opposite_side_probe_while_in_check");
        }
        probe.stm = requested;
        probe.ep = None;
    }
    Ok(probe)
}

} // verus!

verus! {

/// `names` spells the squares of `squares`, in order.
pub open spec fn names_of(names: Seq<String>, squares: Seq<u8>) -> bool {
    &&& names.len() == squares.len()
    &&& forall|i: int| 0 <= i < names.len() ==> #[trigger] names[i]@ == square_name_spec(squares[i])
}

/// Filters that agree on the squares they look at keep the same squares.
pub proof fn lemma_filters_agree(k1: spec_fn(u8) -> bool, k2: spec_fn(u8) -> bool, n: nat)
    requires
        n <= 64,
        forall|t: u8| t < 64 ==> #[trigger] k1(t) == k2(t),
    ensures
        ascending_filter(k1, n) == ascending_filter(k2, n),
        name_order_filter(k1, n) == name_order_filter(k2, n),
    decreases n,
{
    if n > 0 {
        lemma_filters_agree(k1, k2, (n - 1) as nat);
        let t = name_order_square(n - 1) as u8;
        assert(t < 64);
        assert(k1(t) == k2(t));
        assert(k1((n - 1) as u8) == k2((n - 1) as u8));
    }
}

/// A filter of the first `n` squares keeps at most `n`.
pub proof fn lemma_filter_len(keep: spec_fn(u8) -> bool, n: nat)
    ensures
        ascending_filter(keep, n).len() <= n,
        name_order_filter(keep, n).len() <= n,
    decreases n,
{
    if n > 0 {
        lemma_filter_len(keep, (n - 1) as nat);
    }
}

/// Squares in the order of their names: a1, a2, .., a8, b1, .., h8.
pub open spec fn name_order_square(k: int) -> int {
    (k % 8) * 8 + k / 8
}

pub fn square_in_name_order(k: u32) -> (s: u8)
    requires
        k < 64,
    ensures
        s == name_order_square(k as int),
{
    ((k % 8) * 8 + k / 8) as u8
}

/// The squares among the first `n` in name order that satisfy `keep`, in name order.
pub open spec fn name_order_filter(keep: spec_fn(u8) -> bool, n: nat) -> Seq<u8>
    decreases n,
{
    if n == 0 {
        Seq::empty()
    } else {
        let prev = name_order_filter(keep, (n - 1) as nat);
        let t = name_order_square(n - 1) as u8;
        if keep(t) { prev.push(t) } else { prev }
    }
}

/// The squares below `n` that satisfy `keep`, in ascending order.
pub open spec fn ascending_filter(keep: spec_fn(u8) -> bool, n: nat) -> Seq<u8>
    decreases n,
{
    if n == 0 {
        Seq::empty()
    } else {
        let prev = ascending_filter(keep, (n - 1) as nat);
        let t = (n - 1) as u8;
        if keep(t) { prev.push(t) } else { prev }
    }
}

/// `refs` refer to the pieces standing on `squares`, in order.
pub open spec fn refs_match(pos: Position, refs: Seq<PieceRef>, squares: Seq<u8>) -> bool {
    &&& refs.len() == squares.len()
    &&& forall|i: int| 0 <= i < refs.len() ==> #[trigger] piece_ref_spec(
        spec_piece_at(pos, squares[i] as u64).unwrap().0,
        spec_piece_at(pos, squares[i] as u64).unwrap().1,
        squares[i],
        refs[i],
    )
}

/// The squares of the bitboard `bb` that hold a piece, ascending.
pub open spec fn occupied_members(pos: Position, bb: u64) -> Seq<u8> {
    ascending_filter(|t: u8| bit(bb, t as u64) && spec_piece_at(pos, t as u64) is Some, 64)
}

/// References to the pieces on the squares of `bb`, lowest square first.
pub fn refs_from_bitboard(pos: &Position, bb: u64) -> (refs: Vec<PieceRef>)
    requires
        pos.board_wf(),
    ensures
        refs_match(*pos, refs@, occupied_members(*pos, bb)),
{
    let ghost keep = |t: u8| bit(bb, t as u64) && spec_piece_at(*pos, t as u64) is Some;
    let mut out: Vec<PieceRef> = Vec::new();
    let mut s: u8 = 0;
    while s < 64
        invariant
            s <= 64,
            pos.board_wf(),
            keep == (|t: u8| bit(bb, t as u64) && spec_piece_at(*pos, t as u64) is Some),
            refs_match(*pos, out@, ascending_filter(keep, s as nat)),
        decreases 64 - s,
    {
        let ghost before = out@;
        if bb & (1u64 << (s as u64)) != 0 {
            match piece_ref_for_square(pos, s) {
                Some(r) => {
                    out.push(r);
                    assert(keep(s));
                    assert forall|i: int| 0 <= i < out@.len() implies #[trigger] piece_ref_spec(
                        spec_piece_at(*pos, ascending_filter(keep, (s + 1) as nat)[i] as u64).unwrap().0,
                        spec_piece_at(*pos, ascending_filter(keep, (s + 1) as nat)[i] as u64).unwrap().1,
                        ascending_filter(keep, (s + 1) as nat)[i],
                        out@[i],
                    ) by {
                        if i < before.len() {
                            assert(out@[i] == before[i]);
                        }
                    }
                },
                None => {
                    assert(!keep(s));
                },
            }
        } else {
            assert(!keep(s));
        }
        s = s + 1;
    }
    out
}

/// Pawns of `c` keep off their promotion rank.
pub open spec fn pawns_clear(pos: Position, c: Color) -> bool {
    forall|s: u64| s < 64 && #[trigger] bit(pos.pieces[c.spec_index()][0], s) ==> s / 8 != promo_rank(c)
}

/// Either side can be put to move and generate its moves: the side to move can
/// move, both kings stand, and no pawn stands on its promotion rank.
pub open spec fn analysable(pos: Position) -> bool {
    &&& movable(pos)
    &&& pos.pieces[0][5] != 0
    &&& pos.pieces[1][5] != 0
    &&& pawns_clear(pos, Color::White)
    &&& pawns_clear(pos, Color::Black)
}

/// `p` is the probe that `position_for_analysis_side` hands out for `side`.
pub open spec fn analysis_probe(pos: Position, side: Color, p: Position) -> bool {
    if pos.stm == side {
        p.same_state(pos)
    } else {
        handed_over(pos, side, p)
    }
}

/// The probe of an analysable position can generate its moves.
pub proof fn lemma_probe_movable(pos: Position, side: Color, p: Position)
    requires
        analysable(pos),
        analysis_probe(pos, side, p),
    ensures
        movable(p),
        p.board_wf(),
        p.pieces == pos.pieces,
        p.all == pos.all,
        p.stm == side,
{
    if pos.stm == side {
        lemma_same_state_moves(p, pos);
    } else {
        assert(p.wf());
        assert(pawns_in_range(p));
    }
}

/// No en-passant square lies on the side to move's promotion rank (as in any
/// position reached by play).
pub open spec fn ep_short_of_promotion(pos: Position) -> bool {
    pos.ep matches Some(e) ==> e / 8 != promo_rank(pos.stm)
}

/// After a legal move no pawn of the mover stands on its promotion rank.
pub proof fn lemma_mover_pawns_clear(pos: Position, m: crate::Move)
    requires
        movable(pos),
        crate::movegen::legal_move(pos, m),
        ep_short_of_promotion(pos),
    ensures
        pawns_clear(crate::perft::after(pos, m), pos.stm),
{
    reveal(crate::position::make_pieces);
    let u = pos.stm.spec_index();
    let x = pos.pieces[u][0];
    let f = m.from as u64;
    let t = m.to as u64;
    crate::position::lemma_disjoint_square(pos.pieces, f);
    crate::position::lemma_piece_on(pos.pieces, u, f);
    let a = crate::perft::after(pos, m);
    assert forall|s: u64| s < 64 && #[trigger] bit(a.pieces[u][0], s) implies s / 8 != promo_rank(pos.stm) by {
        crate::bits::lemma_del_bit(x, f, s);
        crate::bits::lemma_put_bit(crate::bits::del(x, f), t, s);
        if s == t && s != f && !bit(x, s) {
            assert(crate::movegen::pawn_pseudo(pos, m));
        }
    }
}

/// The position after a legal move, as played, can be analysed from either
/// side.
pub proof fn lemma_after_analysable(pos: Position, m: crate::Move, p1: Position)
    requires
        movable(pos),
        crate::perft::perft_ok(pos, 2),
        crate::movegen::legal_move(pos, m),
        ep_short_of_promotion(pos),
        crate::perft::same_board(p1, crate::perft::after(pos, m)),
        p1.wf(),
        p1.pieces[pos.stm.spec_index()][5] != 0,
    ensures
        analysable(p1),
{
    lemma_mover_pawns_clear(pos, m);
    crate::perft::lemma_board_moves(p1, crate::perft::after(pos, m));
    assert(crate::perft::perft_ok(crate::perft::after(pos, m), 1));
    assert(crate::perft::ready(crate::perft::after(pos, m)));
    assert(pawns_in_range(crate::perft::after(pos, m)));
    if pos.stm == Color::White {
        assert(pawns_clear(p1, Color::Black));
        assert(pawns_clear(p1, Color::White));
    } else {
        assert(pawns_clear(p1, Color::White));
        assert(pawns_clear(p1, Color::Black));
    }
}

} // verus!

verus! {

/// Every motif collection of `f` is uncomputed, not having been asked for.
pub open spec fn motifs_not_requested(f: PositionFacts) -> bool {
    &&& uncomputed_because(f.available_motifs, "not_requested"@)
    &&& uncomputed_because(f.available_pins, "not_requested"@)
    &&& uncomputed_because(f.available_skewers, "not_requested"@)
    &&& uncomputed_because(f.available_discoveries, "not_requested"@)
    &&& uncomputed_because(f.available_discovered_defense, "not_requested"@)
    &&& uncomputed_because(f.available_remove_guard, "not_requested"@)
    &&& uncomputed_because(f.available_trapped, "not_requested"@)
    &&& uncomputed_because(f.available_mate_patterns, "not_requested"@)
    &&& uncomputed_because(f.available_overload, "not_requested"@)
    &&& uncomputed_because(f.available_attack_defender, "not_requested"@)
    &&& uncomputed_because(f.available_deflection, "not_requested"@)
    &&& uncomputed_because(f.available_lure_defender, "not_requested"@)
    &&& uncomputed_because(f.available_interference, "not_requested"@)
    &&& uncomputed_because(f.available_double_attack, "not_requested"@)
    &&& uncomputed_because(f.available_xray_attack, "not_requested"@)
    &&& uncomputed_because(f.available_xray_defense, "not_requested"@)
    &&& uncomputed_because(f.available_win_exchange, "not_requested"@)
    &&& uncomputed_because(f.opponent_available_motifs, "not_requested"@)
    &&& uncomputed_because(f.opponent_available_pins, "not_requested"@)
    &&& uncomputed_because(f.opponent_available_skewers, "not_requested"@)
    &&& uncomputed_because(f.opponent_available_discoveries, "not_requested"@)
    &&& uncomputed_because(f.opponent_available_discovered_defense, "not_requested"@)
    &&& uncomputed_because(f.opponent_available_remove_guard, "not_requested"@)
    &&& uncomputed_because(f.opponent_available_trapped, "not_requested"@)
    &&& uncomputed_because(f.opponent_available_mate_patterns, "not_requested"@)
    &&& uncomputed_because(f.opponent_available_overload, "not_requested"@)
    &&& uncomputed_because(f.opponent_available_attack_defender, "not_requested"@)
    &&& uncomputed_because(f.opponent_available_deflection, "not_requested"@)
    &&& uncomputed_because(f.opponent_available_lure_defender, "not_requested"@)
    &&& uncomputed_because(f.opponent_available_interference, "not_requested"@)
    &&& uncomputed_because(f.opponent_available_double_attack, "not_requested"@)
    &&& uncomputed_because(f.opponent_available_xray_attack, "not_requested"@)
    &&& uncomputed_because(f.opponent_available_xray_defense, "not_requested"@)
    &&& uncomputed_because(f.opponent_available_win_exchange, "not_requested"@)
    &&& uncomputed_because(f.hazards, "motifs_not_requested"@)
}

/// The side not to move's captures: refused while the side to move is in
/// check, else those of the position handed to it.
pub open spec fn opponent_captures_ok(pos: Position, c: FactCollection<crate::facts::types::CaptureOpportunity>) -> bool {
    let e = pos.stm.spec_flip();
    if stm_king_attacked_by(pos, e) {
        unavailable_because(c, "opposite_side_probe_while_in_check"@)
    } else {
        exists|p: Position| #[trigger] handed_over(pos, e, p) && crate::facts::captures::captures_result(p, c)
    }
}

/// The board facts of `pos`, with no motif collection asked for.
pub fn position_facts(pos: &Position) -> (f: PositionFacts)
    requires
        analysable(*pos),
        crate::perft::perft_ok(*pos, 2),
        !stm_king_attacked_by(*pos, pos.stm.spec_flip()) ==> forall|p: Position| #[trigger] handed_over(*pos, pos.stm.spec_flip(), p) ==> crate::perft::perft_ok(p, 2),
    ensures
        f.side_to_move == side_spec(pos.stm),
        crate::facts::piece_safety::piece_facts_follow(*pos, f.pieces@, crate::facts::piece_safety::board_pieces(*pos, 768)),
        crate::facts::pawn_structure::structure_ok(*pos, f.pawn_structure),
        crate::facts::piece_safety::king_safety_result(*pos, f.king_safety),
        crate::facts::captures::captures_result(*pos, f.available_captures),
        opponent_captures_ok(*pos, f.opponent_available_captures),
        motifs_not_requested(f),
        crate::facts::square_control::square_control_result(*pos, f.square_facts),
{
    let opponent = match position_for_analysis_side(pos, pos.stm.flip()) {
        Ok(probe) => crate::facts::captures::capture_opportunities(&probe),
        Err(reason) => FactCollection::unavailable(reason),
    };
    PositionFacts {
        side_to_move: side(pos.stm),
        pieces: crate::facts::piece_safety::piece_facts(pos),
        pawn_structure: crate::facts::pawn_structure::pawn_structure_facts(pos),
        king_safety: crate::facts::piece_safety::king_safety_facts(pos),
        available_captures: crate::facts::captures::capture_opportunities(pos),
        opponent_available_captures: opponent,
        available_motifs: FactCollection::uncomputed("not_requested"),
        available_pins: FactCollection::uncomputed("not_requested"),
        available_skewers: FactCollection::uncomputed("not_requested"),
        available_discoveries: FactCollection::uncomputed("not_requested"),
        available_discovered_defense: FactCollection::uncomputed("not_requested"),
        available_remove_guard: FactCollection::uncomputed("not_requested"),
        available_trapped: FactCollection::uncomputed("not_requested"),
        available_mate_patterns: FactCollection::uncomputed("not_requested"),
        available_overload: FactCollection::uncomputed("not_requested"),
        available_attack_defender: FactCollection::uncomputed("not_requested"),
        available_deflection: FactCollection::uncomputed("not_requested"),
        available_lure_defender: FactCollection::uncomputed("not_requested"),
        available_interference: FactCollection::uncomputed("not_requested"),
        available_double_attack: FactCollection::uncomputed("not_requested"),
        available_xray_attack: FactCollection::uncomputed("not_requested"),
        available_xray_defense: FactCollection::uncomputed("not_requested"),
        available_win_exchange: FactCollection::uncomputed("not_requested"),
        opponent_available_motifs: FactCollection::uncomputed("not_requested"),
        opponent_available_pins: FactCollection::uncomputed("not_requested"),
        opponent_available_skewers: FactCollection::uncomputed("not_requested"),
        opponent_available_discoveries: FactCollection::uncomputed("not_requested"),
        opponent_available_discovered_defense: FactCollection::uncomputed("not_requested"),
        opponent_available_remove_guard: FactCollection::uncomputed("not_requested"),
        opponent_available_trapped: FactCollection::uncomputed("not_requested"),
        opponent_available_mate_patterns: FactCollection::uncomputed("not_requested"),
        opponent_available_overload: FactCollection::uncomputed("not_requested"),
        opponent_available_attack_defender: FactCollection::uncomputed("not_requested"),
        opponent_available_deflection: FactCollection::uncomputed("not_requested"),
        opponent_available_lure_defender: FactCollection::uncomputed("not_requested"),
        opponent_available_interference: FactCollection::uncomputed("not_requested"),
        opponent_available_double_attack: FactCollection::uncomputed("not_requested"),
        opponent_available_xray_attack: FactCollection::uncomputed("not_requested"),
        opponent_available_xray_defense: FactCollection::uncomputed("not_requested"),
        opponent_available_win_exchange: FactCollection::uncomputed("not_requested"),
        hazards: FactCollection::uncomputed("motifs_not_requested"),
        square_facts: crate::facts::square_control::square_control_facts(pos),
    }
}

} // verus!
