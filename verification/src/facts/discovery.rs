//! Discovered attacks: a move that vacates the only blocker on the line of a
//! friendly rear slider, which then attacks an enemy piece. Subtypes: the
//! unveiled slider checks ("discovered_check"), both it and the moved piece
//! check ("double_check"), only the moved piece checks ("discoverer_checks"),
//! or neither ("discovered_attack").
use vstd::prelude::*;
use crate::facts::types::unavailable_because;
use crate::attacks::{attacker_on, bishop_hits, rook_hits, sq_file, sq_rank};
use crate::bits::{bit, del};
use crate::facts::captures::{can_win_back, capturable_for_gain, checks, lemma_gain_same_board, rank_value};
use crate::facts::piece_safety::piece_ref;
use crate::perft::{lemma_board_moves, lemma_child, perft_ok};
use crate::facts::forks::{forker, undefended};
use crate::facts::lines::{between_squares, held_by, least_below, names_match, side_occupancy, slider_attacks, slider_reach};
use crate::facts::piece_safety::piece_ref_spec;
use crate::facts::types::{DiscoveryOpportunity, FactCollection};
use crate::movegen::{generate_legal, king_square, legal_move, movable};
use crate::facts::position::{analysis_probe, position_for_analysis_side, stm_king_attacked_by};
use crate::order::{lemma_sorted_by_key, sort_by_key, sorted_by_key};
use crate::order::key_sorted;
use crate::perft::after;
use crate::position::{spec_piece_at, Position};
use crate::see::see_spec;
use crate::{piece_of_index, uci_text, Color, Move, Piece};

verus! {

/// Candidate `n` (0..192) of the rear sliders: bishops, then rooks, then
/// queens, each in square order.
pub open spec fn rear_candidate(n: int) -> (int, int) {
    (2 + n / 64, n % 64)
}

/// The enemy pieces that a slider of type `sp` on `s` reaches after `m` but
/// did not reach before it.
pub open spec fn unveiled(pos: Position, m: Move, sp: Piece, s: int) -> spec_fn(int) -> bool {
    let a = after(pos, m);
    |t: int| slider_reach(sp, s, t, a.all) && !slider_reach(sp, s, t, pos.all) && held_by(a.pieces, pos.stm.spec_flip(), t)
}

/// The enemy king's square after `m`.
pub open spec fn enemy_king(pos: Position, m: Move) -> int {
    king_square(after(pos, m).pieces, pos.stm.spec_flip().spec_index())
}

/// The moved piece attacks the enemy king from its new square.
pub open spec fn mover_checks(pos: Position, m: Move) -> bool {
    let a = after(pos, m);
    attacker_on(a.pieces, pos.stm, m.to as u64, enemy_king(pos, m), a.all)
}

/// The largest value among the first `n` enemy (type, square) candidates
/// (kings left out) that the piece of `us` on `to`, worth `mv`, attacks and
/// could win: worth more than it, or undefended (0 for none).
pub open spec fn threat_value(a: Position, us: Color, to: int, mv: int, n: nat) -> int
    decreases n,
{
    if n == 0 {
        0
    } else {
        let prev = threat_value(a, us, to, mv, (n - 1) as nat);
        let p = (n - 1) / 64;
        let sq = (n - 1) % 64;
        let e = us.spec_flip();
        let v = rank_value(piece_of_index(p));
        if p != 5 && bit(a.pieces[e.spec_index()][p], sq as u64) && attacker_on(a.pieces, us, to as u64, sq, a.all) && (v > mv
            || undefended(a, e, sq)) && v > prev {
            v
        } else {
            prev
        }
    }
}

/// The most valuable enemy piece that the piece on `to` threatens to win.
pub open spec fn mover_threat(a: Position, us: Color, to: int) -> int {
    match spec_piece_at(a, to as u64) {
        Some(x) => threat_value(a, us, to, rank_value(x.1), 384),
        None => 0,
    }
}

/// The side to move in `p` can capture on `sq` without losing material.
pub open spec fn tradeable(p: Position, sq: int) -> bool {
    exists|m: Move| #[trigger] legal_move(p, m) && m.to as int == sq && m.flag.spec_is_capture() && see_spec(p, m.from, m.to) >= 0
}

/// With the piece on `s` gone, the king on `k` would be attacked along a rank
/// or file (`orth`) or a diagonal by the enemy piece on `x`.
pub open spec fn exposed_on(pieces: [[u64; 6]; 2], occ: u64, k: int, s: int, e: Color, orth: bool, x: u64) -> bool {
    let b = pieces[e.spec_index()];
    if orth {
        rook_hits(k, x as int, del(occ, s as u64)) && !rook_hits(k, x as int, occ) && (bit(b[3], x) || bit(b[4], x))
    } else {
        bishop_hits(k, x as int, del(occ, s as u64)) && !bishop_hits(k, x as int, occ) && (bit(b[2], x) || bit(b[4], x))
    }
}

pub open spec fn exposes(pieces: [[u64; 6]; 2], occ: u64, k: int, s: int, e: Color, orth: bool) -> bool {
    exists|x: u64| x < 64 && #[trigger] exposed_on(pieces, occ, k, s, e, orth, x)
}

/// The sign of `x * y`.
pub open spec fn sign_product(x: int, y: int) -> int {
    if x == 0 || y == 0 {
        0
    } else if (x > 0) == (y > 0) {
        1
    } else {
        -1
    }
}

pub open spec fn abs_int(x: int) -> int {
    if x < 0 { -x } else { x }
}

/// The piece of `us` on `s` may capture on `t` as far as a pin to its own king
/// goes: a piece pinned along a line may only capture along that line.
pub open spec fn capture_keeps_king(pieces: [[u64; 6]; 2], occ: u64, s: int, t: int, us: Color) -> bool {
    let k = king_square(pieces, us.spec_index());
    let e = us.spec_flip();
    if rook_hits(k, s, occ) && exposes(pieces, occ, k, s, e, true) {
        (sq_file(k) == sq_file(s) && sq_file(s) == sq_file(t)) || (sq_rank(k) == sq_rank(s) && sq_rank(s) == sq_rank(t))
    } else if bishop_hits(k, s, occ) && exposes(pieces, occ, k, s, e, false) {
        let kf = sq_file(k) - sq_file(s);
        let kr = sq_rank(k) - sq_rank(s);
        let tf = sq_file(t) - sq_file(s);
        let tr = sq_rank(t) - sq_rank(s);
        abs_int(kf) == abs_int(kr) && abs_int(tf) == abs_int(tr) && sign_product(kf, kr) == sign_product(tf, tr)
    } else {
        true
    }
}

/// The discovery by the rear slider of candidate `n`: the unveiled target's
/// square and the material at stake.
pub open spec fn discovery_at(pos: Position, m: Move, n: int) -> Option<(int, int)> {
    let a = after(pos, m);
    let us = pos.stm;
    let e = us.spec_flip();
    let (pi, s) = rear_candidate(n);
    let sp = piece_of_index(pi);
    if bit(a.pieces[us.spec_index()][pi], s as u64) && s != m.to && slider_reach(sp, s, m.from as int, pos.all) {
        match least_below(unveiled(pos, m, sp, s), 64) {
            Some(t) => {
                let tp = spec_piece_at(a, t as u64).unwrap().1;
                let dc = slider_reach(sp, s, enemy_king(pos, m), a.all);
                if capturable_for_gain(a, m.to as int) {
                    None
                } else if tp == Piece::King || dc {
                    Some((t, mover_threat(a, us, m.to as int)))
                } else {
                    let und = undefended(a, e, t);
                    if !(und || rank_value(tp) > rank_value(sp)) || tradeable(a, s) {
                        None
                    } else if !capture_keeps_king(a.pieces, a.all, s, t, us) {
                        None
                    } else {
                        Some((t, if und { rank_value(tp) } else { rank_value(tp) - rank_value(sp) }))
                    }
                }
            },
            None => None,
        }
    } else {
        None
    }
}

pub open spec fn any_discovery_at(pos: Position, m: Move) -> spec_fn(int) -> bool {
    |n: int| discovery_at(pos, m, n) is Some
}

/// `m` is a legal move that unveils a rear slider's attack.
pub open spec fn is_discovery(pos: Position, m: Move) -> bool {
    &&& legal_move(pos, m)
    &&& spec_piece_at(pos, m.from as u64) is Some
    &&& least_below(any_discovery_at(pos, m), 192) is Some
}

/// The subtype of the discovery by candidate `n`.
pub open spec fn discovery_kind(pos: Position, m: Move, n: int) -> Seq<char> {
    let (pi, s) = rear_candidate(n);
    let dc = slider_reach(piece_of_index(pi), s, enemy_king(pos, m), after(pos, m).all);
    let mc = mover_checks(pos, m);
    if dc && mc {
        "double_check"@
    } else if dc {
        "discovered_check"@
    } else if mc {
        "discoverer_checks"@
    } else {
        "discovered_attack"@
    }
}

/// The fact of the discovery made by `m` (through its first rear slider).
pub open spec fn discovery_fact(pos: Position, m: Move, f: DiscoveryOpportunity) -> bool {
    let a = after(pos, m);
    let n = least_below(any_discovery_at(pos, m), 192).unwrap();
    let (pi, s) = rear_candidate(n);
    let t = discovery_at(pos, m, n).unwrap().0;
    let dc = slider_reach(piece_of_index(pi), s, enemy_king(pos, m), a.all);
    &&& f.kind@ == discovery_kind(pos, m, n)
    &&& f.validator@ == "discovery_validation"@
    &&& f.move_uci@ == uci_text(m)
    &&& piece_ref_spec(pos.stm, forker(pos, m), m.to, f.mover)
    &&& piece_ref_spec(pos.stm, piece_of_index(pi), s as u8, f.slider)
    &&& piece_ref_spec(pos.stm.spec_flip(), spec_piece_at(a, t as u64).unwrap().1, t as u8, f.target)
    &&& names_match(f.ray@, between_squares(s, t))
    &&& f.gives_check == checks(pos, m)
    &&& f.discovered_check == dc
    &&& f.double_check == (dc && mover_checks(pos, m))
    &&& f.mover_threatens == (mover_threat(a, pos.stm, m.to as int) > 0)
    &&& f.material_gain == discovery_at(pos, m, n).unwrap().1
}

pub open spec fn discovery_pred(pos: Position) -> spec_fn(Move) -> bool {
    |m: Move| is_discovery(pos, m)
}

pub open spec fn fact_of_a_discovery(pos: Position, f: DiscoveryOpportunity) -> bool {
    exists|m: Move| #[trigger] is_discovery(pos, m) && discovery_fact(pos, m, f)
}

pub open spec fn has_discovery_fact(pos: Position, m: Move, out: Seq<DiscoveryOpportunity>) -> bool {
    exists|i: int| 0 <= i < out.len() && discovery_fact(pos, m, #[trigger] out[i])
}

/// One fact per discovering move of the side to move, ascending by move.
pub open spec fn discoveries_ok(pos: Position, out: Seq<DiscoveryOpportunity>) -> bool {
    &&& out.len() == crate::perft::listing_of(discovery_pred(pos)).len()
    &&& forall|i: int| 0 <= i < out.len() ==> #[trigger] fact_of_a_discovery(pos, out[i])
    &&& forall|m: Move| #[trigger] is_discovery(pos, m) ==> has_discovery_fact(pos, m, out)
    &&& key_sorted(out)
}

pub open spec fn discoveries_result(pos: Position, c: FactCollection<DiscoveryOpportunity>) -> bool {
    match c {
        FactCollection::Computed { items } => discoveries_ok(pos, items@),
        _ => false,
    }
}

} // verus!

verus! {

/// No piece of `owner` other than the one on `sq` defends `sq` in `p`.
pub(crate) fn no_defender(p: &Position, owner: Color, sq: u8) -> (b: bool)
    requires
        sq < 64,
    ensures
        b == undefended(*p, owner, sq as int),
{
    let g = crate::facts::piece_safety::guard_set(p, owner, sq);
    proof {
        if g == 0 {
            crate::bits::lemma_zero_no_bit(g);
            assert forall|u: u64| u < 64 implies !#[trigger] crate::facts::piece_safety::guards(*p, owner, sq as int, u) by {
                assert(!bit(g, u));
            }
        } else {
            crate::bits::lemma_nonzero_has_bit(g);
            let u = choose|u: u64| u < 64 && #[trigger] bit(g, u);
            assert(crate::facts::piece_safety::guards(*p, owner, sq as int, u));
        }
    }
    g == 0
}

/// The most valuable enemy piece that the piece of `us` on `to` threatens to
/// win in `p1`, the position after `m`.
pub(crate) fn threat_gain(p1: &Position, Ghost(pos): Ghost<Position>, m: Move) -> (g: i32)
    requires
        crate::perft::same_board(*p1, after(pos, m)),
        p1.board_wf(),
        m.to < 64,
    ensures
        g == mover_threat(after(pos, m), pos.stm, m.to as int),
        0 <= g <= 900,
{
    let ghost a = after(pos, m);
    let mp = match p1.piece_at(m.to) {
        Some(x) => x.1,
        None => {
            return 0;
        },
    };
    let us = if p1.stm == Color::White { Color::Black } else { Color::White };
    assert(us == pos.stm);
    let enemy = us.flip();
    let mv = crate::facts::forks::value_of_index(mp.index());
    let to_bit = 1u64 << (m.to as u64);
    let mut best: i32 = 0;
    let mut n: u32 = 0;
    while n < 384
        invariant
            n <= 384,
            crate::perft::same_board(*p1, a),
            a == after(pos, m),
            m.to < 64,
            us == pos.stm,
            enemy == us.spec_flip(),
            to_bit == 1u64 << (m.to as u64),
            mv == rank_value(spec_piece_at(a, m.to as u64).unwrap().1),
            best == threat_value(a, us, m.to as int, mv as int, n as nat),
            0 <= best <= 900,
        decreases 384 - n,
    {
        let p = (n / 64) as usize;
        let sq = (n % 64) as u8;
        let v = crate::facts::forks::value_of_index(p);
        if p != 5 && p1.pieces[enemy.index()][p] & (1u64 << (sq as u64)) != 0 {
            let att = crate::attacks::attackers_of(&p1.pieces, sq, us, p1.all);
            if att & to_bit != 0 {
                assert(bit(att, m.to as u64));
                let und = no_defender(p1, enemy, sq);
                proof {
                    assert(p1.pieces == a.pieces && p1.all == a.all);
                    if und {
                        assert forall|u: u64| u < 64 implies !#[trigger] crate::facts::piece_safety::guards(a, enemy, sq as int, u) by {
                            assert(!crate::facts::piece_safety::guards(*p1, enemy, sq as int, u));
                        }
                    } else {
                        let u = choose|u: u64| u < 64 && #[trigger] crate::facts::piece_safety::guards(*p1, enemy, sq as int, u);
                        assert(crate::facts::piece_safety::guards(a, enemy, sq as int, u));
                    }
                    assert(und == undefended(a, enemy, sq as int));
                }
                if (v > mv || und) && v > best {
                    best = v;
                }
            } else {
                assert(!bit(att, m.to as u64));
            }
        }
        n = n + 1;
    }
    best
}

/// Whether the side to move in `p` can capture on `sq` without losing material.
fn can_trade(p: &mut Position, sq: u8) -> (b: bool)
    requires
        movable(*old(p)),
    ensures
        final(p).same_state(*old(p)),
        b == tradeable(*old(p), sq as int),
{
    let ghost p0 = *p;
    let legal = generate_legal(p);
    let mut i: usize = 0;
    while i < legal.len()
        invariant
            i <= legal@.len(),
            p.same_state(p0),
            p0 == *old(p),
            movable(p0),
            forall|m: Move| legal@.contains(m) <==> #[trigger] legal_move(p0, m),
            forall|j: int| 0 <= j < i ==> !(#[trigger] legal@[j].to == sq && legal@[j].flag.spec_is_capture() && see_spec(
                p0,
                legal@[j].from,
                legal@[j].to,
            ) >= 0),
        decreases legal@.len() - i,
    {
        let m = legal[i];
        assert(legal@.contains(m));
        assert(legal_move(p0, m));
        if m.to == sq && m.flag.is_capture() {
            proof {
                crate::movegen::lemma_pseudo_consistent(p0, m);
            }
            let v = crate::see::see(p, m.from, m.to);
            assert(see_spec(*p, m.from, m.to) == see_spec(p0, m.from, m.to));
            if v >= 0 {
                return true;
            }
        }
        i = i + 1;
    }
    proof {
        if tradeable(p0, sq as int) {
            let m = choose|m: Move| #[trigger] legal_move(p0, m) && m.to as int == sq && m.flag.spec_is_capture() && see_spec(p0, m.from, m.to) >= 0;
            assert(legal@.contains(m));
            let j = choose|j: int| 0 <= j < legal@.len() && legal@[j] == m;
            assert(!(legal@[j].to == sq && legal@[j].flag.spec_is_capture() && see_spec(p0, legal@[j].from, legal@[j].to) >= 0));
        }
    }
    false
}

} // verus!

verus! {

/// Whether the piece of `us` on `s` may capture on `t` as far as a pin to its
/// own king goes, in `p`.
fn keeps_king(p: &Position, us: Color, s: u8, t: u8) -> (b: bool)
    requires
        s < 64,
        t < 64,
        p.pieces[us.spec_index()][5] != 0,
    ensures
        b == capture_keeps_king(p.pieces, p.all, s as int, t as int, us),
{
    let k = p.king_sq(us);
    assert(k as int == king_square(p.pieces, us.spec_index()));
    let enemy = us.flip();
    let sbit = 1u64 << (s as u64);
    let occ = p.all;
    let e = enemy.index();
    let eb = p.pieces[e][2];
    let er = p.pieces[e][3];
    let eq = p.pieces[e][4];
    let rq = er | eq;
    let bq = eb | eq;
    let orth = crate::attacks::rook_attacks(k, occ);
    let orth2 = crate::attacks::rook_attacks(k, occ & !sbit);
    assert(occ & !sbit == del(p.all, s as u64));
    let ex_o = orth2 & !orth & rq;
    let orth_pinned = orth & sbit != 0 && ex_o != 0;
    proof {
        assert(orth & sbit != 0 <==> bit(orth, s as u64));
        assert forall|x: u64| x < 64 implies #[trigger] bit(ex_o, x) == exposed_on(p.pieces, p.all, k as int, s as int, enemy, true, x) by {
            crate::bits::lemma_bit_and(orth2 & !orth, rq, x);
            crate::bits::lemma_bit_and(orth2, !orth, x);
            crate::bits::lemma_bit_not(orth, x);
            crate::bits::lemma_bit_or(er, eq, x);
        }
        if ex_o != 0 {
            crate::bits::lemma_nonzero_has_bit(ex_o);
            let x = choose|x: u64| x < 64 && #[trigger] bit(ex_o, x);
            assert(exposed_on(p.pieces, p.all, k as int, s as int, enemy, true, x));
        } else {
            crate::bits::lemma_zero_no_bit(ex_o);
            assert forall|x: u64| x < 64 implies !#[trigger] exposed_on(p.pieces, p.all, k as int, s as int, enemy, true, x) by {
                assert(!bit(ex_o, x));
            }
        }
        assert(orth_pinned == (rook_hits(k as int, s as int, p.all) && exposes(p.pieces, p.all, k as int, s as int, enemy, true)));
    }
    let kf = (k % 8) as i32;
    let kr = (k / 8) as i32;
    let sf = (s % 8) as i32;
    let sr = (s / 8) as i32;
    let tf = (t % 8) as i32;
    let tr = (t / 8) as i32;
    if orth_pinned {
        return (kf == sf && sf == tf) || (kr == sr && sr == tr);
    }
    let diag = crate::attacks::bishop_attacks(k, occ);
    let diag2 = crate::attacks::bishop_attacks(k, occ & !sbit);
    let ex_d = diag2 & !diag & bq;
    let diag_pinned = diag & sbit != 0 && ex_d != 0;
    proof {
        assert(diag & sbit != 0 <==> bit(diag, s as u64));
        assert forall|x: u64| x < 64 implies #[trigger] bit(ex_d, x) == exposed_on(p.pieces, p.all, k as int, s as int, enemy, false, x) by {
            crate::bits::lemma_bit_and(diag2 & !diag, bq, x);
            crate::bits::lemma_bit_and(diag2, !diag, x);
            crate::bits::lemma_bit_not(diag, x);
            crate::bits::lemma_bit_or(eb, eq, x);
        }
        if ex_d != 0 {
            crate::bits::lemma_nonzero_has_bit(ex_d);
            let x = choose|x: u64| x < 64 && #[trigger] bit(ex_d, x);
            assert(exposed_on(p.pieces, p.all, k as int, s as int, enemy, false, x));
        } else {
            crate::bits::lemma_zero_no_bit(ex_d);
            assert forall|x: u64| x < 64 implies !#[trigger] exposed_on(p.pieces, p.all, k as int, s as int, enemy, false, x) by {
                assert(!bit(ex_d, x));
            }
        }
        assert(diag_pinned == (bishop_hits(k as int, s as int, p.all) && exposes(p.pieces, p.all, k as int, s as int, enemy, false)));
    }
    if diag_pinned {
        let df1 = kf - sf;
        let dr1 = kr - sr;
        let df2 = tf - sf;
        let dr2 = tr - sr;
        let a1 = if df1 < 0 { -df1 } else { df1 };
        let b1 = if dr1 < 0 { -dr1 } else { dr1 };
        let a2 = if df2 < 0 { -df2 } else { df2 };
        let b2 = if dr2 < 0 { -dr2 } else { dr2 };
        let s1: i32 = if df1 == 0 || dr1 == 0 { 0 } else if (df1 > 0) == (dr1 > 0) { 1 } else { -1 };
        let s2: i32 = if df2 == 0 || dr2 == 0 { 0 } else if (df2 > 0) == (dr2 > 0) { 1 } else { -1 };
        return a1 == b1 && a2 == b2 && s1 == s2;
    }
    true
}

} // verus!

verus! {

pub(crate) proof fn lemma_undefended_same_board(x: Position, y: Position, c: Color, sq: int)
    requires
        crate::perft::same_board(x, y),
    ensures
        undefended(x, c, sq) == undefended(y, c, sq),
{
    if undefended(x, c, sq) {
        assert forall|u: u64| u < 64 implies !#[trigger] crate::facts::piece_safety::guards(y, c, sq, u) by {
            assert(!crate::facts::piece_safety::guards(x, c, sq, u));
        }
    } else {
        let u = choose|u: u64| u < 64 && #[trigger] crate::facts::piece_safety::guards(x, c, sq, u);
        assert(crate::facts::piece_safety::guards(y, c, sq, u));
    }
}

proof fn lemma_tradeable_same_board(x: Position, y: Position, sq: int)
    requires
        crate::perft::same_board(x, y),
    ensures
        tradeable(x, sq) == tradeable(y, sq),
{
    crate::perft::lemma_board_moves(x, y);
    if tradeable(x, sq) {
        let m = choose|m: Move| #[trigger] legal_move(x, m) && m.to as int == sq && m.flag.spec_is_capture() && see_spec(x, m.from, m.to) >= 0;
        assert(legal_move(y, m));
    }
    if tradeable(y, sq) {
        let m = choose|m: Move| #[trigger] legal_move(y, m) && m.to as int == sq && m.flag.spec_is_capture() && see_spec(y, m.from, m.to) >= 0;
        assert(legal_move(x, m));
    }
}

/// The discovery by rear-slider candidate `n`, read from `p1`, the position
/// after `m`; `won_back` and `threat` are what the enemy can win back on the
/// moved piece's square and what the moved piece threatens.
fn discovery_candidate(
    p1: &mut Position,
    Ghost(pos): Ghost<Position>,
    pos_all: u64,
    m: Move,
    n: u32,
    won_back: bool,
    threat: i32,
) -> (r: Option<(u8, i32)>)
    requires
        crate::perft::same_board(*old(p1), after(pos, m)),
        movable(*old(p1)),
        pos_all == pos.all,
        m.from < 64,
        m.to < 64,
        n < 192,
        old(p1).stm == pos.stm.spec_flip(),
        old(p1).pieces[pos.stm.spec_index()][5] != 0,
        old(p1).pieces[pos.stm.spec_flip().spec_index()][5] != 0,
        won_back == capturable_for_gain(after(pos, m), m.to as int),
        threat == mover_threat(after(pos, m), pos.stm, m.to as int),
    ensures
        final(p1).same_state(*old(p1)),
        match r {
            Some((t, g)) => discovery_at(pos, m, n as int) == Some((t as int, g as int)) && t < 64,
            None => discovery_at(pos, m, n as int) is None,
        },
{
    let ghost a = after(pos, m);
    let ghost p0 = *p1;
    let us = if p1.stm == Color::White { Color::Black } else { Color::White };
    assert(us == pos.stm);
    let enemy = us.flip();
    let pi = (2 + n / 64) as usize;
    let s = (n % 64) as u8;
    let sp = if pi == 2 { Piece::Bishop } else if pi == 3 { Piece::Rook } else { Piece::Queen };
    assert(rear_candidate(n as int) == (pi as int, s as int));
    assert(sp == piece_of_index(pi as int));
    if p1.pieces[us.index()][pi] & (1u64 << (s as u64)) == 0 || s == m.to {
        return None;
    }
    let before = match slider_attacks(sp, s, pos_all) {
        Some(x) => x,
        None => {
            return None;
        },
    };
    if before & (1u64 << (m.from as u64)) == 0 {
        assert(!bit(before, m.from as u64));
        return None;
    }
    assert(bit(before, m.from as u64));
    let after_atk = match slider_attacks(sp, s, p1.all) {
        Some(x) => x,
        None => {
            return None;
        },
    };
    let eocc = side_occupancy(&p1.pieces, enemy);
    let unv = after_atk & !before & eocc;
    let ghost f = unveiled(pos, m, sp, s as int);
    proof {
        assert forall|u: u64| u < 64 implies #[trigger] bit(unv, u) == f(u as int) by {
            crate::bits::lemma_bit_and(after_atk & !before, eocc, u);
            crate::bits::lemma_bit_and(after_atk, !before, u);
            crate::bits::lemma_bit_not(before, u);
        }
    }
    if unv == 0 {
        proof {
            crate::bits::lemma_zero_no_bit(unv);
            crate::facts::lines::lemma_least_below(f, 64);
            match least_below(f, 64) {
                Some(z) => {
                    assert(bit(unv, z as u64));
                },
                None => {},
            }
        }
        return None;
    }
    proof {
        crate::facts::lines::lemma_lowest_is_least(f, unv);
        crate::bits::lemma_trailing_zeros_bit(unv);
    }
    let t = unv.trailing_zeros() as u8;
    proof {
        assert(f(t as int));
        crate::facts::lines::lemma_held_piece(a, enemy, t as int);
    }
    let tp = match p1.piece_at(t) {
        Some(x) => x.1,
        None => {
            return None;
        },
    };
    let ek = p1.king_sq(enemy);
    assert(ek as int == enemy_king(pos, m));
    let dc = after_atk & (1u64 << (ek as u64)) != 0;
    assert(dc == bit(after_atk, ek as u64));
    if won_back {
        return None;
    }
    if tp == Piece::King || dc {
        return Some((t, threat));
    }
    let und = no_defender(p1, enemy, t);
    proof {
        lemma_undefended_same_board(*p1, a, enemy, t as int);
    }
    let tv = crate::facts::forks::value_of_index(tp.index());
    let sv = crate::facts::forks::value_of_index(sp.index());
    if !(und || tv > sv) {
        return None;
    }
    let tr = can_trade(p1, s);
    proof {
        lemma_tradeable_same_board(p0, a, s as int);
    }
    if tr {
        return None;
    }
    let kk = keeps_king(p1, us, s, t);
    if !kk {
        return None;
    }
    Some((t, if und { tv } else { tv - sv }))
}

} // verus!

verus! {

/// The first rear-slider candidate that `m` unveils, with its target square
/// and the material at stake.
fn find_discovery(
    p1: &mut Position,
    Ghost(pos): Ghost<Position>,
    pos_all: u64,
    m: Move,
    won_back: bool,
    threat: i32,
) -> (r: Option<(u32, u8, i32)>)
    requires
        crate::perft::same_board(*old(p1), after(pos, m)),
        movable(*old(p1)),
        pos_all == pos.all,
        m.from < 64,
        m.to < 64,
        old(p1).stm == pos.stm.spec_flip(),
        old(p1).pieces[pos.stm.spec_index()][5] != 0,
        old(p1).pieces[pos.stm.spec_flip().spec_index()][5] != 0,
        won_back == capturable_for_gain(after(pos, m), m.to as int),
        threat == mover_threat(after(pos, m), pos.stm, m.to as int),
    ensures
        final(p1).same_state(*old(p1)),
        match r {
            Some((n, t, g)) => least_below(any_discovery_at(pos, m), 192) == Some(n as int) && discovery_at(pos, m, n as int) == Some(
                (t as int, g as int),
            ) && t < 64 && n < 192,
            None => least_below(any_discovery_at(pos, m), 192) is None,
        },
{
    let ghost fs = any_discovery_at(pos, m);
    let ghost p0 = *p1;
    let mut n: u32 = 0;
    while n < 192
        invariant
            n <= 192,
            p1.same_state(p0),
            p0 == *old(p1),
            crate::perft::same_board(p0, after(pos, m)),
            movable(p0),
            pos_all == pos.all,
            m.from < 64,
            m.to < 64,
            p0.stm == pos.stm.spec_flip(),
            p0.pieces[pos.stm.spec_index()][5] != 0,
            p0.pieces[pos.stm.spec_flip().spec_index()][5] != 0,
            won_back == capturable_for_gain(after(pos, m), m.to as int),
            threat == mover_threat(after(pos, m), pos.stm, m.to as int),
            fs == any_discovery_at(pos, m),
            forall|u: int| 0 <= u < n ==> !#[trigger] fs(u),
        decreases 192 - n,
    {
        proof {
            crate::movegen::lemma_same_state_moves(*p1, p0);
        }
        match discovery_candidate(p1, Ghost(pos), pos_all, m, n, won_back, threat) {
            Some((t, g)) => {
                proof {
                    assert(fs(n as int));
                    crate::facts::pins::lemma_least_is(fs, 192, n as int);
                }
                return Some((n, t, g));
            },
            None => {},
        }
        assert(!fs(n as int));
        n = n + 1;
    }
    proof {
        crate::facts::lines::lemma_least_below(fs, 192);
        match least_below(fs, 192) {
            Some(z) => {
                assert(fs(z));
            },
            None => {},
        }
    }
    None
}

} // verus!

verus! {

/// The discovery fact of the legal move `m`, if it unveils an attack. `probe`
/// is a copy of `pos` used to test for check; it is left as it was.
fn discovery_of(pos: &Position, probe: &mut Position, m: Move) -> (r: Option<DiscoveryOpportunity>)
    requires
        pos.wf(),
        perft_ok(*pos, 2),
        legal_move(*pos, m),
        old(probe).same_state(*pos),
    ensures
        final(probe).same_state(*pos),
        r matches Some(f) ==> is_discovery(*pos, m) && discovery_fact(*pos, m, f),
        r is None ==> !is_discovery(*pos, m),
{
    assert(movable(*pos));
    proof {
        crate::movegen::lemma_pseudo_consistent(*pos, m);
    }
    let mp = match pos.piece_at(m.from) {
        Some((_, p)) => p,
        None => {
            return None;
        },
    };
    let fp = match m.flag.promo_piece() {
        Some(p) => p,
        None => mp,
    };
    assert(fp == forker(*pos, m));
    proof {
        crate::movegen::lemma_same_state_moves(*probe, *pos);
        crate::perft::lemma_board_after(*probe, *pos, m);
        assert(perft_ok(after(*pos, m), 1));
    }
    let gives = crate::movegen::gives_check(probe, m);
    let mut moved = pos.duplicate();
    proof {
        crate::movegen::lemma_same_state_moves(moved, *pos);
        crate::movegen::lemma_pseudo_consistent(moved, m);
    }
    let ghost before_make = moved;
    moved.make(m);
    let ghost p1 = moved;
    proof {
        lemma_child(*pos, before_make, m, moved, 1);
        lemma_board_moves(moved, after(*pos, m));
    }
    let us = pos.stm;
    let enemy = us.flip();
    let won_back = can_win_back(&mut moved, m.to);
    proof {
        lemma_gain_same_board(p1, after(*pos, m), m.to as int);
    }
    let threat = threat_gain(&moved, Ghost(*pos), m);
    let found = find_discovery(&mut moved, Ghost(*pos), pos.all, m, won_back, threat);
    let (n, t, gain) = match found {
        Some(x) => x,
        None => {
            return None;
        },
    };
    let ghost a = after(*pos, m);
    let pi = (2 + n / 64) as usize;
    let s = (n % 64) as u8;
    let sp = if pi == 2 { Piece::Bishop } else if pi == 3 { Piece::Rook } else { Piece::Queen };
    assert(rear_candidate(n as int) == (pi as int, s as int));
    assert(sp == piece_of_index(pi as int));
    proof {
        crate::facts::lines::lemma_least_below(unveiled(*pos, m, sp, s as int), 64);
        assert(unveiled(*pos, m, sp, s as int)(t as int));
        crate::facts::lines::lemma_held_piece(a, enemy, t as int);
    }
    let tp = match moved.piece_at(t) {
        Some(x) => x.1,
        None => {
            return None;
        },
    };
    let ek = moved.king_sq(enemy);
    assert(ek as int == enemy_king(*pos, m));
    let reach = match slider_attacks(sp, s, moved.all) {
        Some(x) => x,
        None => {
            return None;
        },
    };
    let dc = reach & (1u64 << (ek as u64)) != 0;
    assert(dc == bit(reach, ek as u64));
    let att = crate::attacks::attackers_of(&moved.pieces, ek, us, moved.all);
    let mc = att & (1u64 << (m.to as u64)) != 0;
    assert(mc == bit(att, m.to as u64));
    assert(mc == mover_checks(*pos, m));
    proof {
        crate::facts::lines::lemma_reach_aligned(sp, s as int, t as int, a.all);
    }
    let ray = crate::facts::lines::squares_between(s, t);
    let kind = if dc && mc {
        String::from_str("double_check")
    } else if dc {
        String::from_str("discovered_check")
    } else if mc {
        String::from_str("discoverer_checks")
    } else {
        String::from_str("discovered_attack")
    };
    Some(DiscoveryOpportunity {
        kind,
        validator: String::from_str("discovery_validation"),
        move_uci: m.to_uci(),
        mover: piece_ref(us, fp, m.to),
        slider: piece_ref(us, sp, s),
        target: piece_ref(enemy, tp, t),
        ray,
        gives_check: gives,
        discovered_check: dc,
        double_check: dc && mc,
        mover_threatens: threat > 0,
        material_gain: gain,
    })
}

} // verus!

verus! {

/// The facts of the discoveries, in the order of the legal moves, with the discoveries
/// they describe.
fn discovery_facts(pos: &Position) -> (res: (Vec<DiscoveryOpportunity>, Ghost<Seq<Move>>))
    requires
        pos.wf(),
        perft_ok(*pos, 2),
    ensures
        res.0@.len() == res.1@.len(),
        forall|k: int| 0 <= k < res.1@.len() ==> #[trigger] is_discovery(*pos, res.1@[k]) && discovery_fact(*pos, res.1@[k], res.0@[k]),
        crate::movegen::lists_exactly(res.1@, discovery_pred(*pos)),
{
    assert(movable(*pos));
    let mut probe = pos.duplicate();
    proof {
        crate::movegen::lemma_same_state_moves(probe, *pos);
    }
    let legal = generate_legal(&mut probe);
    let mut facts: Vec<DiscoveryOpportunity> = Vec::new();
    let ghost mut ms: Seq<Move> = Seq::empty();
    let ghost mut idx: Seq<int> = Seq::empty();
    let mut i: usize = 0;
    while i < legal.len()
        invariant
            i <= legal@.len(),
            pos.wf(),
            perft_ok(*pos, 2),
            movable(*pos),
            probe.same_state(*pos),
            crate::movegen::lists_exactly(legal@, |m: Move| legal_move(*pos, m)),
            idx.len() == ms.len(),
            facts@.len() == ms.len(),
            forall|k: int| 0 <= k < idx.len() ==> 0 <= #[trigger] idx[k] < i && legal@[idx[k]] == ms[k],
            forall|k: int, l: int| 0 <= k < l < idx.len() ==> #[trigger] idx[k] < #[trigger] idx[l],
            forall|k: int| 0 <= k < ms.len() ==> #[trigger] is_discovery(*pos, ms[k]) && discovery_fact(*pos, ms[k], facts@[k]),
            forall|j: int| 0 <= j < i && #[trigger] is_discovery(*pos, legal@[j]) ==> exists|k: int| 0 <= k < idx.len() && idx[k] == j,
        decreases legal@.len() - i,
    {
        let m = legal[i];
        assert(legal@.contains(m));
        assert(legal_move(*pos, m));
        let ghost old_idx = idx;
        let ghost old_ms = ms;
        let ghost before = facts@;
        match discovery_of(pos, &mut probe, m) {
            Some(f) => {
                facts.push(f);
                proof {
                    ms = ms.push(m);
                    idx = idx.push(i as int);
                }
            },
            None => {},
        }
        proof {
            assert forall|k: int| 0 <= k < ms.len() implies #[trigger] is_discovery(*pos, ms[k]) && discovery_fact(*pos, ms[k], facts@[k]) by {
                if k < old_ms.len() {
                    assert(ms[k] == old_ms[k] && facts@[k] == before[k]);
                }
            }
            assert forall|j: int| 0 <= j < i + 1 && #[trigger] is_discovery(*pos, legal@[j]) implies exists|k: int|
                0 <= k < idx.len() && idx[k] == j by {
                if j < i {
                    let k = choose|k: int| 0 <= k < old_idx.len() && old_idx[k] == j;
                    assert(idx[k] == j);
                } else {
                    assert(idx.len() > old_idx.len());
                    assert(idx[idx.len() - 1] == j);
                }
            }
        }
        i = i + 1;
    }
    proof {
        assert forall|a: int, b: int| 0 <= a < ms.len() && 0 <= b < ms.len() && a != b implies ms[a] != ms[b] by {
            if a < b {
                assert(idx[a] < idx[b]);
            } else {
                assert(idx[b] < idx[a]);
            }
        }
        assert forall|m: Move| #![trigger ms.contains(m)] #![trigger discovery_pred(*pos)(m)] ms.contains(m) <==> discovery_pred(*pos)(m) by {
            if ms.contains(m) {
                let k = choose|k: int| 0 <= k < ms.len() && ms[k] == m;
                assert(is_discovery(*pos, ms[k]));
            }
            if is_discovery(*pos, m) {
                assert(legal@.contains(m));
                let j = choose|j: int| 0 <= j < legal@.len() && legal@[j] == m;
                assert(is_discovery(*pos, legal@[j]));
                let k = choose|k: int| 0 <= k < idx.len() && idx[k] == j;
                assert(ms[k] == m);
            }
        }
    }
    (facts, Ghost(ms))
}

/// Sorting the facts of the discoveries yields one per discovering move, by move.
#[verifier::spinoff_prover]
proof fn lemma_discovery_order(pos: Position, ms: Seq<Move>, unsorted: Seq<DiscoveryOpportunity>)
    requires
        unsorted.len() == ms.len(),
        forall|k: int| 0 <= k < ms.len() ==> #[trigger] is_discovery(pos, ms[k]) && discovery_fact(pos, ms[k], unsorted[k]),
        crate::movegen::lists_exactly(ms, discovery_pred(pos)),
    ensures
        discoveries_ok(pos, sorted_by_key(unsorted)),
{
    lemma_sorted_by_key(unsorted);
    let p = discovery_pred(pos);
    assert(crate::movegen::lists_exactly(crate::perft::listing_of(p), p));
    crate::movegen::lemma_listing_len(ms, crate::perft::listing_of(p), p);
    assert forall|i: int| 0 <= i < sorted_by_key(unsorted).len() implies #[trigger] fact_of_a_discovery(pos, sorted_by_key(unsorted)[i]) by {
        assert(sorted_by_key(unsorted).contains(sorted_by_key(unsorted)[i]));
        assert(unsorted.contains(sorted_by_key(unsorted)[i]));
        let l = choose|l: int| 0 <= l < unsorted.len() && unsorted[l] == sorted_by_key(unsorted)[i];
        assert(is_discovery(pos, ms[l]) && discovery_fact(pos, ms[l], unsorted[l]));
    }
    assert forall|m: Move| #[trigger] is_discovery(pos, m) implies has_discovery_fact(pos, m, sorted_by_key(unsorted)) by {
        assert(p(m));
        assert(ms.contains(m));
        let l = choose|l: int| 0 <= l < ms.len() && ms[l] == m;
        assert(is_discovery(pos, ms[l]) && discovery_fact(pos, ms[l], unsorted[l]));
        assert(unsorted.contains(unsorted[l]));
        assert(sorted_by_key(unsorted).contains(unsorted[l]));
        let i = choose|i: int| 0 <= i < sorted_by_key(unsorted).len() && sorted_by_key(unsorted)[i] == unsorted[l];
        assert(discovery_fact(pos, m, sorted_by_key(unsorted)[i]));
    }
}

/// The discoveries available to the side to move, ascending by move.
pub fn discovery_opportunities(pos: &Position) -> (c: FactCollection<DiscoveryOpportunity>)
    requires
        pos.wf(),
        perft_ok(*pos, 2),
    ensures
        discoveries_result(*pos, c),
{
    let (facts, Ghost(ms)) = discovery_facts(pos);
    proof {
        lemma_discovery_order(*pos, ms, facts@);
    }
    FactCollection::computed(sort_by_key(facts))
}


/// The discoveries that `side` could make: refused for the side not to move while
/// the side to move is in check, else those of the probe with `side` to move.
pub fn discovery_opportunities_for(pos: &Position, side: Color) -> (c: FactCollection<DiscoveryOpportunity>)
    requires
        pos.wf(),
        pos.stm == side ==> perft_ok(*pos, 2),
        pos.stm != side ==> pos.pieces[pos.stm.spec_index()][5] != 0 && (!stm_king_attacked_by(*pos, side) ==> forall|p: Position| #[trigger] crate::facts::position::handed_over(*pos, side, p) ==> perft_ok(p, 2)),
    ensures
        pos.stm != side && stm_king_attacked_by(*pos, side) ==> unavailable_because(c, "opposite_side_probe_while_in_check"@),
        !(pos.stm != side && stm_king_attacked_by(*pos, side)) ==> exists|p: Position| #[trigger] analysis_probe(*pos, side, p) && discoveries_result(p, c),
{
    match position_for_analysis_side(pos, side) {
        Ok(probe) => {
            proof {
                if pos.stm == side {
                    crate::perft::lemma_board_perft(probe, *pos, 2);
                }
            }
            let c = discovery_opportunities(&probe);
            assert(analysis_probe(*pos, side, probe));
            c
        },
        Err(reason) => FactCollection::unavailable(reason),
    }
}

} // verus!
