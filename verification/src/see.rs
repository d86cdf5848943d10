//! Static exchange evaluation and capture ordering by piece values.
use vstd::prelude::*;
use vstd::std_specs::bits::u64_trailing_zeros;
use crate::attacks::{attackers_of, attacker_on};
use crate::bits::{bit, del, put};
use crate::position::{Position, spec_piece_at};
use crate::{Color, Piece, piece_of_index};

verus! {

/// Centipawn piece values (pawn, knight, bishop, rook, queen, king).
pub const SEE_VALUE: [i32; 6] = [100, 320, 330, 500, 900, 20000];

/// The centipawn value of a piece type.
pub open spec fn piece_value(p: Piece) -> int {
    match p {
        Piece::Pawn => 100,
        Piece::Knight => 320,
        Piece::Bishop => 330,
        Piece::Rook => 500,
        Piece::Queen => 900,
        Piece::King => 20000,
    }
}

pub fn value_of(p: Piece) -> (v: i32)
    ensures
        v == piece_value(p),
{
    match p {
        Piece::Pawn => 100,
        Piece::Knight => 320,
        Piece::Bishop => 330,
        Piece::Rook => 500,
        Piece::Queen => 900,
        Piece::King => 20000,
    }
}

/// MVV-LVA ordering score for a capture: heavy on the victim's value, light on
/// the attacker's.
pub fn mvv_lva(victim: Piece, attacker: Piece) -> (s: i32)
    ensures
        s == piece_value(victim) * 16 - piece_value(attacker),
{
    value_of(victim) * 16 - value_of(attacker)
}

/// The pieces of `side` attacking `sq` under occupancy `occ`, as a bitboard.
pub open spec fn attack_set(pieces: [[u64; 6]; 2], sq: int, side: Color, occ: u64) -> u64 {
    choose|a: u64| #[trigger] is_attack_set(a, pieces, sq, side, occ)
}

/// `a` holds exactly the squares of the pieces of `side` attacking `sq`.
pub open spec fn is_attack_set(a: u64, pieces: [[u64; 6]; 2], sq: int, side: Color, occ: u64) -> bool {
    forall|t: u64| t < 64 ==> #[trigger] bit(a, t) == attacker_on(pieces, side, t, sq, occ)
}

/// The attackers bitboard is the attack set.
proof fn lemma_attack_set(pieces: [[u64; 6]; 2], sq: int, side: Color, occ: u64, a: u64)
    requires
        forall|t: u64| t < 64 ==> #[trigger] bit(a, t) == attacker_on(pieces, side, t, sq, occ),
    ensures
        a == attack_set(pieces, sq, side, occ),
{
    assert(is_attack_set(a, pieces, sq, side, occ));
    let c = attack_set(pieces, sq, side, occ);
    assert forall|t: u64| t < 64 implies #[trigger] bit(a, t) == bit(c, t) by {
        assert(bit(c, t) == attacker_on(pieces, side, t, sq, occ));
    }
    crate::bits::lemma_bits_ext(a, c);
}

/// The least valuable piece type of `side` (from index `p` on) with a member in
/// `att`, and the lowest square holding one.
pub open spec fn lva_from(pieces: [[u64; 6]; 2], side: Color, att: u64, p: int) -> Option<(u64, int)>
    decreases 6 - p,
{
    if p < 0 || p >= 6 {
        None
    } else if pieces[side.spec_index()][p] & att != 0 {
        Some((u64_trailing_zeros(pieces[side.spec_index()][p] & att) as u64, p))
    } else {
        lva_from(pieces, side, att, p + 1)
    }
}

/// The capture `side` makes next on `to`: with its least valuable attacker,
/// except that a king does not recapture into a defended square.
pub open spec fn see_capture(pieces: [[u64; 6]; 2], occ: u64, side: Color, to: int) -> Option<(u64, int)> {
    match lva_from(pieces, side, attack_set(pieces, to, side, occ), 0) {
        None => None,
        Some((sq, p)) => if p == 5 && attack_set(pieces, to, side.spec_flip(), occ) != 0 {
            None
        } else {
            Some((sq, p))
        },
    }
}

/// `pieces` with square `sq` removed from bitboard (c, p).
pub open spec fn clear_piece(pieces: [[u64; 6]; 2], c: int, p: int, sq: u64) -> [[u64; 6]; 2] {
    [
        [
            if c == 0 && p == 0 { del(pieces[0][0], sq) } else { pieces[0][0] },
            if c == 0 && p == 1 { del(pieces[0][1], sq) } else { pieces[0][1] },
            if c == 0 && p == 2 { del(pieces[0][2], sq) } else { pieces[0][2] },
            if c == 0 && p == 3 { del(pieces[0][3], sq) } else { pieces[0][3] },
            if c == 0 && p == 4 { del(pieces[0][4], sq) } else { pieces[0][4] },
            if c == 0 && p == 5 { del(pieces[0][5], sq) } else { pieces[0][5] },
        ],
        [
            if c == 1 && p == 0 { del(pieces[1][0], sq) } else { pieces[1][0] },
            if c == 1 && p == 1 { del(pieces[1][1], sq) } else { pieces[1][1] },
            if c == 1 && p == 2 { del(pieces[1][2], sq) } else { pieces[1][2] },
            if c == 1 && p == 3 { del(pieces[1][3], sq) } else { pieces[1][3] },
            if c == 1 && p == 4 { del(pieces[1][4], sq) } else { pieces[1][4] },
            if c == 1 && p == 5 { del(pieces[1][5], sq) } else { pieces[1][5] },
        ],
    ]
}

/// The net gain, for `side`, of the exchange on `to` when the piece standing
/// there is worth `standing`: it captures with its next attacker and the other
/// side may answer in turn, and either side stops when continuing would lose.
/// At most `budget` more captures are made.
pub open spec fn exchange(pieces: [[u64; 6]; 2], occ: u64, side: Color, to: int, standing: int, budget: nat) -> int
    decreases budget,
{
    if budget == 0 {
        0
    } else {
        match see_capture(pieces, occ, side, to) {
            None => 0,
            Some((sq, p)) => {
                let rest = exchange(clear_piece(pieces, side.spec_index(), p, sq), del(occ, sq), side.spec_flip(), to,
                    piece_value(piece_of_index(p)), (budget - 1) as nat);
                if standing - rest > 0 { standing - rest } else { 0 }
            },
        }
    }
}

/// Static exchange evaluation of `from -> to` for the side to move: the value
/// taken on `to` minus what the opponent then wins back in the exchange (at
/// most 31 captures after the first); 0 when `from` does not hold a piece of
/// the side to move.
pub open spec fn see_spec(pos: Position, from: u8, to: u8) -> int {
    let us = pos.stm;
    match spec_piece_at(pos, from as u64) {
        Some((c, mp)) => if c != us {
            0
        } else {
            let (p1, v0) = match spec_piece_at(pos, to as u64) {
                Some((c2, q)) => (clear_piece(pos.pieces, c2.spec_index(), q.spec_index(), to as u64), piece_value(q)),
                None => (pos.pieces, 0),
            };
            let p2 = clear_piece(p1, us.spec_index(), mp.spec_index(), from as u64);
            let occ = put(del(pos.all, from as u64), to as u64);
            v0 - exchange(p2, occ, us.spec_flip(), to as int, piece_value(mp), 31)
        },
        None => 0,
    }
}

pub(crate) fn value_at(p: usize) -> (v: i32)
    requires
        p < 6,
    ensures
        v == piece_value(piece_of_index(p as int)),
{
    if p == 0 {
        100
    } else if p == 1 {
        320
    } else if p == 2 {
        330
    } else if p == 3 {
        500
    } else if p == 4 {
        900
    } else {
        20000
    }
}

/// The least valuable piece type of `side` with a member in `att`, and the
/// lowest square holding one (piece indices are in ascending value order).
fn least_valuable(pieces: &[[u64; 6]; 2], side: Color, att: u64) -> (r: Option<(u8, usize)>)
    ensures
        match r {
            Some((sq, p)) => sq < 64 && p < 6 && lva_from(*pieces, side, att, 0) == Some((sq as u64, p as int)),
            None => lva_from(*pieces, side, att, 0) is None,
        },
{
    let s = side.index();
    let mut p: usize = 0;
    while p < 6
        invariant
            p <= 6,
            s == side.spec_index(),
            lva_from(*pieces, side, att, 0) == lva_from(*pieces, side, att, p as int),
        decreases 6 - p,
    {
        let bb = pieces[s][p] & att;
        if bb != 0 {
            proof {
                crate::bits::lemma_trailing_zeros_bit(bb);
            }
            return Some((bb.trailing_zeros() as u8, p));
        }
        p = p + 1;
    }
    None
}

/// Recapturing goes by piece value: the piece chosen from the attackers `att`
/// of `side` stands on an attacked square, and no attacker of `side` is of a
/// type worth strictly less than it. None is chosen only when `side` has no
/// piece among `att`.
pub proof fn law_least_valuable_attacker(pieces: [[u64; 6]; 2], side: Color, att: u64)
    ensures
        match lva_from(pieces, side, att, 0) {
            Some((sq, p)) => {
                &&& 0 <= p < 6
                &&& sq < 64
                &&& bit(pieces[side.spec_index()][p], sq)
                &&& bit(att, sq)
                &&& forall|q: int, t: u64|
                    0 <= q < 6 && t < 64 && #[trigger] bit(pieces[side.spec_index()][q], t) && bit(att, t)
                        ==> piece_value(piece_of_index(p)) <= piece_value(piece_of_index(q))
            },
            None => forall|q: int, t: u64|
                0 <= q < 6 && t < 64 ==> !(#[trigger] bit(pieces[side.spec_index()][q], t) && bit(att, t)),
        },
{
    lemma_lva_from(pieces, side, att, 0);
}

/// The capture `side` makes next on `to` is made by a piece of `side` attacking
/// `to`, and no piece of `side` attacking `to` is worth strictly less.
pub proof fn law_see_capture_least_valuable(pieces: [[u64; 6]; 2], occ: u64, side: Color, to: int)
    ensures
        match see_capture(pieces, occ, side, to) {
            Some((sq, p)) => {
                &&& 0 <= p < 6
                &&& sq < 64
                &&& bit(pieces[side.spec_index()][p], sq)
                &&& bit(attack_set(pieces, to, side, occ), sq)
                &&& forall|q: int, t: u64|
                    0 <= q < 6 && t < 64 && #[trigger] bit(pieces[side.spec_index()][q], t)
                        && bit(attack_set(pieces, to, side, occ), t)
                        ==> piece_value(piece_of_index(p)) <= piece_value(piece_of_index(q))
            },
            None => true,
        },
{
    law_least_valuable_attacker(pieces, side, attack_set(pieces, to, side, occ));
}

/// A capture never gains more than the piece it takes, and never loses more
/// than the piece that takes: the opponent wins back at most the capturer.
pub proof fn law_see_bounds(pos: Position, from: u8, to: u8)
    requires
        spec_piece_at(pos, from as u64) matches Some((c, _)) && c == pos.stm,
    ensures
        ({
            let taken = match spec_piece_at(pos, to as u64) {
                Some((_, q)) => piece_value(q),
                None => 0,
            };
            let taker = piece_value(spec_piece_at(pos, from as u64).unwrap().1);
            taken - taker <= see_spec(pos, from, to) <= taken
        }),
{
    let us = pos.stm;
    let mp = spec_piece_at(pos, from as u64).unwrap().1;
    let (p1, v0) = match spec_piece_at(pos, to as u64) {
        Some((c2, q)) => (clear_piece(pos.pieces, c2.spec_index(), q.spec_index(), to as u64), piece_value(q)),
        None => (pos.pieces, 0),
    };
    let p2 = clear_piece(p1, us.spec_index(), mp.spec_index(), from as u64);
    let occ = put(del(pos.all, from as u64), to as u64);
    lemma_exchange_bounds(p2, occ, us.spec_flip(), to as int, piece_value(mp), 31);
}

/// Scanning piece types from `p0` on, when none below `p0` meets `att`.
proof fn lemma_lva_from(pieces: [[u64; 6]; 2], side: Color, att: u64, p0: int)
    requires
        0 <= p0 <= 6,
        forall|q: int| 0 <= q < p0 ==> #[trigger] pieces[side.spec_index()][q] & att == 0,
    ensures
        match lva_from(pieces, side, att, p0) {
            Some((sq, p)) => {
                &&& p0 <= p < 6
                &&& sq < 64
                &&& bit(pieces[side.spec_index()][p], sq)
                &&& bit(att, sq)
                &&& forall|q: int| 0 <= q < p ==> #[trigger] pieces[side.spec_index()][q] & att == 0
            },
            None => forall|q: int| 0 <= q < 6 ==> #[trigger] pieces[side.spec_index()][q] & att == 0,
        },
        forall|q: int, t: u64|
            0 <= q < 6 && t < 64 && #[trigger] bit(pieces[side.spec_index()][q], t) && bit(att, t)
                ==> pieces[side.spec_index()][q] & att != 0,
    decreases 6 - p0,
{
    assert forall|q: int, t: u64|
        0 <= q < 6 && t < 64 && #[trigger] bit(pieces[side.spec_index()][q], t) && bit(att, t)
            implies pieces[side.spec_index()][q] & att != 0 by {
        crate::bits::lemma_bit_and(pieces[side.spec_index()][q], att, t);
        crate::bits::lemma_bit_zero(t);
    }
    if p0 < 6 {
        let bb = pieces[side.spec_index()][p0] & att;
        if bb != 0 {
            crate::bits::lemma_trailing_zeros_bit(bb);
            let sq = u64_trailing_zeros(bb) as u64;
            crate::bits::lemma_bit_and(pieces[side.spec_index()][p0], att, sq);
        } else {
            lemma_lva_from(pieces, side, att, p0 + 1);
        }
    }
}

/// The exchange value from the `k`-th state of an exchange record.
pub open spec fn exchange_at(sts: Seq<([[u64; 6]; 2], u64, Color)>, vs: Seq<int>, to: int, k: int) -> int {
    exchange(sts[k].0, sts[k].1, sts[k].2, to, vs[k], (31 - k) as nat)
}

/// State `k + 1` of the record follows from state `k` by the capture `see_capture` picks.
pub open spec fn record_step(sts: Seq<([[u64; 6]; 2], u64, Color)>, vs: Seq<int>, to: int, k: int) -> bool {
    match see_capture(sts[k].0, sts[k].1, sts[k].2, to) {
        Some((sq, p)) => {
            &&& sts[k + 1].0 == clear_piece(sts[k].0, sts[k].2.spec_index(), p, sq)
            &&& sts[k + 1].1 == del(sts[k].1, sq)
            &&& sts[k + 1].2 == sts[k].2.spec_flip()
            &&& vs[k + 1] == piece_value(piece_of_index(p))
        },
        None => false,
    }
}

/// Consecutive states of the record are related by the captures made.
pub open spec fn exchange_record(sts: Seq<([[u64; 6]; 2], u64, Color)>, vs: Seq<int>, to: int, d: int) -> bool {
    &&& sts.len() == d + 1
    &&& vs.len() == d + 1
    &&& forall|k: int| 0 <= k < d ==> #[trigger] record_step(sts, vs, to, k)
}

/// The exchange never loses and never gains more than the piece standing on the square.
proof fn lemma_exchange_bounds(pieces: [[u64; 6]; 2], occ: u64, side: Color, to: int, standing: int, budget: nat)
    requires
        standing >= 0,
    ensures
        0 <= exchange(pieces, occ, side, to, standing, budget) <= standing,
    decreases budget,
{
    if budget > 0 {
        if let Some((sq, p)) = see_capture(pieces, occ, side, to) {
            lemma_exchange_bounds(clear_piece(pieces, side.spec_index(), p, sq), del(occ, sq), side.spec_flip(), to,
                piece_value(piece_of_index(p)), (budget - 1) as nat);
        }
    }
}

/// One step of the exchange recursion along the record.
proof fn lemma_exchange_step(sts: Seq<([[u64; 6]; 2], u64, Color)>, vs: Seq<int>, to: int, d: int, k: int)
    requires
        exchange_record(sts, vs, to, d),
        0 <= k < d,
        d <= 31,
    ensures
        exchange_at(sts, vs, to, k) == (if vs[k] - exchange_at(sts, vs, to, k + 1) > 0 {
            vs[k] - exchange_at(sts, vs, to, k + 1)
        } else {
            0
        }),
{
    assert(record_step(sts, vs, to, k));
}

/// Static exchange evaluation of `from -> to`, in centipawns from the side to
/// move's point of view (positive: the mover comes out ahead). See `see_spec`.
#[verifier::rlimit(30)]
pub fn see(pos: &Position, from: u8, to: u8) -> (v: i32)
    requires
        pos.board_wf(),
        from < 64,
        to < 64,
    ensures
        v == see_spec(*pos, from, to),
{
    let us = pos.stm;
    let moving = match pos.piece_at(from) {
        Some((c, p)) => {
            if c != us {
                return 0;
            }
            p
        },
        None => {
            return 0;
        },
    };
    let mut pieces = pos.pieces;
    let mut gain: [i32; 32] = [0; 32];
    let v0 = match pos.piece_at(to) {
        Some((c, p)) => {
            let ci = c.index();
            let pi = p.index();
            pieces[ci][pi] = pieces[ci][pi] & !(1u64 << to);
            value_of(p)
        },
        None => 0,
    };
    assert(pieces =~= (match spec_piece_at(*pos, to as u64) {
        Some((c2, q)) => clear_piece(pos.pieces, c2.spec_index(), q.spec_index(), to as u64),
        None => pos.pieces,
    })) by {
        assert(pieces[0] =~= (match spec_piece_at(*pos, to as u64) {
            Some((c2, q)) => clear_piece(pos.pieces, c2.spec_index(), q.spec_index(), to as u64),
            None => pos.pieces,
        })[0]);
        assert(pieces[1] =~= (match spec_piece_at(*pos, to as u64) {
            Some((c2, q)) => clear_piece(pos.pieces, c2.spec_index(), q.spec_index(), to as u64),
            None => pos.pieces,
        })[1]);
    }
    gain[0] = v0;
    let ghost p1 = pieces;
    let ui = us.index();
    let mi = moving.index();
    pieces[ui][mi] = pieces[ui][mi] & !(1u64 << from);
    assert(pieces =~= clear_piece(p1, us.spec_index(), moving.spec_index(), from as u64)) by {
        assert(pieces[0] =~= clear_piece(p1, us.spec_index(), moving.spec_index(), from as u64)[0]);
        assert(pieces[1] =~= clear_piece(p1, us.spec_index(), moving.spec_index(), from as u64)[1]);
    }
    let mut occ = (pos.all & !(1u64 << from)) | (1u64 << to);
    let mut standing = value_of(moving);
    let mut side = us.flip();
    let mut d: usize = 0;
    let mut done = false;
    let ghost mut sts: Seq<([[u64; 6]; 2], u64, Color)> = seq![(pieces, occ, side)];
    let ghost mut vs: Seq<int> = seq![standing as int];
    while d < 31 && !done
        invariant
            d <= 31,
            to < 64,
            exchange_record(sts, vs, to as int, d as int),
            sts[d as int] == (pieces, occ, side),
            vs[d as int] == standing,
            0 <= standing <= 20000,
            forall|k: int| 0 <= k <= d ==> 0 <= #[trigger] vs[k] <= 20000,
            gain[0] == v0,
            forall|j: int| 1 <= j <= d ==> #[trigger] gain[j] == vs[j - 1] - gain[j - 1],
            forall|j: int| 0 <= j <= d ==> -20000 * (j + 1) <= #[trigger] gain[j] <= 20000 * (j + 1),
            done ==> see_capture(pieces, occ, side, to as int) is None,
            sts[0] == (clear_piece(p1, us.spec_index(), moving.spec_index(), from as u64), put(del(pos.all, from as u64), to as u64), us.spec_flip()),
            vs[0] == piece_value(moving),
        decreases 31 - d, if done { 0int } else { 1int },
    {
        let attackers = attackers_of(&pieces, to, side, occ);
        proof {
            lemma_attack_set(pieces, to as int, side, occ, attackers);
        }
        match least_valuable(&pieces, side, attackers) {
            None => {
                done = true;
            },
            Some((lsq, lp)) => {
                let mut blocked = false;
                if lp == 5 {
                    let defenders = attackers_of(&pieces, to, side.flip(), occ);
                    proof {
                        lemma_attack_set(pieces, to as int, side.spec_flip(), occ, defenders);
                    }
                    blocked = defenders != 0;
                }
                if blocked {
                    done = true;
                } else {
                    let ghost prev = gain;
                    let ghost old_sts = sts;
                    let ghost old_vs = vs;
                    let ghost before = pieces;
                    let ghost occ_b = occ;
                    let ghost side_b = side;
                    proof {
                        assert(see_capture(before, occ_b, side_b, to as int) == Some((lsq as u64, lp as int)));
                    }
                    d = d + 1;
                    gain[d] = standing - gain[d - 1];
                    standing = value_at(lp);
                    let si = side.index();
                    pieces[si][lp] = pieces[si][lp] & !(1u64 << lsq);
                    assert(pieces =~= clear_piece(before, side_b.spec_index(), lp as int, lsq as u64)) by {
                        assert(pieces[0] =~= clear_piece(before, side_b.spec_index(), lp as int, lsq as u64)[0]);
                        assert(pieces[1] =~= clear_piece(before, side_b.spec_index(), lp as int, lsq as u64)[1]);
                    }
                    occ = occ & !(1u64 << lsq);
                    side = side.flip();
                    proof {
                        sts = old_sts.push((pieces, occ, side));
                        vs = old_vs.push(standing as int);
                        assert forall|j: int| 1 <= j <= d implies #[trigger] gain[j] == vs[j - 1] - gain[j - 1] by {
                            if j < d {
                                assert(gain[j] == prev[j] && gain[j - 1] == prev[j - 1]);
                            }
                        }
                        assert forall|j: int| 0 <= j <= d implies -20000 * (j + 1) <= #[trigger] gain[j] <= 20000 * (j + 1) by {
                            if j < d {
                                assert(gain[j] == prev[j]);
                            }
                        }
                        assert forall|k: int| 0 <= k < d implies #[trigger] record_step(sts, vs, to as int, k) by {
                            if k < d - 1 {
                                assert(record_step(old_sts, old_vs, to as int, k));
                                assert(sts[k] == old_sts[k] && sts[k + 1] == old_sts[k + 1] && vs[k + 1] == old_vs[k + 1]);
                            } else {
                                assert(sts[k] == (before, occ_b, side_b));
                            }
                        }
                        assert forall|k: int| 0 <= k <= d implies 0 <= #[trigger] vs[k] <= 20000 by {
                            if k < d {
                                assert(vs[k] == old_vs[k]);
                            }
                        }
                    }
                }
            },
        }
    }
    let ghost g = gain;
    let ghost dmax = d as int;
    proof {
        assert(exchange_at(sts, vs, to as int, d as int) == 0);
    }
    while d > 0
        invariant
            d <= dmax <= 31,
            exchange_record(sts, vs, to as int, dmax),
            forall|k: int| 0 <= k <= dmax ==> 0 <= #[trigger] vs[k] <= 20000,
            forall|j: int| 1 <= j <= dmax ==> #[trigger] g[j] == vs[j - 1] - g[j - 1],
            forall|j: int| 0 <= j <= dmax ==> -20000 * (j + 1) <= #[trigger] g[j] <= 20000 * (j + 1),
            forall|j: int| 0 <= j < d ==> #[trigger] gain[j] == g[j],
            gain[d as int] == g[d as int] - exchange_at(sts, vs, to as int, d as int),
        decreases d,
    {
        proof {
            let k = (d - 1) as int;
            lemma_exchange_step(sts, vs, to as int, dmax, k);
            lemma_exchange_bounds(sts[d as int].0, sts[d as int].1, sts[d as int].2, to as int, vs[d as int], (31 - d) as nat);
            lemma_exchange_bounds(sts[k].0, sts[k].1, sts[k].2, to as int, vs[k], (31 - k) as nat);
        }
        let a = -gain[d - 1];
        let b = gain[d];
        gain[d - 1] = -(if a > b { a } else { b });
        d = d - 1;
    }
    gain[0]
}

} // verus!

verus! {

/// The value of the piece standing on `to` (0 when it is empty).
pub open spec fn captured_value(pos: Position, to: u8) -> int {
    match spec_piece_at(pos, to as u64) {
        Some((_, q)) => piece_value(q),
        None => 0,
    }
}

/// The exchange never gains the mover more than the piece it captures, and
/// never loses it more than the piece it moves.
pub proof fn lemma_see_bounds(pos: Position, from: u8, to: u8)
    ensures
        match spec_piece_at(pos, from as u64) {
            Some((c, mp)) => c == pos.stm ==> captured_value(pos, to) - piece_value(mp) <= see_spec(pos, from, to)
                <= captured_value(pos, to),
            None => true,
        },
{
    if let Some((c, mp)) = spec_piece_at(pos, from as u64) {
        if c == pos.stm {
            let us = pos.stm;
            let (p1, v0) = match spec_piece_at(pos, to as u64) {
                Some((c2, q)) => (clear_piece(pos.pieces, c2.spec_index(), q.spec_index(), to as u64), piece_value(q)),
                None => (pos.pieces, 0),
            };
            let p2 = clear_piece(p1, us.spec_index(), mp.spec_index(), from as u64);
            let occ = put(del(pos.all, from as u64), to as u64);
            lemma_exchange_bounds(p2, occ, us.spec_flip(), to as int, piece_value(mp), 31);
        }
    }
}

} // verus!
