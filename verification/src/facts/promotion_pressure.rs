//! Promotion pressure of passed pawns: how far each is from promoting, whether
//! it can push now, and which defenders attack it or control its stop and
//! promotion squares. Geometric only: pins and legality are not considered.
use vstd::prelude::*;
use crate::attacks::{abs, attacker_on, attackers_of};
use crate::bits::bit;
use crate::facts::piece_safety::{attacker_squares, piece_ref_spec};
use crate::facts::position::{
    lemma_filter_len, lemma_filters_agree, name_order_filter, occupied_members, piece_ref_for_square, refs_from_bitboard,
    refs_match, side, side_spec, square_in_name_order, square_name, square_name_spec,
};
use crate::facts::types::{PieceRef, Side};
use crate::position::{spec_piece_at, Position};
use crate::Color;

verus! {

pub const PROMOTION_PRESSURE_SCHEMA_VERSION: u32 = 1;

/// How much the facts can be trusted: geometric counts, no search.
#[derive(Clone, Copy, Debug, PartialEq, Eq, Structural)]
pub enum PromotionConfidence {
    Geometric,
}

/// The promotion pressure of one passed pawn.
#[derive(Clone, Debug)]
pub struct PromotionPressureFactV1 {
    pub pawn_square: String,
    pub color: Side,
    pub file: u8,
    pub rank: u8,
    /// Ranks from promotion (1: promotes on the next push).
    pub promotion_distance: u8,
    pub promotion_square: String,
    /// The square directly in front of the pawn.
    pub stop_square: String,
    pub push_square_empty: bool,
    pub can_advance_now: bool,
    /// Defenders attacking the pawn.
    pub pawn_attackers: Vec<PieceRef>,
    /// Defenders controlling the stop square.
    pub stop_square_controllers: Vec<PieceRef>,
    /// Defenders controlling the promotion square.
    pub promotion_square_controllers: Vec<PieceRef>,
    /// The distinct defenders among the three groups.
    pub committed_defenders: Vec<PieceRef>,
    pub committed_defender_count: u16,
    /// One push from promotion, the push is free and no defender attacks the
    /// pawn or controls the promotion square.
    pub must_address_now: bool,
    pub confidence: PromotionConfidence,
    pub schema_version: u32,
}

/// No enemy pawn stands on the pawn's file or a neighbouring file ahead of it.
pub open spec fn is_passed(pos: Position, c: Color, s: int) -> bool {
    forall|e: u64| e < 64 && #[trigger] bit(pos.pieces[1 - c.spec_index()][0], e) ==> !(abs(e as int % 8 - s % 8) <= 1 && (
    if c == Color::White {
        e as int / 8 > s / 8
    } else {
        e as int / 8 < s / 8
    }))
}

/// Whether a pawn is passed depends only on the enemy pawns in its front span:
/// the squares strictly ahead of it (relative to its direction of promotion)
/// on its own and the neighbouring files. Enemy pawns level with it, behind it
/// or two or more files away may come or go and it stays passed, or not
/// passed, as before.
pub proof fn law_passed_depends_on_front_span(p: Position, q: Position, c: Color, s: int)
    requires
        0 <= s < 64,
        forall|e: u64|
            #![trigger bit(q.pieces[1 - c.spec_index()][0], e)]
            #![trigger bit(p.pieces[1 - c.spec_index()][0], e)]
            e < 64 && -1 <= e as int % 8 - s % 8 <= 1 && (if c == Color::White { e as int / 8 > s / 8 } else {
                e as int / 8 < s / 8
            }) ==> bit(q.pieces[1 - c.spec_index()][0], e) == bit(p.pieces[1 - c.spec_index()][0], e),
    ensures
        is_passed(q, c, s) == is_passed(p, c, s),
        p.pieces[c.spec_index()][0] == q.pieces[c.spec_index()][0] ==> pressing_pawn(q, c, s) == pressing_pawn(p, c, s),
{
}

/// An enemy pawn ahead of the pawn, on its own or a neighbouring file, keeps
/// it from being passed.
pub proof fn law_passed_blocked_by_pawn_ahead(pos: Position, c: Color, s: int, e: u64)
    requires
        0 <= s < 64,
        e < 64,
        bit(pos.pieces[1 - c.spec_index()][0], e),
        -1 <= e as int % 8 - s % 8 <= 1,
        if c == Color::White { e as int / 8 > s / 8 } else { e as int / 8 < s / 8 },
    ensures
        !is_passed(pos, c, s),
{
}

/// With no enemy pawn on the board, every pawn is passed.
pub proof fn law_passed_without_enemy_pawns(pos: Position, c: Color, s: int)
    requires
        pos.pieces[1 - c.spec_index()][0] == 0,
    ensures
        is_passed(pos, c, s),
{
    crate::bits::lemma_zero_no_bit(pos.pieces[1 - c.spec_index()][0]);
}

pub open spec fn promotion_distance(c: Color, s: int) -> int {
    if c == Color::White { 7 - s / 8 } else { s / 8 }
}

pub open spec fn stop_square(c: Color, s: int) -> int {
    if c == Color::White { s + 8 } else { s - 8 }
}

pub open spec fn promotion_square(c: Color, s: int) -> int {
    (if c == Color::White { 56int } else { 0int }) + s % 8
}

/// A pawn of `c` on `s` that is passed and not on its promotion rank.
pub open spec fn pressing_pawn(pos: Position, c: Color, s: int) -> bool {
    bit(pos.pieces[c.spec_index()][0], s as u64) && is_passed(pos, c, s) && promotion_distance(c, s) != 0
}

/// The pressing pawns among the first `n` (color, square) candidates: White's
/// pawns first, then Black's, each ascending by square.
pub open spec fn pressing_pawns(pos: Position, n: nat) -> Seq<(Color, u8)>
    decreases n,
{
    if n == 0 {
        Seq::empty()
    } else {
        let prev = pressing_pawns(pos, (n - 1) as nat);
        let c = if (n - 1) / 64 == 0 { Color::White } else { Color::Black };
        let s = (n - 1) % 64;
        if pressing_pawn(pos, c, s) { prev.push((c, s as u8)) } else { prev }
    }
}

/// The squares, holding a piece, from which the defender attacks any of the
/// pawn's, stop and promotion squares, in name order.
pub open spec fn committed(pos: Position, c: Color, s: int) -> Seq<u8> {
    let d = c.spec_flip();
    name_order_filter(
        |u: u8|
            spec_piece_at(pos, u as u64) is Some && (attacker_on(pos.pieces, d, u as u64, s, pos.all) || attacker_on(
                pos.pieces,
                d,
                u as u64,
                stop_square(c, s),
                pos.all,
            ) || attacker_on(pos.pieces, d, u as u64, promotion_square(c, s), pos.all)),
        64,
    )
}

pub open spec fn pressure_fact(pos: Position, c: Color, s: int, f: PromotionPressureFactV1) -> bool {
    let d = c.spec_flip();
    let stop = stop_square(c, s);
    let promo = promotion_square(c, s);
    let att = attacker_squares(pos, d, s);
    let ctl_promo = attacker_squares(pos, d, promo);
    &&& f.pawn_square@ == square_name_spec(s as u8)
    &&& f.color == side_spec(c)
    &&& f.file == s % 8
    &&& f.rank == s / 8
    &&& f.promotion_distance == promotion_distance(c, s)
    &&& f.promotion_square@ == square_name_spec(promo as u8)
    &&& f.stop_square@ == square_name_spec(stop as u8)
    &&& f.push_square_empty == !bit(pos.all, stop as u64)
    &&& f.can_advance_now == f.push_square_empty
    &&& refs_match(pos, f.pawn_attackers@, att)
    &&& refs_match(pos, f.stop_square_controllers@, attacker_squares(pos, d, stop))
    &&& refs_match(pos, f.promotion_square_controllers@, ctl_promo)
    &&& refs_match(pos, f.committed_defenders@, committed(pos, c, s))
    &&& f.committed_defender_count == committed(pos, c, s).len()
    &&& f.must_address_now == (promotion_distance(c, s) == 1 && f.push_square_empty && ctl_promo.len() == 0 && att.len() == 0)
    &&& f.confidence == PromotionConfidence::Geometric
    &&& f.schema_version == PROMOTION_PRESSURE_SCHEMA_VERSION
}

} // verus!

verus! {

pub(crate) fn passed_pawn_exec(pos: &Position, c: Color, s: u8) -> (b: bool)
    requires
        s < 64,
    ensures
        b == is_passed(*pos, c, s as int),
{
    let enemy = pos.pieces[c.flip().index()][0];
    let file = (s % 8) as i32;
    let rank = (s / 8) as i32;
    let mut e: u8 = 0;
    while e < 64
        invariant
            e <= 64,
            s < 64,
            file == s % 8,
            rank == s / 8,
            enemy == pos.pieces[1 - c.spec_index()][0],
            forall|x: u64| x < e && #[trigger] bit(enemy, x) ==> !(abs(x as int % 8 - s as int % 8) <= 1 && (if c == Color::White {
                x as int / 8 > s as int / 8
            } else {
                x as int / 8 < s as int / 8
            })),
        decreases 64 - e,
    {
        if enemy & (1u64 << (e as u64)) != 0 {
            let df = (e % 8) as i32 - file;
            let er = (e / 8) as i32;
            let ahead = match c {
                Color::White => er > rank,
                Color::Black => er < rank,
            };
            if -1 <= df && df <= 1 && ahead {
                assert(bit(enemy, e as u64));
                return false;
            }
        }
        e = e + 1;
    }
    true
}

/// The attackers by `d` of `t` (squares holding a piece), ascending.
fn attacker_refs(pos: &Position, d: Color, t: u8) -> (refs: Vec<PieceRef>)
    requires
        pos.board_wf(),
        t < 64,
    ensures
        refs_match(*pos, refs@, attacker_squares(*pos, d, t as int)),
        refs@.len() <= 64,
{
    let a = attackers_of(&pos.pieces, t, d, pos.all);
    let refs = refs_from_bitboard(pos, a);
    proof {
        lemma_filters_agree(
            |u: u8| bit(a, u as u64) && spec_piece_at(*pos, u as u64) is Some,
            |u: u8| attacker_on(pos.pieces, d, u as u64, t as int, pos.all) && spec_piece_at(*pos, u as u64) is Some,
            64,
        );
        lemma_filter_len(|u: u8| attacker_on(pos.pieces, d, u as u64, t as int, pos.all) && spec_piece_at(*pos, u as u64) is Some, 64);
    }
    refs
}

/// The defenders committed to the pawn of `c` on `s`, in name order.
fn committed_refs(pos: &Position, c: Color, s: u8, stop: u8, promo: u8) -> (refs: Vec<PieceRef>)
    requires
        pos.board_wf(),
        s < 64,
        stop < 64,
        promo < 64,
        stop as int == stop_square(c, s as int),
        promo as int == promotion_square(c, s as int),
    ensures
        refs_match(*pos, refs@, committed(*pos, c, s as int)),
        refs@.len() <= 64,
{
    let d = c.flip();
    let a1 = attackers_of(&pos.pieces, s, d, pos.all);
    let a2 = attackers_of(&pos.pieces, stop, d, pos.all);
    let a3 = attackers_of(&pos.pieces, promo, d, pos.all);
    let all = a1 | a2 | a3;
    proof {
        assert forall|u: u64| u < 64 implies #[trigger] bit(all, u) == (attacker_on(pos.pieces, d, u, s as int, pos.all)
            || attacker_on(pos.pieces, d, u, stop_square(c, s as int), pos.all) || attacker_on(
            pos.pieces,
            d,
            u,
            promotion_square(c, s as int),
            pos.all,
        )) by {
            crate::bits::lemma_bit_or(a1 | a2, a3, u);
            crate::bits::lemma_bit_or(a1, a2, u);
        }
    }
    let ghost keep = |u: u8|
        spec_piece_at(*pos, u as u64) is Some && (attacker_on(pos.pieces, d, u as u64, s as int, pos.all) || attacker_on(
            pos.pieces,
            d,
            u as u64,
            stop_square(c, s as int),
            pos.all,
        ) || attacker_on(pos.pieces, d, u as u64, promotion_square(c, s as int), pos.all));
    let mut out: Vec<PieceRef> = Vec::new();
    let mut n: u32 = 0;
    while n < 64
        invariant
            n <= 64,
            pos.board_wf(),
            d == c.spec_flip(),
            forall|u: u64| u < 64 ==> #[trigger] bit(all, u) == (attacker_on(pos.pieces, d, u, s as int, pos.all) || attacker_on(
                pos.pieces,
                d,
                u,
                stop_square(c, s as int),
                pos.all,
            ) || attacker_on(pos.pieces, d, u, promotion_square(c, s as int), pos.all)),
            keep == (|u: u8|
                spec_piece_at(*pos, u as u64) is Some && (attacker_on(pos.pieces, d, u as u64, s as int, pos.all) || attacker_on(
                    pos.pieces,
                    d,
                    u as u64,
                    stop_square(c, s as int),
                    pos.all,
                ) || attacker_on(pos.pieces, d, u as u64, promotion_square(c, s as int), pos.all))),
            refs_match(*pos, out@, name_order_filter(keep, n as nat)),
        decreases 64 - n,
    {
        let u = square_in_name_order(n);
        let ghost before = out@;
        if all & (1u64 << (u as u64)) != 0 {
            assert(bit(all, u as u64));
            match piece_ref_for_square(pos, u) {
                Some(r) => {
                    out.push(r);
                    assert(keep(u));
                    assert forall|i: int| 0 <= i < out@.len() implies #[trigger] piece_ref_spec(
                        spec_piece_at(*pos, name_order_filter(keep, (n + 1) as nat)[i] as u64).unwrap().0,
                        spec_piece_at(*pos, name_order_filter(keep, (n + 1) as nat)[i] as u64).unwrap().1,
                        name_order_filter(keep, (n + 1) as nat)[i],
                        out@[i],
                    ) by {
                        if i < before.len() {
                            assert(out@[i] == before[i]);
                        }
                    }
                },
                None => {
                    assert(!keep(u));
                },
            }
        } else {
            assert(!bit(all, u as u64));
            assert(!keep(u));
        }
        n = n + 1;
    }
    proof {
        lemma_filter_len(keep, 64);
    }
    out
}

} // verus!

verus! {

fn pressure_fact_of(pos: &Position, c: Color, s: u8) -> (f: PromotionPressureFactV1)
    requires
        pos.board_wf(),
        s < 64,
        promotion_distance(c, s as int) != 0,
    ensures
        pressure_fact(*pos, c, s as int, f),
{
    let d = c.flip();
    let rank = s / 8;
    let file = s % 8;
    let promotion_distance: u8 = match c {
        Color::White => 7 - rank,
        Color::Black => rank,
    };
    let stop: u8 = match c {
        Color::White => s + 8,
        Color::Black => s - 8,
    };
    let promo: u8 = match c {
        Color::White => 56 + file,
        Color::Black => file,
    };
    let push_square_empty = pos.all & (1u64 << (stop as u64)) == 0;
    let pawn_attackers = attacker_refs(pos, d, s);
    let stop_square_controllers = attacker_refs(pos, d, stop);
    let promotion_square_controllers = attacker_refs(pos, d, promo);
    let committed_defenders = committed_refs(pos, c, s, stop, promo);
    let must_address_now = promotion_distance == 1 && push_square_empty && promotion_square_controllers.len() == 0
        && pawn_attackers.len() == 0;
    let committed_defender_count = committed_defenders.len() as u16;
    PromotionPressureFactV1 {
        pawn_square: square_name(s),
        color: side(c),
        file,
        rank,
        promotion_distance,
        promotion_square: square_name(promo),
        stop_square: square_name(stop),
        push_square_empty,
        can_advance_now: push_square_empty,
        pawn_attackers,
        stop_square_controllers,
        promotion_square_controllers,
        committed_defenders,
        committed_defender_count,
        must_address_now,
        confidence: PromotionConfidence::Geometric,
        schema_version: PROMOTION_PRESSURE_SCHEMA_VERSION,
    }
}

/// `facts` describe the pawns listed in `pawns`, one for one.
pub open spec fn pressure_facts_follow(pos: Position, facts: Seq<PromotionPressureFactV1>, pawns: Seq<(Color, u8)>) -> bool {
    &&& facts.len() == pawns.len()
    &&& forall|i: int| 0 <= i < facts.len() ==> #[trigger] pressure_fact(pos, pawns[i].0, pawns[i].1 as int, facts[i])
}

/// The promotion pressure of every passed pawn (not on its promotion rank),
/// White's first, then Black's, each ascending by square.
pub fn promotion_pressure_facts(pos: &Position) -> (facts: Vec<PromotionPressureFactV1>)
    requires
        pos.board_wf(),
    ensures
        pressure_facts_follow(*pos, facts@, pressing_pawns(*pos, 128)),
{
    let mut out: Vec<PromotionPressureFactV1> = Vec::new();
    let mut n: u32 = 0;
    while n < 128
        invariant
            n <= 128,
            pos.board_wf(),
            pressure_facts_follow(*pos, out@, pressing_pawns(*pos, n as nat)),
        decreases 128 - n,
    {
        let c = if n / 64 == 0 { Color::White } else { Color::Black };
        let s = (n % 64) as u8;
        let ghost before = out@;
        if pos.pieces[c.index()][0] & (1u64 << (s as u64)) != 0 && passed_pawn_exec(pos, c, s) {
            let dist = match c {
                Color::White => 7 - s / 8,
                Color::Black => s / 8,
            };
            if dist != 0 {
                assert(pressing_pawn(*pos, c, s as int));
                let f = pressure_fact_of(pos, c, s);
                out.push(f);
                assert forall|i: int| 0 <= i < out@.len() implies #[trigger] pressure_fact(
                    *pos,
                    pressing_pawns(*pos, (n + 1) as nat)[i].0,
                    pressing_pawns(*pos, (n + 1) as nat)[i].1 as int,
                    out@[i],
                ) by {
                    if i < before.len() {
                        assert(out@[i] == before[i]);
                    }
                }
            }
        }
        n = n + 1;
    }
    out
}

} // verus!
