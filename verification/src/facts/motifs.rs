//! Standing batteries: our sliders doubled on one line with an empty corridor
//! between them, the rear projecting force through the front (two rooks,
//! queen and bishop, queen and rook, and Alekhine's gun: a queen behind two
//! rooks on a file). This is a state fact: nothing is claimed to move, so no
//! exchange is evaluated.
use vstd::prelude::*;
use crate::facts::types::unavailable_because;
use crate::attacks::{bishop_attacks, bishop_hits, rook_attacks, rook_hits};
use crate::bits::{bit, del};
use crate::facts::piece_safety::{piece_ref, piece_ref_spec};
use crate::facts::position::{name_order_square, names_of, position_for_analysis_side, square_in_name_order, square_name, square_name_spec, stm_king_attacked_by};
use crate::facts::types::{FactCollection, PieceRef};
use crate::position::{Position, union6};
use crate::{Color, Piece, all_pieces, piece_of_index};

verus! {

/// A standing battery formation of the side to move.
#[derive(Clone, Debug)]
pub struct BatteryFact {
    pub kind: String,
    pub validator: String,
    pub subtype: String,
    pub rear: PieceRef,
    pub front: PieceRef,
    /// The middle rook of Alekhine's gun.
    pub middle: Option<PieceRef>,
    /// The squares between the rear and the front.
    pub ray: Vec<String>,
    pub line: String,
}

/// Squares a slider of type index `p` (2 bishop, 3 rook, 4 queen) on `s`
/// attacks under occupancy `occ`.
pub open spec fn slider_hits(p: int, s: int, t: int, occ: u64) -> bool {
    ((p == 2 || p == 4) && bishop_hits(s, t, occ)) || ((p == 3 || p == 4) && rook_hits(s, t, occ))
}

fn typed_slider_attacks(p: usize, s: u8, occ: u64) -> (a: u64)
    requires
        2 <= p <= 4,
        s < 64,
    ensures
        forall|t: u64| t < 64 ==> #[trigger] bit(a, t) == slider_hits(p as int, s as int, t as int, occ),
{
    if p == 2 {
        bishop_attacks(s, occ)
    } else if p == 3 {
        rook_attacks(s, occ)
    } else {
        let b = bishop_attacks(s, occ);
        let r = rook_attacks(s, occ);
        proof {
            assert forall|t: u64| t < 64 implies #[trigger] bit(b | r, t) == slider_hits(p as int, s as int, t as int, occ) by {
                crate::bits::lemma_bit_or(b, r, t);
            }
        }
        b | r
    }
}

/// The line class of a pair whose types share it and whose corridor is empty:
/// 0 file, 1 rank (rook lines, rear and front rook or queen), 2 diagonal (rear
/// and front bishop or queen).
pub open spec fn battery_line(rp: int, fp: int, r: int, f: int, all: u64) -> Option<int> {
    if (rp == 3 || rp == 4) && (fp == 3 || fp == 4) && rook_hits(r, f, all) {
        Some(if r % 8 == f % 8 { 0int } else { 1int })
    } else if (rp == 2 || rp == 4) && (fp == 2 || fp == 4) && bishop_hits(r, f, all) {
        Some(2int)
    } else {
        None
    }
}

/// `t` is newly reached by the rear once the front is lifted off the board.
pub open spec fn beyond(rp: int, r: int, f: int, all: u64, t: int) -> bool {
    slider_hits(rp, r, t, del(all, f as u64)) && !slider_hits(rp, r, t, all)
}

pub open spec fn signum(x: int) -> int {
    if x > 0 { 1 } else if x < 0 { -1 } else { 0 }
}

/// The first square past the front, along the line from the rear, as (file, rank).
pub open spec fn first_beyond(r: int, f: int) -> (int, int) {
    (f % 8 + signum(f % 8 - r % 8), f / 8 + signum(f / 8 - r / 8))
}

/// The muzzle points straight into one of our own pawns.
pub open spec fn own_pawn_muzzle(pos: Position, r: int, f: int) -> bool {
    let (bf, br) = first_beyond(r, f);
    0 <= bf < 8 && 0 <= br < 8 && bit(pos.pieces[pos.stm.spec_index()][0], (br * 8 + bf) as u64)
}

/// The rear's extension past the front reaches an enemy piece.
pub open spec fn hits_enemy(pos: Position, rp: int, r: int, f: int) -> bool {
    exists|t: u64| t < 64 && #[trigger] beyond(rp, r, f, pos.all, t as int) && bit(union6(pos.pieces[1 - pos.stm.spec_index()]), t)
}

/// An aligned pair of our pieces of types `rp` (rear, on `r`) and `fp` (front,
/// on `f`) that projects past the front, and not point-blank into an own pawn
/// without an enemy down the line.
pub open spec fn battery_pair_ok(pos: Position, rp: int, r: int, fp: int, f: int) -> bool {
    let us = pos.stm.spec_index();
    &&& 0 <= r < 64
    &&& 0 <= f < 64
    &&& r != f
    &&& 2 <= rp <= 4
    &&& 2 <= fp <= 4
    &&& bit(pos.pieces[us][rp], r as u64)
    &&& bit(pos.pieces[us][fp], f as u64)
    &&& battery_line(rp, fp, r, f, pos.all) is Some
    &&& exists|t: u64| t < 64 && #[trigger] beyond(rp, r, f, pos.all, t as int)
    &&& !(!hits_enemy(pos, rp, r, f) && own_pawn_muzzle(pos, r, f))
}

/// Alekhine's gun: a queen on `q` behind a rook on `m` behind a rook on `f`, all
/// on one file, each consecutive pair a battery.
pub open spec fn gun(pos: Position, q: int, m: int, f: int) -> bool {
    &&& battery_pair_ok(pos, 4, q, 3, m)
    &&& battery_line(4, 3, q, m, pos.all) == Some(0int)
    &&& battery_pair_ok(pos, 3, m, 3, f)
    &&& battery_line(3, 3, m, f, pos.all) == Some(0int)
    &&& f % 8 == q % 8
}

/// Both squares belong to the three squares of some gun.
pub open spec fn in_gun(pos: Position, a: int, b: int) -> bool {
    exists|q: int, m: int, f: int| #[trigger] gun(pos, q, m, f) && (a == q || a == m || a == f) && (b == q || b == m || b == f)
}

} // verus!

verus! {

/// All piece types of one side together.
fn color_occupancy(pos: &Position, c: Color) -> (bb: u64)
    ensures
        bb == union6(pos.pieces[c.spec_index()]),
{
    let b = pos.pieces[c.index()];
    b[0] | b[1] | b[2] | b[3] | b[4] | b[5]
}

fn sign(x: i32) -> (s: i32)
    ensures
        s == signum(x as int),
{
    if x > 0 { 1 } else if x < 0 { -1 } else { 0 }
}

/// The battery guards for a rear of type `rp` on `r` and a front of type `fp`
/// on `f`; the line class of the pair when they pass.
fn battery_pair(pos: &Position, rp: usize, r: u8, fp: usize, f: u8) -> (line: Option<u8>)
    requires
        2 <= rp <= 4,
        2 <= fp <= 4,
        r < 64,
        f < 64,
    ensures
        line is Some == battery_pair_ok(*pos, rp as int, r as int, fp as int, f as int),
        line matches Some(l) ==> battery_line(rp as int, fp as int, r as int, f as int, pos.all) == Some(l as int),
{
    let us = pos.stm.index();
    if r == f {
        return None;
    }
    let has_rear = pos.pieces[us][rp] & (1u64 << (r as u64)) != 0;
    let has_front = pos.pieces[us][fp] & (1u64 << (f as u64)) != 0;
    assert(has_rear == bit(pos.pieces[us as int][rp as int], r as u64));
    assert(has_front == bit(pos.pieces[us as int][fp as int], f as u64));
    if !has_rear || !has_front {
        return None;
    }
    let ra = rook_attacks(r, pos.all);
    let ba = bishop_attacks(r, pos.all);
    let on_rook_line = ra & (1u64 << (f as u64)) != 0;
    let on_bishop_line = ba & (1u64 << (f as u64)) != 0;
    assert(on_rook_line == bit(ra, f as u64));
    assert(on_bishop_line == bit(ba, f as u64));
    assert(on_rook_line == rook_hits(r as int, f as int, pos.all));
    assert(on_bishop_line == bishop_hits(r as int, f as int, pos.all));
    let orth = (rp == 3 || rp == 4) && (fp == 3 || fp == 4) && on_rook_line;
    let diag = (rp == 2 || rp == 4) && (fp == 2 || fp == 4) && on_bishop_line;
    if !orth && !diag {
        assert(battery_line(rp as int, fp as int, r as int, f as int, pos.all) is None);
        return None;
    }
    assert(battery_line(rp as int, fp as int, r as int, f as int, pos.all) is Some);
    let before = typed_slider_attacks(rp, r, pos.all);
    let lifted = pos.all & !(1u64 << (f as u64));
    let after = typed_slider_attacks(rp, r, lifted);
    let ext = after & !before;
    proof {
        assert forall|t: u64| t < 64 implies #[trigger] bit(ext, t) == beyond(rp as int, r as int, f as int, pos.all, t as int) by {
            crate::bits::lemma_bit_and(after, !before, t);
            crate::bits::lemma_bit_not(before, t);
        }
    }
    if ext == 0 {
        proof {
            crate::bits::lemma_zero_no_bit(ext);
            assert forall|t: u64| t < 64 implies !#[trigger] beyond(rp as int, r as int, f as int, pos.all, t as int) by {
                assert(!bit(ext, t));
            }
        }
        return None;
    }
    proof {
        crate::bits::lemma_nonzero_has_bit(ext);
        let t = choose|t: u64| t < 64 && #[trigger] bit(ext, t);
        assert(beyond(rp as int, r as int, f as int, pos.all, t as int));
    }
    let enemy_occ = color_occupancy(pos, pos.stm.flip());
    let hit = ext & enemy_occ;
    proof {
        if hit != 0 {
            crate::bits::lemma_nonzero_has_bit(hit);
            let t = choose|t: u64| t < 64 && #[trigger] bit(hit, t);
            crate::bits::lemma_bit_and(ext, enemy_occ, t);
            assert(beyond(rp as int, r as int, f as int, pos.all, t as int) && bit(enemy_occ, t));
        } else {
            crate::bits::lemma_zero_no_bit(hit);
            assert forall|t: u64| t < 64 implies !(#[trigger] beyond(rp as int, r as int, f as int, pos.all, t as int) && bit(
                union6(pos.pieces[1 - pos.stm.spec_index()]), t)) by {
                crate::bits::lemma_bit_and(ext, enemy_occ, t);
                assert(!bit(hit, t));
            }
        }
    }
    let rf = (r % 8) as i32;
    let rr = (r / 8) as i32;
    let ff = (f % 8) as i32;
    let fr = (f / 8) as i32;
    let bf = ff + sign(ff - rf);
    let br = fr + sign(fr - rr);
    let on_board = 0 <= bf && bf < 8 && 0 <= br && br < 8;
    let muzzle = on_board && pos.pieces[us][0] & (1u64 << ((br * 8 + bf) as u64)) != 0;
    assert(first_beyond(r as int, f as int) == (bf as int, br as int));
    assert(muzzle == own_pawn_muzzle(*pos, r as int, f as int));
    assert((hit != 0) == hits_enemy(*pos, rp as int, r as int, f as int));
    if hit == 0 && muzzle {
        return None;
    }
    if orth {
        if r % 8 == f % 8 { Some(0) } else { Some(1) }
    } else {
        Some(2)
    }
}

/// `guns` lists exactly the guns of the position.
pub open spec fn lists_guns(pos: Position, guns: Seq<(u8, u8, u8)>) -> bool {
    &&& forall|i: int| 0 <= i < guns.len() ==> #[trigger] gun(pos, guns[i].0 as int, guns[i].1 as int, guns[i].2 as int)
    &&& forall|q: int, m: int, f: int| #[trigger] gun(pos, q, m, f) ==> guns.contains((q as u8, m as u8, f as u8))
}

/// Every gun of the position (queen, middle rook, front rook).
fn find_guns(pos: &Position) -> (guns: Vec<(u8, u8, u8)>)
    ensures
        lists_guns(*pos, guns@),
{
    let mut guns: Vec<(u8, u8, u8)> = Vec::new();
    let mut q: u8 = 0;
    while q < 64
        invariant
            q <= 64,
            forall|i: int| 0 <= i < guns@.len() ==> #[trigger] gun(*pos, guns@[i].0 as int, guns@[i].1 as int, guns@[i].2 as int),
            forall|a: int, m: int, f: int| #[trigger] gun(*pos, a, m, f) && a < q ==> guns@.contains((a as u8, m as u8, f as u8)),
        decreases 64 - q,
    {
        let mut m: u8 = 0;
        while m < 64
            invariant
                q < 64,
                m <= 64,
                forall|i: int| 0 <= i < guns@.len() ==> #[trigger] gun(*pos, guns@[i].0 as int, guns@[i].1 as int, guns@[i].2 as int),
                forall|a: int, b: int, f: int| #[trigger] gun(*pos, a, b, f) && (a < q || (a == q && b < m)) ==> guns@.contains(
                    (a as u8, b as u8, f as u8)),
            decreases 64 - m,
        {
            if battery_pair(pos, 4, q, 3, m).is_some() && (q % 8 == m % 8) {
                let mut f: u8 = 0;
                while f < 64
                    invariant
                        q < 64,
                        m < 64,
                        f <= 64,
                        battery_pair_ok(*pos, 4, q as int, 3, m as int),
                        q % 8 == m % 8,
                        forall|i: int| 0 <= i < guns@.len() ==> #[trigger] gun(*pos, guns@[i].0 as int, guns@[i].1 as int, guns@[i].2 as int),
                        forall|a: int, b: int, c: int| #[trigger] gun(*pos, a, b, c) && (a < q || (a == q && b < m) || (a == q && b == m
                            && c < f)) ==> guns@.contains((a as u8, b as u8, c as u8)),
                    decreases 64 - f,
                {
                    if f % 8 == q % 8 && battery_pair(pos, 3, m, 3, f).is_some() {
                        let ghost before = guns@;
                        guns.push((q, m, f));
                        proof {
                            assert(guns@[guns@.len() - 1] == (q, m, f));
                            assert forall|a: int, b: int, c: int| #[trigger] gun(*pos, a, b, c) && (a < q || (a == q && b < m) || (a == q
                                && b == m && c < f + 1)) implies guns@.contains((a as u8, b as u8, c as u8)) by {
                                if a == q && b == m && c == f {
                                    assert(guns@[guns@.len() - 1] == (a as u8, b as u8, c as u8));
                                } else {
                                    assert(before.contains((a as u8, b as u8, c as u8)));
                                    let k = choose|k: int| 0 <= k < before.len() && before[k] == (a as u8, b as u8, c as u8);
                                    assert(guns@[k] == before[k]);
                                }
                            }
                        }
                    }
                    f = f + 1;
                }
            }
            m = m + 1;
        }
        q = q + 1;
    }
    guns
}

} // verus!

verus! {

/// Squares walked from (`f`, `r`) in steps of (`df`, `dr`) until (`fb`, `rb`)
/// is reached or the walk leaves the board (eight steps always suffice).
pub open spec fn walk(f: int, r: int, df: int, dr: int, fb: int, rb: int, fuel: nat) -> Seq<u8>
    decreases fuel,
{
    if fuel == 0 || (f == fb && r == rb) || !(0 <= f < 8 && 0 <= r < 8) {
        Seq::empty()
    } else {
        seq![(r * 8 + f) as u8] + walk(f + df, r + dr, df, dr, fb, rb, (fuel - 1) as nat)
    }
}

/// The squares strictly between `a` and `b`, walking from `a` toward `b`.
pub open spec fn between(a: int, b: int) -> Seq<u8> {
    let df = signum(b % 8 - a % 8);
    let dr = signum(b / 8 - a / 8);
    walk(a % 8 + df, a / 8 + dr, df, dr, b % 8, b / 8, 8)
}

/// Slider types in the order of their names: bishop, queen, rook.
pub open spec fn name_order_slider(k: int) -> int {
    if k == 0 { 2 } else if k == 1 { 4 } else { 3 }
}

/// Candidate `n` of the 3 * 64 * 3 * 64 (rear type, rear square, front type,
/// front square) combinations, in the order of the rear id and then the front
/// id (`<color>-<piece>-<square>`, one color throughout).
pub open spec fn candidate(n: int) -> (int, int, int, int) {
    (name_order_slider(n / 12288), name_order_square((n / 192) % 64), name_order_slider((n / 64) % 3), name_order_square(n % 64))
}

/// Some gun runs from a queen on `q` to a rook on `f`.
pub open spec fn has_gun(pos: Position, q: int, f: int) -> bool {
    exists|m: int| #[trigger] gun(pos, q, m, f)
}

/// What candidate `n` emits: a gun (queen rear, rook muzzle), or a pair that
/// passes the guards and is not inside a gun, as (rear type, rear square, front
/// type, front square, is a gun).
pub open spec fn entry_at(pos: Position, n: int) -> Option<(int, int, int, int, bool)> {
    let (rp, r, fp, f) = candidate(n);
    if rp == 4 && fp == 3 && has_gun(pos, r, f) {
        Some((rp, r, fp, f, true))
    } else if battery_pair_ok(pos, rp, r, fp, f) && !in_gun(pos, r, f) {
        Some((rp, r, fp, f, false))
    } else {
        None
    }
}

/// The entries of the first `n` candidates.
pub open spec fn battery_entries(pos: Position, n: nat) -> Seq<(int, int, int, int, bool)>
    decreases n,
{
    if n == 0 {
        Seq::empty()
    } else {
        let prev = battery_entries(pos, (n - 1) as nat);
        match entry_at(pos, n - 1) {
            Some(e) => prev.push(e),
            None => prev,
        }
    }
}

pub open spec fn line_word(line: int) -> Seq<char> {
    if line == 0 { "file"@ } else if line == 1 { "rank"@ } else { "diagonal"@ }
}

/// Two rooks on a rook line, a queen with a bishop on a diagonal, else plain.
pub open spec fn pair_subtype(rp: int, fp: int, line: int) -> Seq<char> {
    if line == 2 {
        if rp != fp { "queen_bishop_battery"@ } else { "battery"@ }
    } else {
        if rp == 3 && fp == 3 { "two_rooks_battery"@ } else { "battery"@ }
    }
}

/// The fact of an aligned pair.
pub open spec fn pair_fact(pos: Position, rp: int, r: int, fp: int, f: int, fact: BatteryFact) -> bool {
    let line = battery_line(rp, fp, r, f, pos.all).unwrap();
    &&& fact.kind@ == "battery"@
    &&& fact.validator@ == "battery_validation"@
    &&& fact.subtype@ == pair_subtype(rp, fp, line)
    &&& piece_ref_spec(pos.stm, piece_of_index(rp), r as u8, fact.rear)
    &&& piece_ref_spec(pos.stm, piece_of_index(fp), f as u8, fact.front)
    &&& fact.middle is None
    &&& names_of(fact.ray@, between(r, f))
    &&& fact.line@ == line_word(line)
}

/// The fact of Alekhine's gun from the queen on `q` to the muzzle rook on `f`.
pub open spec fn gun_fact(pos: Position, q: int, f: int, fact: BatteryFact) -> bool {
    &&& fact.kind@ == "battery"@
    &&& fact.validator@ == "battery_validation"@
    &&& fact.subtype@ == "alekhines_gun"@
    &&& piece_ref_spec(pos.stm, Piece::Queen, q as u8, fact.rear)
    &&& piece_ref_spec(pos.stm, Piece::Rook, f as u8, fact.front)
    &&& fact.middle is Some
    &&& (exists|m: int| #[trigger] gun(pos, q, m, f) && piece_ref_spec(pos.stm, Piece::Rook, m as u8, fact.middle.unwrap()))
    &&& names_of(fact.ray@, between(q, f))
    &&& fact.line@ == "file"@
}

pub open spec fn entry_fact(pos: Position, e: (int, int, int, int, bool), fact: BatteryFact) -> bool {
    if e.4 {
        gun_fact(pos, e.1, e.3, fact)
    } else {
        pair_fact(pos, e.0, e.1, e.2, e.3, fact)
    }
}

/// `facts` are the facts of `entries`, one for one.
pub open spec fn facts_follow(pos: Position, facts: Seq<BatteryFact>, entries: Seq<(int, int, int, int, bool)>) -> bool {
    &&& facts.len() == entries.len()
    &&& forall|i: int| 0 <= i < facts.len() ==> #[trigger] entry_fact(pos, entries[i], facts[i])
}

/// The battery facts of `pos`: every candidate's entry, in candidate order.
pub open spec fn battery_result(pos: Position, c: FactCollection<BatteryFact>) -> bool {
    match c {
        FactCollection::Computed { items } => facts_follow(pos, items@, battery_entries(pos, 36864)),
        _ => false,
    }
}

} // verus!

verus! {

/// The squares strictly between `a` and `b` on their common line.
fn squares_between(a: u8, b: u8) -> (v: Vec<u8>)
    requires
        a < 64,
        b < 64,
    ensures
        v@ == between(a as int, b as int),
{
    let fa = (a % 8) as i32;
    let ra = (a / 8) as i32;
    let fb = (b % 8) as i32;
    let rb = (b / 8) as i32;
    let df = sign(fb - fa);
    let dr = sign(rb - ra);
    let mut f = fa + df;
    let mut r = ra + dr;
    let mut fuel: u32 = 8;
    let mut out: Vec<u8> = Vec::new();
    assert(out@ + walk(f as int, r as int, df as int, dr as int, fb as int, rb as int, fuel as nat) =~= between(a as int, b as int));
    while fuel > 0 && !(f == fb && r == rb) && 0 <= f && f < 8 && 0 <= r && r < 8
        invariant
            -1 <= f <= 8,
            -1 <= r <= 8,
            -1 <= df <= 1,
            -1 <= dr <= 1,
            0 <= fb < 8,
            0 <= rb < 8,
            out@ + walk(f as int, r as int, df as int, dr as int, fb as int, rb as int, fuel as nat) == between(a as int, b as int),
        decreases fuel,
    {
        let ghost old_out = out@;
        let ghost rest = walk(f as int + df as int, r as int + dr as int, df as int, dr as int, fb as int, rb as int, (fuel - 1) as nat);
        let s = (r * 8 + f) as u8;
        out.push(s);
        assert(old_out + (seq![s] + rest) =~= out@ + rest);
        f = f + df;
        r = r + dr;
        fuel = fuel - 1;
    }
    assert(walk(f as int, r as int, df as int, dr as int, fb as int, rb as int, fuel as nat) =~= Seq::empty());
    assert(out@ + Seq::<u8>::empty() =~= out@);
    out
}

/// The names of the squares strictly between `a` and `b`.
fn ray_names(a: u8, b: u8) -> (v: Vec<String>)
    requires
        a < 64,
        b < 64,
    ensures
        names_of(v@, between(a as int, b as int)),
{
    let squares = squares_between(a, b);
    let mut out: Vec<String> = Vec::new();
    let mut i: usize = 0;
    while i < squares.len()
        invariant
            i <= squares.len(),
            squares@ == between(a as int, b as int),
            out@.len() == i,
            forall|j: int| 0 <= j < i ==> #[trigger] out@[j]@ == square_name_spec(squares@[j]),
        decreases squares.len() - i,
    {
        out.push(square_name(squares[i]));
        i = i + 1;
    }
    out
}

fn slider_in_name_order(k: u32) -> (p: usize)
    requires
        k < 3,
    ensures
        p == name_order_slider(k as int),
{
    if k == 0 { 2 } else if k == 1 { 4 } else { 3 }
}

/// The middle rook of a listed gun from `q` to `f`, if there is one.
fn gun_middle(pos: &Position, guns: &Vec<(u8, u8, u8)>, q: u8, f: u8) -> (m: Option<u8>)
    requires
        lists_guns(*pos, guns@),
    ensures
        match m {
            Some(m) => gun(*pos, q as int, m as int, f as int),
            None => !has_gun(*pos, q as int, f as int),
        },
{
    let mut i: usize = 0;
    while i < guns.len()
        invariant
            i <= guns.len(),
            lists_guns(*pos, guns@),
            forall|j: int| 0 <= j < i ==> !(#[trigger] guns@[j].0 == q && guns@[j].2 == f),
        decreases guns.len() - i,
    {
        let g = guns[i];
        if g.0 == q && g.2 == f {
            assert(gun(*pos, guns@[i as int].0 as int, guns@[i as int].1 as int, guns@[i as int].2 as int));
            return Some(g.1);
        }
        i = i + 1;
    }
    assert forall|m: int| !#[trigger] gun(*pos, q as int, m, f as int) by {
        if gun(*pos, q as int, m, f as int) {
            assert(guns@.contains((q, m as u8, f)));
            let j = choose|j: int| 0 <= j < guns@.len() && guns@[j] == (q, m as u8, f);
            assert(guns@[j].0 == q && guns@[j].2 == f);
        }
    }
    None
}

/// Both squares lie in the square set of one listed gun.
fn covered_by_gun(pos: &Position, guns: &Vec<(u8, u8, u8)>, a: u8, b: u8) -> (c: bool)
    requires
        lists_guns(*pos, guns@),
    ensures
        c == in_gun(*pos, a as int, b as int),
{
    let mut i: usize = 0;
    while i < guns.len()
        invariant
            i <= guns.len(),
            lists_guns(*pos, guns@),
            forall|j: int| 0 <= j < i ==> !(#[trigger] in_set(guns@[j], a) && in_set(guns@[j], b)),
        decreases guns.len() - i,
    {
        let g = guns[i];
        if (a == g.0 || a == g.1 || a == g.2) && (b == g.0 || b == g.1 || b == g.2) {
            assert(gun(*pos, g.0 as int, g.1 as int, g.2 as int));
            return true;
        }
        assert(!(in_set(guns@[i as int], a) && in_set(guns@[i as int], b)));
        i = i + 1;
    }
    assert forall|q: int, m: int, f: int| #[trigger] gun(*pos, q, m, f) implies !((a == q || a == m || a == f) && (b == q || b == m || b == f)) by {
        assert(guns@.contains((q as u8, m as u8, f as u8)));
        let j = choose|j: int| 0 <= j < guns@.len() && guns@[j] == (q as u8, m as u8, f as u8);
        assert(!(in_set(guns@[j], a) && in_set(guns@[j], b)));
    }
    false
}

pub open spec fn in_set(g: (u8, u8, u8), s: u8) -> bool {
    s == g.0 || s == g.1 || s == g.2
}

} // verus!

verus! {

/// The fact of a pair that passed the guards on line class `line`.
fn pair_fact_of(pos: &Position, rp: usize, r: u8, fp: usize, f: u8, line: u8) -> (fact: BatteryFact)
    requires
        2 <= rp <= 4,
        2 <= fp <= 4,
        r < 64,
        f < 64,
        battery_line(rp as int, fp as int, r as int, f as int, pos.all) == Some(line as int),
    ensures
        pair_fact(*pos, rp as int, r as int, fp as int, f as int, fact),
{
    let pieces = all_pieces();
    let subtype: &str = if line == 2 {
        if rp != fp { "queen_bishop_battery" } else { "battery" }
    } else if rp == 3 && fp == 3 {
        "two_rooks_battery"
    } else {
        "battery"
    };
    let line_text: &str = if line == 0 { "file" } else if line == 1 { "rank" } else { "diagonal" };
    BatteryFact {
        kind: String::from_str("battery"),
        validator: String::from_str("battery_validation"),
        subtype: String::from_str(subtype),
        rear: piece_ref(pos.stm, pieces[rp], r),
        front: piece_ref(pos.stm, pieces[fp], f),
        middle: None,
        ray: ray_names(r, f),
        line: String::from_str(line_text),
    }
}

/// The fact of the gun from the queen on `q` over the rook on `m` to the rook on `f`.
fn gun_fact_of(pos: &Position, q: u8, m: u8, f: u8) -> (fact: BatteryFact)
    requires
        gun(*pos, q as int, m as int, f as int),
    ensures
        gun_fact(*pos, q as int, f as int, fact),
{
    let middle = piece_ref(pos.stm, Piece::Rook, m);
    let fact = BatteryFact {
        kind: String::from_str("battery"),
        validator: String::from_str("battery_validation"),
        subtype: String::from_str("alekhines_gun"),
        rear: piece_ref(pos.stm, Piece::Queen, q),
        front: piece_ref(pos.stm, Piece::Rook, f),
        middle: Some(middle),
        ray: ray_names(q, f),
        line: String::from_str("file"),
    };
    assert(gun(*pos, q as int, m as int, f as int) && piece_ref_spec(pos.stm, Piece::Rook, (m as int) as u8, fact.middle.unwrap()));
    fact
}

/// The fact that candidate `n` emits, if any.
fn candidate_fact(pos: &Position, guns: &Vec<(u8, u8, u8)>, n: u32) -> (r: Option<BatteryFact>)
    requires
        lists_guns(*pos, guns@),
        n < 36864,
    ensures
        match entry_at(*pos, n as int) {
            Some(e) => r is Some && entry_fact(*pos, e, r.unwrap()),
            None => r is None,
        },
{
    let rp = slider_in_name_order(n / 12288);
    let r = square_in_name_order((n / 192) % 64);
    let fp = slider_in_name_order((n / 64) % 3);
    let f = square_in_name_order(n % 64);
    assert(candidate(n as int) == (rp as int, r as int, fp as int, f as int));
    if rp == 4 && fp == 3 {
        match gun_middle(pos, guns, r, f) {
            Some(m) => {
                return Some(gun_fact_of(pos, r, m, f));
            },
            None => {},
        }
    }
    match battery_pair(pos, rp, r, fp, f) {
        Some(line) => {
            if covered_by_gun(pos, guns, r, f) {
                None
            } else {
                Some(pair_fact_of(pos, rp, r, fp, f, line))
            }
        },
        None => None,
    }
}

/// Standing batteries of the side to move. Every ordered pair of our sliders
/// that share a line class (rooks and queens on files and ranks, bishops and
/// queens on diagonals) with an empty corridor is a candidate; it stands when
/// the rear's reach extends past the front and, unless that extension meets
/// an enemy piece, the first square past the front is not one of our pawns.
/// A queen behind two rooks on one file is reported once as Alekhine's gun,
/// and every pair with both squares inside a gun is left out. Facts come in
/// the order of the rear's id and then the front's id. There is no check
/// gate: the formation stands even while its owner is in check.
pub fn battery_opportunities(pos: &Position) -> (c: FactCollection<BatteryFact>)
    ensures
        battery_result(*pos, c),
{
    let guns = find_guns(pos);
    let mut out: Vec<BatteryFact> = Vec::new();
    let mut n: u32 = 0;
    while n < 36864
        invariant
            n <= 36864,
            lists_guns(*pos, guns@),
            facts_follow(*pos, out@, battery_entries(*pos, n as nat)),
        decreases 36864 - n,
    {
        let ghost before = out@;
        let ghost entries = battery_entries(*pos, n as nat);
        match candidate_fact(pos, &guns, n) {
            Some(fact) => {
                out.push(fact);
                assert forall|i: int| 0 <= i < out@.len() implies #[trigger] entry_fact(*pos, battery_entries(*pos, (n + 1) as nat)[i], out@[i]) by {
                    if i < before.len() {
                        assert(out@[i] == before[i]);
                        assert(entry_fact(*pos, entries[i], before[i]));
                    }
                }
            },
            None => {},
        }
        assert(battery_entries(*pos, (n + 1) as nat) == match entry_at(*pos, n as int) {
            Some(e) => entries.push(e),
            None => entries,
        });
        n = n + 1;
    }
    FactCollection::computed(out)
}

/// `p` is `pos` looked at with `side` to move.
pub open spec fn seen_by(pos: Position, side: Color, p: Position) -> bool {
    p.pieces == pos.pieces && p.all == pos.all && p.stm == side
}


/// Standing batteries of `side`: refused for the side not to move while the
/// side to move is in check, else those of the position with `side` to move.
pub fn battery_opportunities_for(pos: &Position, side: Color) -> (c: FactCollection<BatteryFact>)
    requires
        pos.stm != side ==> pos.pieces[pos.stm.spec_index()][5] != 0,
    ensures
        pos.stm != side && stm_king_attacked_by(*pos, side) ==> unavailable_because(c, "opposite_side_probe_while_in_check"@),
        !(pos.stm != side && stm_king_attacked_by(*pos, side)) ==> exists|p: Position| #[trigger] seen_by(*pos, side, p) && battery_result(p, c),
{
    match position_for_analysis_side(pos, side) {
        Ok(probe) => {
            let c = battery_opportunities(&probe);
            assert(seen_by(*pos, side, probe));
            c
        },
        Err(reason) => FactCollection::unavailable(reason),
    }
}

} // verus!
