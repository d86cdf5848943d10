//! Legal move generation. Pseudo-legal moves are generated with bitboards, then
//! filtered for legality by make -> "is the mover's king attacked?" -> unmake.
use vstd::prelude::*;
use crate::{Move, MoveFlag};

verus! {

/// Conservative fixed move-list capacity.
pub const MAX_MOVES: usize = 256;

/// A fixed-capacity list of moves.
pub struct MoveList {
    moves: [Move; 256],
    len: usize,
}

impl View for MoveList {
    type V = Seq<Move>;

    closed spec fn view(&self) -> Seq<Move> {
        self.moves@.take(self.len as int)
    }
}

/// The moves of `s` whose decision in `keep` is true, in order.
pub open spec fn filter_by(s: Seq<Move>, keep: Seq<bool>) -> Seq<Move>
    decreases s.len(),
{
    if s.len() == 0 || keep.len() == 0 {
        Seq::empty()
    } else {
        let rest = filter_by(s.drop_last(), keep.drop_last());
        if keep.last() {
            rest.push(s.last())
        } else {
            rest
        }
    }
}

impl Clone for MoveList {
    fn clone(&self) -> (c: MoveList)
        ensures
            c@ == self@,
    {
        proof {
            use_type_invariant(self);
        }
        MoveList { moves: self.moves, len: self.len }
    }
}

impl MoveList {
    /// The list stays within its capacity.
    #[verifier::type_invariant]
    spec fn within_capacity(self) -> bool {
        self.len <= MAX_MOVES
    }

    pub fn new() -> (l: MoveList)
        ensures
            l@ == Seq::<Move>::empty(),
    {
        let l = MoveList { moves: [Move { from: 0, to: 0, flag: MoveFlag::Quiet }; 256], len: 0 };
        assert(l@ =~= Seq::<Move>::empty());
        l
    }

    pub fn push(&mut self, mv: Move)
        requires
            old(self)@.len() < MAX_MOVES,
        ensures
            final(self)@ == old(self)@.push(mv),
    {
        proof {
            use_type_invariant(&*self);
        }
        let ghost before = self@;
        self.moves[self.len] = mv;
        self.len = self.len + 1;
        assert(self@ =~= before.push(mv));
    }

    pub fn len(&self) -> (n: usize)
        ensures
            n == self@.len(),
    {
        proof {
            use_type_invariant(self);
        }
        self.len
    }

    pub fn is_empty(&self) -> (b: bool)
        ensures
            b == (self@.len() == 0),
    {
        proof {
            use_type_invariant(self);
        }
        self.len == 0
    }

    pub fn get(&self, index: usize) -> (m: Move)
        requires
            index < self@.len(),
        ensures
            m == self@[index as int],
    {
        proof {
            use_type_invariant(self);
        }
        self.moves[index]
    }

    pub fn as_slice(&self) -> (s: &[Move])
        ensures
            s@ == self@,
    {
        proof {
            use_type_invariant(self);
        }
        let (a, _b) = self.moves.as_slice().split_at(self.len);
        a
    }

    /// Keep the moves for which `keep` answers true, in order.
    pub fn retain<F>(&mut self, keep: F)
        where
            F: Fn(&Move) -> bool,
        requires
            forall|m: Move| #[trigger] keep.requires((&m,)),
        ensures
            exists|d: Seq<bool>|
                d.len() == old(self)@.len() && (forall|i: int| 0 <= i < d.len() ==> #[trigger] keep.ensures((&old(self)@[i],), d[i]))
                    && final(self)@ == filter_by(old(self)@, d),
    {
        proof {
            use_type_invariant(&*self);
        }
        let ghost orig = self@;
        let ghost mut d: Seq<bool> = Seq::empty();
        let n = self.len;
        let mut out: usize = 0;
        let mut i: usize = 0;
        while i < n
            invariant
                n == orig.len(),
                n <= MAX_MOVES,
                out <= i <= n,
                self.len == n,
                d.len() == i,
                forall|k: int| i <= k < n ==> #[trigger] self.moves@[k] == orig[k],
                forall|k: int| 0 <= k < d.len() ==> #[trigger] keep.ensures((&orig[k],), d[k]),
                forall|m: Move| #[trigger] keep.requires((&m,)),
                self.moves@.take(out as int) == filter_by(orig.take(i as int), d),
            decreases n - i,
        {
            let mv = self.moves[i];
            let k = keep(&mv);
            proof {
                let prev = orig.take(i as int);
                assert(orig.take(i + 1).drop_last() =~= prev);
                assert(orig.take(i + 1).last() == mv);
                let old_d = d;
                d = d.push(k);
                assert(d.drop_last() =~= old_d);
                assert(filter_by(orig.take(i + 1), d) == if k {
                    filter_by(prev, old_d).push(mv)
                } else {
                    filter_by(prev, old_d)
                });
            }
            if k {
                let ghost before = self.moves@;
                self.moves[out] = mv;
                assert(self.moves@.take(out + 1) =~= before.take(out as int).push(mv));
                out = out + 1;
            }
            i = i + 1;
        }
        self.len = out;
        assert(orig.take(n as int) =~= orig);
    }

    pub fn into_vec(self) -> (v: Vec<Move>)
        ensures
            v@ == self@,
    {
        let s = self.as_slice();
        vstd::slice::slice_to_vec(s)
    }
}

} // verus!

verus! {

use crate::bits::{bit, pop_lsb};
use crate::attacks::{pawn_hit, piece_attacks, square_attacked, pawn_attacks, knight_attacks,
    bishop_attacks, rook_attacks, queen_attacks, king_attacks, bishop_hits, rook_hits,
    knight_hop, king_step};
use crate::position::{Position, piece_on};
use crate::{Color, Piece, piece_of_index};

/// The square one step forward for a pawn of `us`.
pub open spec fn pawn_forward(us: Color, from: int) -> int {
    if us == Color::White {
        from + 8
    } else {
        from - 8
    }
}

pub open spec fn promo_rank(us: Color) -> int {
    if us == Color::White {
        7
    } else {
        0
    }
}

pub open spec fn start_rank(us: Color) -> int {
    if us == Color::White {
        1
    } else {
        6
    }
}

pub open spec fn is_promo_push_flag(f: MoveFlag) -> bool {
    f == MoveFlag::PromoQ || f == MoveFlag::PromoR || f == MoveFlag::PromoB || f == MoveFlag::PromoN
}

pub open spec fn is_promo_cap_flag(f: MoveFlag) -> bool {
    f == MoveFlag::PromoQCap || f == MoveFlag::PromoRCap || f == MoveFlag::PromoBCap || f == MoveFlag::PromoNCap
}

/// A noisy move: a capture (including en passant) or a promotion.
pub open spec fn is_noisy(f: MoveFlag) -> bool {
    f.spec_is_capture() || f.spec_promo_piece() is Some
}

/// `mv` is a pseudo-legal pawn move of the side to move.
pub open spec fn pawn_pseudo(pos: Position, mv: Move) -> bool {
    let us = pos.stm;
    let u = us.spec_index();
    let them = 1 - u;
    let from = mv.from as int;
    let to = mv.to as int;
    let one = pawn_forward(us, from);
    &&& mv.from < 64 && mv.to < 64
    &&& bit(pos.pieces[u][0], mv.from as u64)
    &&& {
        ||| (to == one && !bit(pos.all, to as u64) && (if to / 8 == promo_rank(us) {
            is_promo_push_flag(mv.flag)
        } else {
            mv.flag == MoveFlag::Quiet
        }))
        ||| (mv.flag == MoveFlag::DoublePush && from / 8 == start_rank(us) && 0 <= one < 64 && !bit(pos.all, one as u64)
            && to == pawn_forward(us, one) && !bit(pos.all, to as u64))
        ||| (pawn_hit(us, from, to) && bit(pos.occ[them], to as u64) && (if to / 8 == promo_rank(us) {
            is_promo_cap_flag(mv.flag)
        } else {
            mv.flag == MoveFlag::Capture
        }))
        ||| (mv.flag == MoveFlag::EnPassant && pos.ep == Some(mv.to) && pawn_hit(us, from, to))
    }
}

/// `mv` is a pseudo-legal knight/bishop/rook/queen/king move of the side to move.
pub open spec fn piece_pseudo(pos: Position, mv: Move) -> bool {
    let us = pos.stm;
    let u = us.spec_index();
    let them = 1 - u;
    &&& mv.from < 64 && mv.to < 64
    &&& piece_on(pos.pieces, u, mv.from as u64) matches Some(p) && p != Piece::Pawn
        && piece_attacks(p, us, mv.from as int, mv.to as int, pos.all)
    &&& !bit(pos.occ[u], mv.to as u64)
    &&& mv.flag == (if bit(pos.occ[them], mv.to as u64) { MoveFlag::Capture } else { MoveFlag::Quiet })
}

/// `s` is empty and not attacked by the side not to move.
pub open spec fn castle_square_safe(pos: Position, s: int) -> bool {
    !square_attacked(pos.pieces, s, pos.stm.spec_flip(), pos.all)
}

/// `mv` is a castling move of the side to move whose rights are held, whose
/// path squares are empty and whose king squares are not attacked.
pub open spec fn castle_pseudo(pos: Position, mv: Move) -> bool {
    let white = pos.stm == Color::White;
    let e: int = if white { 4 } else { 60 };
    let kr: u8 = if white { crate::castle::WK } else { crate::castle::BK };
    let qr: u8 = if white { crate::castle::WQ } else { crate::castle::BQ };
    let empty = |s: int| !bit(pos.all, s as u64);
    ||| (mv.flag == MoveFlag::KingCastle && mv.from == e && mv.to == e + 2 && pos.castling & kr != 0
        && empty(e + 1) && empty(e + 2) && castle_square_safe(pos, e) && castle_square_safe(pos, e + 1)
        && castle_square_safe(pos, e + 2))
    ||| (mv.flag == MoveFlag::QueenCastle && mv.from == e && mv.to == e - 2 && pos.castling & qr != 0
        && empty(e - 3) && empty(e - 2) && empty(e - 1) && castle_square_safe(pos, e)
        && castle_square_safe(pos, e - 1) && castle_square_safe(pos, e - 2))
}

/// `mv` is pseudo-legal (may leave the king in check; castling never passes
/// through an attacked square).
pub open spec fn pseudo_move(pos: Position, mv: Move) -> bool {
    pawn_pseudo(pos, mv) || piece_pseudo(pos, mv) || castle_pseudo(pos, mv)
}

/// `new` lists, without repetition, exactly the moves satisfying `pred`.
pub open spec fn lists_exactly(new: Seq<Move>, pred: spec_fn(Move) -> bool) -> bool {
    &&& new.no_duplicates()
    &&& forall|m: Move| #![trigger new.contains(m)] #![trigger pred(m)] new.contains(m) <==> pred(m)
}

/// No pawn of the side to move stands on its promotion rank (a pawn there
/// would have no forward square).
pub open spec fn pawns_in_range(pos: Position) -> bool {
    let u = pos.stm.spec_index();
    forall|s: u64| s < 64 && #[trigger] bit(pos.pieces[u][0], s) ==> s / 8 != promo_rank(pos.stm)
}

} // verus!

verus! {

proof fn lemma_push_nodup(s: Seq<Move>, m: Move)
    requires
        s.no_duplicates(),
        !s.contains(m),
    ensures
        s.push(m).no_duplicates(),
        forall|x: Move| #[trigger] s.push(m).contains(x) <==> (s.contains(x) || x == m),
{
    let t = s.push(m);
    assert forall|i: int, j: int| 0 <= i < t.len() && 0 <= j < t.len() && i != j implies t[i] != t[j] by {
        if i < s.len() && j < s.len() {
        } else if i == s.len() {
            assert(s.contains(t[j]));
        } else {
            assert(s.contains(t[i]));
        }
    }
    assert forall|x: Move| #[trigger] t.contains(x) <==> (s.contains(x) || x == m) by {
        if t.contains(x) {
            let i = choose|i: int| 0 <= i < t.len() && t[i] == x;
            if i < s.len() {
                assert(s[i] == x);
            }
        }
        if s.contains(x) {
            let i = choose|i: int| 0 <= i < s.len() && s[i] == x;
            assert(t[i] == x);
        }
        if x == m {
            assert(t[s.len() as int] == m);
        }
    }
}

proof fn lemma_concat_lists(a: Seq<Move>, b: Seq<Move>)
    requires
        a.no_duplicates(),
        b.no_duplicates(),
        forall|m: Move| a.contains(m) ==> !b.contains(m),
    ensures
        (a + b).no_duplicates(),
        forall|m: Move| #[trigger] (a + b).contains(m) <==> (a.contains(m) || b.contains(m)),
{
    let t = a + b;
    assert forall|i: int, j: int| 0 <= i < t.len() && 0 <= j < t.len() && i != j implies t[i] != t[j] by {
        if i < a.len() && j < a.len() {
        } else if i >= a.len() && j >= a.len() {
            assert(t[i] == b[i - a.len()]);
            assert(t[j] == b[j - a.len()]);
        } else if i < a.len() {
            assert(a.contains(t[i]));
            assert(b.contains(b[j - a.len()]));
        } else {
            assert(a.contains(t[j]));
            assert(b.contains(b[i - a.len()]));
        }
    }
    assert forall|m: Move| #[trigger] t.contains(m) <==> (a.contains(m) || b.contains(m)) by {
        if t.contains(m) {
            let i = choose|i: int| 0 <= i < t.len() && t[i] == m;
            if i < a.len() {
                assert(a[i] == m);
            } else {
                assert(b[i - a.len()] == m);
            }
        }
        if a.contains(m) {
            let i = choose|i: int| 0 <= i < a.len() && a[i] == m;
            assert(t[i] == m);
        }
        if b.contains(m) {
            let i = choose|i: int| 0 <= i < b.len() && b[i] == m;
            assert(t[i + a.len()] == m);
        }
    }
}

/// Appends `m`, which must not be among the moves appended so far.
fn push_new(moves: &mut Vec<Move>, Ghost(start): Ghost<int>, m: Move)
    requires
        0 <= start <= old(moves)@.len(),
        old(moves)@.subrange(start, old(moves)@.len() as int).no_duplicates(),
        !old(moves)@.subrange(start, old(moves)@.len() as int).contains(m),
    ensures
        final(moves)@ == old(moves)@.push(m),
        final(moves)@.subrange(start, final(moves)@.len() as int) == old(moves)@.subrange(start, old(moves)@.len() as int).push(m),
        final(moves)@.subrange(start, final(moves)@.len() as int).no_duplicates(),
        forall|x: Move| #[trigger] final(moves)@.subrange(start, final(moves)@.len() as int).contains(x) <==> (
            old(moves)@.subrange(start, old(moves)@.len() as int).contains(x) || x == m),
{
    let ghost seg = moves@.subrange(start, moves@.len() as int);
    moves.push(m);
    assert(moves@.subrange(start, moves@.len() as int) =~= seg.push(m));
    proof {
        lemma_push_nodup(seg, m);
    }
}

} // verus!

verus! {

/// The moves from `from` to each member of `targets`, flagged as captures when
/// the target is an enemy square.
pub open spec fn target_move(from: u8, targets: u64, them_occ: u64, m: Move) -> bool {
    &&& m.from == from
    &&& m.to < 64
    &&& bit(targets, m.to as u64)
    &&& m.flag == (if bit(them_occ, m.to as u64) { MoveFlag::Capture } else { MoveFlag::Quiet })
}

fn add_quiet_or_cap(moves: &mut Vec<Move>, from: u8, targets: u64, them_occ: u64)
    ensures
        final(moves)@.subrange(0, old(moves)@.len() as int) == old(moves)@,
        final(moves)@.len() >= old(moves)@.len(),
        lists_exactly(final(moves)@.subrange(old(moves)@.len() as int, final(moves)@.len() as int),
            |m: Move| target_move(from, targets, them_occ, m)),
{
    let ghost start = moves@.len() as int;
    let ghost orig = moves@;
    let mut rest = targets;
    assert(moves@.subrange(start, moves@.len() as int) =~= Seq::<Move>::empty());
    while rest != 0
        invariant
            start == orig.len(),
            moves@.len() >= start,
            moves@.subrange(0, start) == orig,
            moves@.subrange(start, moves@.len() as int).no_duplicates(),
            forall|t: u64| t < 64 && #[trigger] bit(rest, t) ==> bit(targets, t),
            forall|m: Move| #[trigger] moves@.subrange(start, moves@.len() as int).contains(m) <==> (target_move(
                from,
                targets,
                them_occ,
                m,
            ) && !bit(rest, m.to as u64)),
        decreases rest,
    {
        let ghost before = rest;
        let to = pop_lsb(&mut rest);
        let flag = if (1u64 << to) & them_occ != 0 {
            MoveFlag::Capture
        } else {
            MoveFlag::Quiet
        };
        proof {
            assert(((1u64 << to) & them_occ != 0) == bit(them_occ, to as u64)) by (bit_vector);
            assert forall|t: u64| t < 64 implies #[trigger] bit(rest, t) == (t != to && bit(before, t)) by {
                crate::bits::lemma_bit_clear(before, to as u64, t);
            }
            assert(!moves@.subrange(start, moves@.len() as int).contains(Move { from, to, flag }));
        }
        push_new(moves, Ghost(start), Move { from, to, flag });
        proof {
            assert(moves@.subrange(0, start) =~= orig);
        }
    }
    proof {
        crate::bits::lemma_zero_no_bit(rest);
    }
}

} // verus!

verus! {

/// The promotion flag among `flags` chosen by index (queen, rook, bishop, knight).
pub open spec fn promo_push_flags() -> Seq<MoveFlag> {
    seq![MoveFlag::PromoQ, MoveFlag::PromoR, MoveFlag::PromoB, MoveFlag::PromoN]
}

/// Pawn capture moves from `from` onto the members of `targets`.
pub open spec fn pawn_cap_move(us: Color, from: u8, targets: u64, m: Move) -> bool {
    &&& m.from == from
    &&& m.to < 64
    &&& bit(targets, m.to as u64)
    &&& (if m.to / 8 == promo_rank(us) { is_promo_cap_flag(m.flag) } else { m.flag == MoveFlag::Capture })
}

fn add_pawn_caps(moves: &mut Vec<Move>, us: Color, from: u8, targets: u64)
    ensures
        final(moves)@.subrange(0, old(moves)@.len() as int) == old(moves)@,
        final(moves)@.len() >= old(moves)@.len(),
        lists_exactly(final(moves)@.subrange(old(moves)@.len() as int, final(moves)@.len() as int),
            |m: Move| pawn_cap_move(us, from, targets, m)),
{
    let ghost start = moves@.len() as int;
    let ghost orig = moves@;
    let prank: u8 = if us == Color::White { 7 } else { 0 };
    let mut rest = targets;
    assert(moves@.subrange(start, moves@.len() as int) =~= Seq::<Move>::empty());
    while rest != 0
        invariant
            start == orig.len(),
            moves@.len() >= start,
            moves@.subrange(0, start) == orig,
            prank == promo_rank(us),
            moves@.subrange(start, moves@.len() as int).no_duplicates(),
            forall|t: u64| t < 64 && #[trigger] bit(rest, t) ==> bit(targets, t),
            forall|m: Move| #[trigger] moves@.subrange(start, moves@.len() as int).contains(m) <==> (pawn_cap_move(
                us,
                from,
                targets,
                m,
            ) && !bit(rest, m.to as u64)),
        decreases rest,
    {
        let ghost before = rest;
        let to = pop_lsb(&mut rest);
        proof {
            assert forall|t: u64| t < 64 implies #[trigger] bit(rest, t) == (t != to && bit(before, t)) by {
                crate::bits::lemma_bit_clear(before, to as u64, t);
            }
        }
        if to / 8 == prank {
            push_new(moves, Ghost(start), Move { from, to, flag: MoveFlag::PromoQCap });
            push_new(moves, Ghost(start), Move { from, to, flag: MoveFlag::PromoRCap });
            push_new(moves, Ghost(start), Move { from, to, flag: MoveFlag::PromoBCap });
            push_new(moves, Ghost(start), Move { from, to, flag: MoveFlag::PromoNCap });
        } else {
            push_new(moves, Ghost(start), Move { from, to, flag: MoveFlag::Capture });
        }
        proof {
            assert(moves@.subrange(0, start) =~= orig);
        }
    }
    proof {
        crate::bits::lemma_zero_no_bit(rest);
    }
}

} // verus!

verus! {

/// Pawn moves of the side to move from `from` (only noisy ones when `noisy`).
pub open spec fn pawn_move_from(pos: Position, from: u8, noisy: bool, m: Move) -> bool {
    m.from == from && pawn_pseudo(pos, m) && (noisy ==> is_noisy(m.flag))
}

/// Pawn pushes (single, double, push-promotion) from `from`.
pub open spec fn pawn_push_move(pos: Position, from: u8, noisy: bool, m: Move) -> bool {
    pawn_move_from(pos, from, noisy, m) && !m.flag.spec_is_capture()
}

fn gen_pawn_pushes(pos: &Position, from: u8, noisy: bool, moves: &mut Vec<Move>)
    requires
        pos.board_wf(),
        from < 64,
        bit(pos.pieces[pos.stm.spec_index()][0], from as u64),
        from / 8 != promo_rank(pos.stm),
    ensures
        final(moves)@.subrange(0, old(moves)@.len() as int) == old(moves)@,
        final(moves)@.len() >= old(moves)@.len(),
        lists_exactly(final(moves)@.subrange(old(moves)@.len() as int, final(moves)@.len() as int),
            |m: Move| pawn_push_move(*pos, from, noisy, m)),
{
    let ghost start = moves@.len() as int;
    let ghost orig = moves@;
    let us = pos.stm;
    let white = us == Color::White;
    let prank: u8 = if white { 7 } else { 0 };
    let srank: u8 = if white { 1 } else { 6 };
    let one: u8 = if white { from + 8 } else { from - 8 };
    let all = pos.all;
    assert(moves@.subrange(start, moves@.len() as int) =~= Seq::<Move>::empty());
    if all & (1u64 << one) == 0 {
        if one / 8 == prank {
            push_new(moves, Ghost(start), Move { from, to: one, flag: MoveFlag::PromoQ });
            push_new(moves, Ghost(start), Move { from, to: one, flag: MoveFlag::PromoR });
            push_new(moves, Ghost(start), Move { from, to: one, flag: MoveFlag::PromoB });
            push_new(moves, Ghost(start), Move { from, to: one, flag: MoveFlag::PromoN });
        } else if !noisy {
            push_new(moves, Ghost(start), Move { from, to: one, flag: MoveFlag::Quiet });
            if from / 8 == srank {
                let two: u8 = if white { from + 16 } else { from - 16 };
                if all & (1u64 << two) == 0 {
                    push_new(moves, Ghost(start), Move { from, to: two, flag: MoveFlag::DoublePush });
                }
            }
        }
    }
    proof {
        assert(moves@.subrange(0, start) =~= orig);
        let seg = moves@.subrange(start, moves@.len() as int);
        assert forall|m: Move| #[trigger] seg.contains(m) <==> pawn_push_move(*pos, from, noisy, m) by {
        }
    }
}

} // verus!

verus! {

fn gen_pawn_from(pos: &Position, from: u8, noisy: bool, moves: &mut Vec<Move>)
    requires
        pos.board_wf(),
        from < 64,
        bit(pos.pieces[pos.stm.spec_index()][0], from as u64),
        from / 8 != promo_rank(pos.stm),
    ensures
        final(moves)@.subrange(0, old(moves)@.len() as int) == old(moves)@,
        final(moves)@.len() >= old(moves)@.len(),
        lists_exactly(final(moves)@.subrange(old(moves)@.len() as int, final(moves)@.len() as int),
            |m: Move| pawn_move_from(*pos, from, noisy, m)),
{
    let ghost start = moves@.len() as int;
    let ghost orig = moves@;
    let us = pos.stm;
    let them = us.flip();
    gen_pawn_pushes(pos, from, noisy, moves);
    let ghost mid = moves@.len() as int;
    let ghost s1 = moves@.subrange(start, mid);
    let pa = pawn_attacks(us, from);
    let caps = pa & pos.occ[them.index()];
    add_pawn_caps(moves, us, from, caps);
    let ghost s2 = moves@.subrange(mid, moves@.len() as int);
    proof {
        assert(moves@.subrange(start, moves@.len() as int) =~= s1 + s2);
        assert forall|m: Move| s1.contains(m) implies !s2.contains(m) by {
        }
        lemma_concat_lists(s1, s2);
        assert forall|t: u64| t < 64 implies #[trigger] bit(caps, t) == (pawn_hit(us, from as int, t as int) && bit(pos.occ[them.spec_index()], t)) by {
            crate::bits::lemma_bit_and(pa, pos.occ[them.spec_index()], t);
        }
    }
    let ghost before_ep = moves@;
    if let Some(ep) = pos.ep {
        if pa & (1u64 << ep) != 0 {
            proof {
                assert((pa & (1u64 << ep) != 0) == bit(pa, ep as u64));
                assert(!moves@.subrange(start, moves@.len() as int).contains(Move { from, to: ep, flag: MoveFlag::EnPassant }));
            }
            push_new(moves, Ghost(start), Move { from, to: ep, flag: MoveFlag::EnPassant });
        } else {
            assert((pa & (1u64 << ep) != 0) == bit(pa, ep as u64));
        }
    }
    proof {
        assert(moves@.subrange(0, start) =~= orig);
        let seg = moves@.subrange(start, moves@.len() as int);
        assert forall|m: Move| #[trigger] seg.contains(m) <==> pawn_move_from(*pos, from, noisy, m) by {
            if m.flag.spec_is_capture() && m.flag != MoveFlag::EnPassant && m.from == from && m.to < 64 {
                assert(bit(caps, m.to as u64) == (pawn_hit(us, from as int, m.to as int) && bit(pos.occ[them.spec_index()], m.to as u64)));
            }
        }
    }
}

} // verus!

verus! {

/// Pawn moves of the side to move (only noisy ones when `noisy`).
pub open spec fn pawn_move(pos: Position, noisy: bool, m: Move) -> bool {
    pawn_pseudo(pos, m) && (noisy ==> is_noisy(m.flag))
}

fn gen_pawns(pos: &Position, noisy: bool, moves: &mut Vec<Move>)
    requires
        pos.board_wf(),
        pawns_in_range(*pos),
    ensures
        final(moves)@.subrange(0, old(moves)@.len() as int) == old(moves)@,
        final(moves)@.len() >= old(moves)@.len(),
        lists_exactly(final(moves)@.subrange(old(moves)@.len() as int, final(moves)@.len() as int),
            |m: Move| pawn_move(*pos, noisy, m)),
{
    let ghost start = moves@.len() as int;
    let ghost orig = moves@;
    let pawns = pos.pieces[pos.stm.index()][0];
    let mut rest = pawns;
    assert(moves@.subrange(start, moves@.len() as int) =~= Seq::<Move>::empty());
    while rest != 0
        invariant
            pos.board_wf(),
            pawns_in_range(*pos),
            pawns == pos.pieces[pos.stm.spec_index()][0],
            start == orig.len(),
            moves@.len() >= start,
            moves@.subrange(0, start) == orig,
            moves@.subrange(start, moves@.len() as int).no_duplicates(),
            forall|t: u64| t < 64 && #[trigger] bit(rest, t) ==> bit(pawns, t),
            forall|m: Move| #[trigger] moves@.subrange(start, moves@.len() as int).contains(m) <==> (pawn_move(*pos, noisy, m)
                && !bit(rest, m.from as u64)),
        decreases rest,
    {
        let ghost before = rest;
        let from = pop_lsb(&mut rest);
        proof {
            assert forall|t: u64| t < 64 implies #[trigger] bit(rest, t) == (t != from && bit(before, t)) by {
                crate::bits::lemma_bit_clear(before, from as u64, t);
            }
            assert(bit(pawns, from as u64));
        }
        let ghost mid = moves@.len() as int;
        let ghost s1 = moves@.subrange(start, mid);
        gen_pawn_from(pos, from, noisy, moves);
        proof {
            let s2 = moves@.subrange(mid, moves@.len() as int);
            assert(moves@.subrange(start, moves@.len() as int) =~= s1 + s2);
            assert(moves@.subrange(0, mid) =~= moves@.subrange(0, start) + s1);
            assert(moves@.subrange(0, start) =~= orig);
            lemma_concat_lists(s1, s2);
        }
    }
    proof {
        crate::bits::lemma_zero_no_bit(rest);
    }
}

/// Moves of the side to move's pieces of type index `pi` (knight..king), only
/// captures when `noisy`.
pub open spec fn piece_move_of(pos: Position, pi: int, noisy: bool, m: Move) -> bool {
    &&& piece_pseudo(pos, m)
    &&& piece_on(pos.pieces, pos.stm.spec_index(), m.from as u64) == Some(piece_of_index(pi))
    &&& (noisy ==> is_noisy(m.flag))
}

fn piece_targets(pi: usize, from: u8, occ: u64) -> (a: u64)
    requires
        1 <= pi <= 5,
        from < 64,
    ensures
        forall|t: u64| t < 64 ==> #[trigger] bit(a, t) == piece_attacks(piece_of_index(pi as int), Color::White, from as int, t as int, occ),
{
    if pi == 1 {
        knight_attacks(from)
    } else if pi == 2 {
        bishop_attacks(from, occ)
    } else if pi == 3 {
        rook_attacks(from, occ)
    } else if pi == 4 {
        queen_attacks(from, occ)
    } else {
        king_attacks(from)
    }
}

fn gen_piece_type(pos: &Position, pi: usize, noisy: bool, moves: &mut Vec<Move>)
    requires
        pos.board_wf(),
        1 <= pi <= 5,
    ensures
        final(moves)@.subrange(0, old(moves)@.len() as int) == old(moves)@,
        final(moves)@.len() >= old(moves)@.len(),
        lists_exactly(final(moves)@.subrange(old(moves)@.len() as int, final(moves)@.len() as int),
            |m: Move| piece_move_of(*pos, pi as int, noisy, m)),
{
    let ghost start = moves@.len() as int;
    let ghost orig = moves@;
    let us = pos.stm;
    let u = us.index();
    let them_occ = pos.occ[1 - u];
    let mask = if noisy { them_occ } else { !pos.occ[u] };
    let bb = pos.pieces[u][pi];
    let mut rest = bb;
    proof {
        assert forall|m: Move| piece_move_of(*pos, pi as int, noisy, m) implies bit(bb, m.from as u64) by {
            crate::position::lemma_disjoint_square(pos.pieces, m.from as u64);
            crate::position::lemma_piece_on(pos.pieces, u as int, m.from as u64);
            assert(piece_of_index(pi as int).spec_index() == pi);
        }
    }
    assert(moves@.subrange(start, moves@.len() as int) =~= Seq::<Move>::empty());
    while rest != 0
        invariant
            pos.board_wf(),
            1 <= pi <= 5,
            u == pos.stm.spec_index(),
            them_occ == pos.occ[1 - u],
            mask == (if noisy { them_occ } else { !pos.occ[u as int] }),
            bb == pos.pieces[u as int][pi as int],
            start == orig.len(),
            moves@.len() >= start,
            moves@.subrange(0, start) == orig,
            moves@.subrange(start, moves@.len() as int).no_duplicates(),
            forall|t: u64| t < 64 && #[trigger] bit(rest, t) ==> bit(bb, t),
            forall|m: Move| #[trigger] moves@.subrange(start, moves@.len() as int).contains(m) <==> (piece_move_of(
                *pos,
                pi as int,
                noisy,
                m,
            ) && !bit(rest, m.from as u64)),
        decreases rest,
    {
        let ghost before = rest;
        let from = pop_lsb(&mut rest);
        proof {
            assert forall|t: u64| t < 64 implies #[trigger] bit(rest, t) == (t != from && bit(before, t)) by {
                crate::bits::lemma_bit_clear(before, from as u64, t);
            }
            assert(bit(bb, from as u64));
            crate::position::lemma_disjoint_square(pos.pieces, from as u64);
            crate::position::lemma_piece_on(pos.pieces, u as int, from as u64);
        }
        let att = piece_targets(pi, from, pos.all);
        let targets = att & mask;
        let ghost mid = moves@.len() as int;
        let ghost s1 = moves@.subrange(start, mid);
        add_quiet_or_cap(moves, from, targets, them_occ);
        proof {
            let s2 = moves@.subrange(mid, moves@.len() as int);
            assert(moves@.subrange(start, moves@.len() as int) =~= s1 + s2);
            assert(moves@.subrange(0, mid) =~= moves@.subrange(0, start) + s1);
            assert(moves@.subrange(0, start) =~= orig);
            assert forall|m: Move| #[trigger] s2.contains(m) <==> (m.from == from && piece_move_of(*pos, pi as int, noisy, m)) by {
                if m.from == from && m.to < 64 {
                    let t = m.to as u64;
                    crate::bits::lemma_bit_and(att, mask, t);
                    crate::bits::lemma_bit_not(pos.occ[u as int], t);
                    crate::position::lemma_disjoint_square(pos.pieces, t);
                    crate::position::lemma_occ_bits(*pos, t);
                    assert(piece_attacks(piece_of_index(pi as int), Color::White, from as int, t as int, pos.all)
                        == piece_attacks(piece_of_index(pi as int), us, from as int, t as int, pos.all));
                    if bit(pos.occ[1 - u], t) {
                        let q = choose|q: int| 0 <= q < 6 && #[trigger] bit(pos.pieces[1 - u][q], t);
                        assert(!bit(pos.occ[u as int], t));
                    }
                }
            }
            lemma_concat_lists(s1, s2);
        }
    }
    proof {
        crate::bits::lemma_zero_no_bit(rest);
    }
}

} // verus!

verus! {

fn gen_castling(pos: &Position, moves: &mut Vec<Move>)
    requires
        pos.board_wf(),
    ensures
        final(moves)@.subrange(0, old(moves)@.len() as int) == old(moves)@,
        final(moves)@.len() >= old(moves)@.len(),
        lists_exactly(final(moves)@.subrange(old(moves)@.len() as int, final(moves)@.len() as int),
            |m: Move| castle_pseudo(*pos, m)),
{
    let ghost start = moves@.len() as int;
    let ghost orig = moves@;
    let us = pos.stm;
    let them = us.flip();
    let occ = pos.all;
    let white = us == Color::White;
    let kr: u8 = if white { crate::castle::WK } else { crate::castle::BK };
    let qr: u8 = if white { crate::castle::WQ } else { crate::castle::BQ };
    let e: u8 = if white { 4 } else { 60 };
    assert(moves@.subrange(start, moves@.len() as int) =~= Seq::<Move>::empty());
    // Kingside: f,g empty; king path e,f,g safe.
    if pos.castling & kr != 0 && occ & (1u64 << (e + 1)) == 0 && occ & (1u64 << (e + 2)) == 0
        && !crate::attacks::is_square_attacked(pos, e, them, occ)
        && !crate::attacks::is_square_attacked(pos, e + 1, them, occ)
        && !crate::attacks::is_square_attacked(pos, e + 2, them, occ) {
        push_new(moves, Ghost(start), Move { from: e, to: e + 2, flag: MoveFlag::KingCastle });
    }
    // Queenside: b,c,d empty; king path e,d,c safe.
    if pos.castling & qr != 0 && occ & (1u64 << (e - 3)) == 0 && occ & (1u64 << (e - 2)) == 0
        && occ & (1u64 << (e - 1)) == 0
        && !crate::attacks::is_square_attacked(pos, e, them, occ)
        && !crate::attacks::is_square_attacked(pos, e - 1, them, occ)
        && !crate::attacks::is_square_attacked(pos, e - 2, them, occ) {
        push_new(moves, Ghost(start), Move { from: e, to: e - 2, flag: MoveFlag::QueenCastle });
    }
    proof {
        assert(moves@.subrange(0, start) =~= orig);
    }
}

/// Pseudo-legal moves of the side to move (only noisy ones when `noisy`).
pub open spec fn pseudo_of(pos: Position, noisy: bool, m: Move) -> bool {
    pseudo_move(pos, m) && (noisy ==> is_noisy(m.flag))
}

proof fn lemma_piece_split(pos: Position, noisy: bool, m: Move)
    requires
        pos.board_wf(),
    ensures
        pseudo_of(pos, noisy, m) == (pawn_move(pos, noisy, m) || piece_move_of(pos, 1, noisy, m) || piece_move_of(pos, 2, noisy, m)
            || piece_move_of(pos, 3, noisy, m) || piece_move_of(pos, 4, noisy, m) || piece_move_of(pos, 5, noisy, m)
            || (!noisy && castle_pseudo(pos, m))),
        pawn_move(pos, noisy, m) ==> piece_on(pos.pieces, pos.stm.spec_index(), m.from as u64) == Some(Piece::Pawn),
{
    if m.from < 64 {
        crate::position::lemma_disjoint_square(pos.pieces, m.from as u64);
        crate::position::lemma_piece_on(pos.pieces, pos.stm.spec_index(), m.from as u64);
    }
}

/// Two consecutive exact listings of disjoint move sets list their union.
proof fn lemma_step(v: Seq<Move>, start: int, mid: int, pa: spec_fn(Move) -> bool, pb: spec_fn(Move) -> bool)
    requires
        0 <= start <= mid <= v.len(),
        lists_exactly(v.subrange(start, mid), pa),
        lists_exactly(v.subrange(mid, v.len() as int), pb),
        forall|m: Move| #[trigger] pa(m) ==> !pb(m),
    ensures
        lists_exactly(v.subrange(start, v.len() as int), |m: Move| pa(m) || pb(m)),
{
    let a = v.subrange(start, mid);
    let b = v.subrange(mid, v.len() as int);
    assert(v.subrange(start, v.len() as int) =~= a + b);
    lemma_concat_lists(a, b);
}

/// Growing a sequence at its end keeps the listing of an earlier segment.
proof fn lemma_keep_prefix(old_v: Seq<Move>, v: Seq<Move>, start: int, pa: spec_fn(Move) -> bool)
    requires
        0 <= start <= old_v.len() <= v.len(),
        v.subrange(0, old_v.len() as int) == old_v,
        lists_exactly(old_v.subrange(start, old_v.len() as int), pa),
    ensures
        lists_exactly(v.subrange(start, old_v.len() as int), pa),
{
    assert(v.subrange(start, old_v.len() as int) =~= old_v.subrange(start, old_v.len() as int));
}

fn gen_all(pos: &Position, noisy: bool, moves: &mut Vec<Move>)
    requires
        pos.board_wf(),
        pawns_in_range(*pos),
    ensures
        final(moves)@.subrange(0, old(moves)@.len() as int) == old(moves)@,
        final(moves)@.len() >= old(moves)@.len(),
        lists_exactly(final(moves)@.subrange(old(moves)@.len() as int, final(moves)@.len() as int),
            |m: Move| pseudo_of(*pos, noisy, m)),
{
    let ghost start = moves@.len() as int;
    let ghost orig = moves@;
    let ghost p = *pos;
    gen_pawns(pos, noisy, moves);
    let ghost acc: spec_fn(Move) -> bool = |m: Move| pawn_move(p, noisy, m);
    let ghost v1 = moves@;
    gen_piece_type(pos, 1, noisy, moves);
    proof {
        lemma_keep_prefix(v1, moves@, start, acc);
        assert forall|m: Move| #[trigger] acc(m) implies !piece_move_of(p, 1, noisy, m) by { lemma_piece_split(p, noisy, m); }
        lemma_step(moves@, start, v1.len() as int, acc, |m: Move| piece_move_of(p, 1, noisy, m));
        acc = |m: Move| pawn_move(p, noisy, m) || piece_move_of(p, 1, noisy, m);
    }
    let ghost v2 = moves@;
    gen_piece_type(pos, 2, noisy, moves);
    proof {
        lemma_keep_prefix(v2, moves@, start, acc);
        assert forall|m: Move| #[trigger] acc(m) implies !piece_move_of(p, 2, noisy, m) by { lemma_piece_split(p, noisy, m); }
        lemma_step(moves@, start, v2.len() as int, acc, |m: Move| piece_move_of(p, 2, noisy, m));
        acc = |m: Move| pawn_move(p, noisy, m) || piece_move_of(p, 1, noisy, m) || piece_move_of(p, 2, noisy, m);
    }
    let ghost v3 = moves@;
    gen_piece_type(pos, 3, noisy, moves);
    proof {
        lemma_keep_prefix(v3, moves@, start, acc);
        assert forall|m: Move| #[trigger] acc(m) implies !piece_move_of(p, 3, noisy, m) by { lemma_piece_split(p, noisy, m); }
        lemma_step(moves@, start, v3.len() as int, acc, |m: Move| piece_move_of(p, 3, noisy, m));
        acc = |m: Move| pawn_move(p, noisy, m) || piece_move_of(p, 1, noisy, m) || piece_move_of(p, 2, noisy, m)
            || piece_move_of(p, 3, noisy, m);
    }
    let ghost v4 = moves@;
    gen_piece_type(pos, 4, noisy, moves);
    proof {
        lemma_keep_prefix(v4, moves@, start, acc);
        assert forall|m: Move| #[trigger] acc(m) implies !piece_move_of(p, 4, noisy, m) by { lemma_piece_split(p, noisy, m); }
        lemma_step(moves@, start, v4.len() as int, acc, |m: Move| piece_move_of(p, 4, noisy, m));
        acc = |m: Move| pawn_move(p, noisy, m) || piece_move_of(p, 1, noisy, m) || piece_move_of(p, 2, noisy, m)
            || piece_move_of(p, 3, noisy, m) || piece_move_of(p, 4, noisy, m);
    }
    let ghost v5 = moves@;
    gen_piece_type(pos, 5, noisy, moves);
    proof {
        lemma_keep_prefix(v5, moves@, start, acc);
        assert forall|m: Move| #[trigger] acc(m) implies !piece_move_of(p, 5, noisy, m) by { lemma_piece_split(p, noisy, m); }
        lemma_step(moves@, start, v5.len() as int, acc, |m: Move| piece_move_of(p, 5, noisy, m));
        acc = |m: Move| pawn_move(p, noisy, m) || piece_move_of(p, 1, noisy, m) || piece_move_of(p, 2, noisy, m)
            || piece_move_of(p, 3, noisy, m) || piece_move_of(p, 4, noisy, m) || piece_move_of(p, 5, noisy, m);
    }
    let ghost v6 = moves@;
    if !noisy {
        gen_castling(pos, moves);
        proof {
            lemma_keep_prefix(v6, moves@, start, acc);
            assert forall|m: Move| #[trigger] acc(m) implies !castle_pseudo(p, m) by { lemma_piece_split(p, noisy, m); }
            lemma_step(moves@, start, v6.len() as int, acc, |m: Move| castle_pseudo(p, m));
            acc = |m: Move| acc(m) || castle_pseudo(p, m);
        }
    }
    proof {
        assert(moves@.subrange(0, start) =~= orig);
        assert forall|m: Move| #[trigger] acc(m) == pseudo_of(p, noisy, m) by { lemma_piece_split(p, noisy, m); }
    }
}

} // verus!

verus! {

use crate::position::{make_pieces, make_all, move_consistent, behind, make_result, castle_rook_from, castle_rook_to};

/// Bitboards after making `mv`.
pub open spec fn made_pieces(pos: Position, mv: Move) -> [[u64; 6]; 2] {
    [
        [
            make_pieces(pos, mv, 0, 0),
            make_pieces(pos, mv, 0, 1),
            make_pieces(pos, mv, 0, 2),
            make_pieces(pos, mv, 0, 3),
            make_pieces(pos, mv, 0, 4),
            make_pieces(pos, mv, 0, 5),
        ],
        [
            make_pieces(pos, mv, 1, 0),
            make_pieces(pos, mv, 1, 1),
            make_pieces(pos, mv, 1, 2),
            make_pieces(pos, mv, 1, 3),
            make_pieces(pos, mv, 1, 4),
            make_pieces(pos, mv, 1, 5),
        ],
    ]
}

/// The square of a side's king: the lowest member of its king bitboard.
pub open spec fn king_square(pieces: [[u64; 6]; 2], c: int) -> int {
    vstd::std_specs::bits::u64_trailing_zeros(pieces[c][5]) as int
}

/// After `mv` the mover's king is not attacked.
pub open spec fn leaves_king_safe(pos: Position, mv: Move) -> bool {
    let pcs = made_pieces(pos, mv);
    !square_attacked(pcs, king_square(pcs, pos.stm.spec_index()), pos.stm.spec_flip(), make_all(pos, mv))
}

/// A legal move: pseudo-legal and not leaving the mover's king attacked.
pub open spec fn legal_move(pos: Position, mv: Move) -> bool {
    pseudo_move(pos, mv) && leaves_king_safe(pos, mv)
}

/// Castling rights of `pos` are backed by the king and rook on their home squares.
pub open spec fn rights_consistent(pos: Position) -> bool {
    &&& pos.castling & crate::castle::WK != 0 ==> bit(pos.pieces[0][5], 4) && bit(pos.pieces[0][3], 7)
    &&& pos.castling & crate::castle::WQ != 0 ==> bit(pos.pieces[0][5], 4) && bit(pos.pieces[0][3], 0)
    &&& pos.castling & crate::castle::BK != 0 ==> bit(pos.pieces[1][5], 60) && bit(pos.pieces[1][3], 63)
    &&& pos.castling & crate::castle::BQ != 0 ==> bit(pos.pieces[1][5], 60) && bit(pos.pieces[1][3], 56)
}

/// The en-passant square is empty and the enemy pawn that skipped it stands behind it.
pub open spec fn ep_consistent(pos: Position) -> bool {
    pos.ep matches Some(e) ==> {
        &&& !bit(pos.all, e as u64)
        &&& 0 <= behind(pos.stm, e) < 64
        &&& bit(pos.pieces[1 - pos.stm.spec_index()][0], behind(pos.stm, e) as u64)
    }
}

/// The side to move can generate and play its moves: the board is well formed,
/// no pawn of the side to move stands on its last rank, castling rights and the
/// en-passant square are backed by the board, the move clocks have room, and
/// the side to move has a king.
pub open spec fn movable(pos: Position) -> bool {
    &&& pos.wf()
    &&& pawns_in_range(pos)
    &&& rights_consistent(pos)
    &&& ep_consistent(pos)
    &&& pos.halfmove < u16::MAX
    &&& pos.fullmove < u16::MAX
    &&& pos.pieces[pos.stm.spec_index()][5] != 0
}

/// Every pseudo-legal move of a movable position can be made and taken back,
/// and the mover still has a king afterwards.
pub proof fn lemma_pseudo_consistent(pos: Position, mv: Move)
    requires
        movable(pos),
        pseudo_move(pos, mv),
    ensures
        move_consistent(pos, mv),
        made_pieces(pos, mv)[pos.stm.spec_index()][5] != 0,
{
    let u = pos.stm.spec_index();
    let them = 1 - u;
    let f = mv.from as u64;
    let t = mv.to as u64;
    crate::position::lemma_disjoint_square(pos.pieces, f);
    crate::position::lemma_piece_on(pos.pieces, u, f);
    crate::position::lemma_disjoint_square(pos.pieces, t);
    crate::position::lemma_piece_on(pos.pieces, them, t);
    crate::position::lemma_occ_bits(pos, t);
    crate::position::lemma_occ_bits(pos, f);
    if castle_pseudo(pos, mv) {
        let white = pos.stm == Color::White;
        assert(pos.castling & crate::castle::WK != 0 || pos.castling & crate::castle::WQ != 0 || pos.castling & crate::castle::BK != 0
            || pos.castling & crate::castle::BQ != 0);
        let ks = mv.flag == MoveFlag::KingCastle;
        let rf = castle_rook_from(pos.stm, ks) as u64;
        crate::position::lemma_disjoint_square(pos.pieces, rf);
        assert(bit(pos.pieces[u][5], f));
        assert(bit(pos.pieces[u][3], rf));
    }
    if mv.flag == MoveFlag::EnPassant {
        crate::position::lemma_disjoint_square(pos.pieces, behind(pos.stm, mv.to) as u64);
    }
    if bit(pos.occ[them], t) {
        let q = choose|q: int| 0 <= q < 6 && #[trigger] bit(pos.pieces[them][q], t);
        assert(bit(pos.pieces[them][q], t));
    }
    assert(move_consistent(pos, mv));
    // The king survives: it either moves or stays where it was.
    crate::bits::lemma_trailing_zeros_bit(pos.pieces[u][5]);
    let k = vstd::std_specs::bits::u64_trailing_zeros(pos.pieces[u][5]) as u64;
    assert(make_pieces(pos, mv, u, 5) != 0) by {
        reveal(make_pieces);
        broadcast use crate::bits::lemma_put_bit, crate::bits::lemma_del_bit;
        crate::position::lemma_disjoint_square(pos.pieces, k);
        if k == f {
            crate::bits::lemma_bit_zero(t);
            assert(bit(make_pieces(pos, mv, u, 5), t));
        } else {
            crate::bits::lemma_bit_zero(k);
            assert(bit(make_pieces(pos, mv, u, 5), k));
        }
    }
}

} // verus!

verus! {

/// Move generation reads only the board fields: positions in the same state
/// have the same moves.
pub proof fn lemma_same_state_moves(p: Position, q: Position)
    requires
        p.same_state(q),
    ensures
        movable(p) == movable(q),
        forall|m: Move| #[trigger] pseudo_move(p, m) == pseudo_move(q, m),
        forall|m: Move| #[trigger] leaves_king_safe(p, m) == leaves_king_safe(q, m),
        forall|m: Move| #[trigger] legal_move(p, m) == legal_move(q, m),
        forall|m: Move, noisy: bool| #[trigger] pseudo_of(p, noisy, m) == pseudo_of(q, noisy, m),
{
    assert(p.pieces == q.pieces);
    assert forall|m: Move| #[trigger] leaves_king_safe(p, m) == leaves_king_safe(q, m) by {
        reveal(make_pieces);
        reveal(make_all);
        assert(made_pieces(p, m) == made_pieces(q, m));
    }
}

/// Make `mv`, test whether the mover's king is attacked, and take the move back.
fn king_safe_after(pos: &mut Position, mv: Move) -> (ok: bool)
    requires
        movable(*old(pos)),
        pseudo_move(*old(pos), mv),
    ensures
        final(pos).same_state(*old(pos)),
        ok == leaves_king_safe(*old(pos), mv),
{
    let ghost before = *pos;
    let us = pos.stm;
    proof {
        lemma_pseudo_consistent(before, mv);
    }
    pos.make(mv);
    let ghost p1 = *pos;
    let ksq = pos.king_sq(us);
    proof {
        assert(p1.pieces =~= made_pieces(before, mv)) by {
            assert(p1.pieces[0] =~= made_pieces(before, mv)[0]);
            assert(p1.pieces[1] =~= made_pieces(before, mv)[1]);
        }
    }
    let attacked = crate::attacks::is_square_attacked(pos, ksq, us.flip(), pos.all);
    pos.unmake();
    proof {
        crate::position::lemma_make_unmake(before, mv, p1, *pos);
    }
    !attacked
}

/// Keep the moves of `pseudo` that do not leave the mover's king attacked,
/// restoring the position after each trial move.
fn filter_legal(pos: &mut Position, pseudo: &Vec<Move>) -> (legal: Vec<Move>)
    requires
        movable(*old(pos)),
        forall|i: int| 0 <= i < pseudo@.len() ==> pseudo_move(*old(pos), #[trigger] pseudo@[i]),
    ensures
        final(pos).same_state(*old(pos)),
        legal@ == pseudo@.filter(|m: Move| leaves_king_safe(*old(pos), m)),
{
    let ghost p0 = *pos;
    let mut legal: Vec<Move> = Vec::new();
    let n = pseudo.len();
    let mut i: usize = 0;
    assert(pseudo@.take(0) =~= Seq::<Move>::empty());
    while i < n
        invariant
            n == pseudo@.len(),
            i <= n,
            pos.same_state(p0),
            movable(p0),
            forall|k: int| 0 <= k < pseudo@.len() ==> pseudo_move(p0, #[trigger] pseudo@[k]),
            legal@ == pseudo@.take(i as int).filter(|m: Move| leaves_king_safe(p0, m)),
        decreases n - i,
    {
        let mv = pseudo[i];
        proof {
            lemma_same_state_moves(*pos, p0);
            assert(pseudo_move(*pos, mv));
        }
        let ok = king_safe_after(pos, mv);
        proof {
            assert(pseudo@.take(i + 1).drop_last() =~= pseudo@.take(i as int));
            reveal_with_fuel(Seq::filter, 1);
        }
        if ok {
            legal.push(mv);
        }
        i = i + 1;
    }
    assert(pseudo@.take(n as int) =~= pseudo@);
    legal
}

} // verus!

verus! {

/// Filtering keeps a sequence free of repetitions.
proof fn lemma_filter_nodup(s: Seq<Move>, p: spec_fn(Move) -> bool)
    requires
        s.no_duplicates(),
    ensures
        s.filter(p).no_duplicates(),
    decreases s.len(),
{
    reveal_with_fuel(Seq::filter, 1);
    if s.len() > 0 {
        let r = s.drop_last();
        assert forall|i: int, j: int| 0 <= i < r.len() && 0 <= j < r.len() && i != j implies r[i] != r[j] by {
            assert(r[i] == s[i] && r[j] == s[j]);
        }
        lemma_filter_nodup(r, p);
        if p(s.last()) {
            let f = r.filter(p);
            if f.contains(s.last()) {
                r.lemma_filter_contains_rev(p, s.last());
                let j = choose|j: int| 0 <= j < r.len() && r[j] == s.last();
                assert(s[j] == s[s.len() - 1]);
            }
            lemma_push_nodup(f, s.last());
        }
    }
}

/// Filtering an exact listing lists exactly the members that pass the filter.
proof fn lemma_filter_lists(s: Seq<Move>, pa: spec_fn(Move) -> bool, pb: spec_fn(Move) -> bool)
    requires
        lists_exactly(s, pa),
    ensures
        lists_exactly(s.filter(pb), |m: Move| pa(m) && pb(m)),
{
    lemma_filter_nodup(s, pb);
    broadcast use vstd::seq_lib::group_filter_ensures;
    assert forall|m: Move| #[trigger] s.filter(pb).contains(m) <==> (pa(m) && pb(m)) by {
        if s.filter(pb).contains(m) {
            s.lemma_filter_contains_rev(pb, m);
            let i = choose|i: int| 0 <= i < s.filter(pb).len() && s.filter(pb)[i] == m;
            s.lemma_filter_pred(pb, i);
        }
        if pa(m) && pb(m) {
            assert(s.contains(m));
            let i = choose|i: int| 0 <= i < s.len() && s[i] == m;
            s.lemma_filter_contains(pb, i);
        }
    }
}

/// Two exact listings of the same moves have the same length.
pub proof fn lemma_listing_len(a: Seq<Move>, b: Seq<Move>, p: spec_fn(Move) -> bool)
    requires
        lists_exactly(a, p),
        lists_exactly(b, p),
    ensures
        a.len() == b.len(),
{
    assert(a.to_set() =~= b.to_set()) by {
        assert forall|m: Move| a.to_set().contains(m) <==> b.to_set().contains(m) by {
            assert(a.contains(m) == p(m));
            assert(b.contains(m) == p(m));
        }
    }
    a.unique_seq_to_set();
    b.unique_seq_to_set();
}

/// All pseudo-legal moves of the side to move, appended to `moves` (may leave the
/// king in check; castling never passes through an attacked square).
pub fn generate_pseudo(pos: &Position, moves: &mut Vec<Move>)
    requires
        pos.board_wf(),
        pawns_in_range(*pos),
    ensures
        final(moves)@.subrange(0, old(moves)@.len() as int) == old(moves)@,
        final(moves)@.len() >= old(moves)@.len(),
        lists_exactly(final(moves)@.subrange(old(moves)@.len() as int, final(moves)@.len() as int),
            |m: Move| pseudo_move(*pos, m)),
{
    gen_all(pos, false, moves);
    assert((|m: Move| pseudo_of(*pos, false, m)) =~= (|m: Move| pseudo_move(*pos, m)));
}

/// Pseudo-legal noisy moves only, appended to `moves`: captures, promotions
/// (push promotions included) and en passant. Castling and quiet moves are
/// never noisy.
pub fn generate_pseudo_noisy(pos: &Position, moves: &mut Vec<Move>)
    requires
        pos.board_wf(),
        pawns_in_range(*pos),
    ensures
        final(moves)@.subrange(0, old(moves)@.len() as int) == old(moves)@,
        final(moves)@.len() >= old(moves)@.len(),
        lists_exactly(final(moves)@.subrange(old(moves)@.len() as int, final(moves)@.len() as int),
            |m: Move| pseudo_move(*pos, m) && is_noisy(m.flag)),
{
    gen_all(pos, true, moves);
    assert((|m: Move| pseudo_of(*pos, true, m)) =~= (|m: Move| pseudo_move(*pos, m) && is_noisy(m.flag)));
}

/// The legal moves of the side to move among the pseudo-legal ones (noisy ones
/// only when `noisy`).
fn legal_of(pos: &mut Position, noisy: bool) -> (legal: Vec<Move>)
    requires
        movable(*old(pos)),
    ensures
        final(pos).same_state(*old(pos)),
        lists_exactly(legal@, |m: Move| legal_move(*old(pos), m) && (noisy ==> is_noisy(m.flag))),
{
    let ghost p0 = *pos;
    let mut pseudo: Vec<Move> = Vec::new();
    gen_all(pos, noisy, &mut pseudo);
    assert(pseudo@.subrange(0, pseudo@.len() as int) =~= pseudo@);
    proof {
        assert forall|i: int| 0 <= i < pseudo@.len() implies pseudo_move(p0, #[trigger] pseudo@[i]) by {
            assert(pseudo@.contains(pseudo@[i]));
        }
    }
    let legal = filter_legal(pos, &pseudo);
    proof {
        lemma_filter_lists(pseudo@, |m: Move| pseudo_of(p0, noisy, m), |m: Move| leaves_king_safe(p0, m));
        assert((|m: Move| (|m: Move| pseudo_of(p0, noisy, m))(m) && (|m: Move| leaves_king_safe(p0, m))(m))
            =~= (|m: Move| legal_move(p0, m) && (noisy ==> is_noisy(m.flag))));
    }
    legal
}

/// All strictly legal moves for the side to move. The position is restored.
pub fn generate_legal(pos: &mut Position) -> (legal: Vec<Move>)
    requires
        movable(*old(pos)),
    ensures
        final(pos).same_state(*old(pos)),
        lists_exactly(legal@, |m: Move| legal_move(*old(pos), m)),
{
    let legal = legal_of(pos, false);
    assert((|m: Move| legal_move(*old(pos), m) && (false ==> is_noisy(m.flag))) =~= (|m: Move| legal_move(*old(pos), m)));
    legal
}

/// Strictly legal noisy moves for the side to move. The position is restored.
pub fn generate_legal_noisy(pos: &mut Position) -> (legal: Vec<Move>)
    requires
        movable(*old(pos)),
    ensures
        final(pos).same_state(*old(pos)),
        lists_exactly(legal@, |m: Move| legal_move(*old(pos), m) && is_noisy(m.flag)),
{
    let legal = legal_of(pos, true);
    assert((|m: Move| legal_move(*old(pos), m) && (true ==> is_noisy(m.flag))) =~= (|m: Move| legal_move(*old(pos), m) && is_noisy(m.flag)));
    legal
}

/// Some exact listing of the moves satisfying `p` fits in a move list.
pub open spec fn fits_move_list(p: spec_fn(Move) -> bool) -> bool {
    exists|s: Seq<Move>| #[trigger] lists_exactly(s, p) && s.len() <= MAX_MOVES
}

/// A move list holding the moves of `v`, in order.
fn list_of(v: &Vec<Move>) -> (l: MoveList)
    requires
        v@.len() <= MAX_MOVES,
    ensures
        l@ == v@,
{
    let mut l = MoveList::new();
    let n = v.len();
    let mut i: usize = 0;
    while i < n
        invariant
            n == v@.len(),
            n <= MAX_MOVES,
            i <= n,
            l@ == v@.take(i as int),
        decreases n - i,
    {
        l.push(v[i]);
        assert(v@.take(i + 1) =~= v@.take(i as int).push(v@[i as int]));
        i = i + 1;
    }
    assert(v@.take(n as int) =~= v@);
    l
}

/// All strictly legal moves for the side to move, in a fixed-capacity list.
pub fn generate_legal_list(pos: &mut Position) -> (legal: MoveList)
    requires
        movable(*old(pos)),
        fits_move_list(|m: Move| legal_move(*old(pos), m)),
    ensures
        final(pos).same_state(*old(pos)),
        lists_exactly(legal@, |m: Move| legal_move(*old(pos), m)),
{
    let v = generate_legal(pos);
    proof {
        let p = |m: Move| legal_move(*old(pos), m);
        let s = choose|s: Seq<Move>| #[trigger] lists_exactly(s, p) && s.len() <= MAX_MOVES;
        lemma_listing_len(v@, s, p);
    }
    list_of(&v)
}

/// Strictly legal noisy moves for the side to move, in a fixed-capacity list.
pub fn generate_legal_noisy_list(pos: &mut Position) -> (legal: MoveList)
    requires
        movable(*old(pos)),
        fits_move_list(|m: Move| legal_move(*old(pos), m) && is_noisy(m.flag)),
    ensures
        final(pos).same_state(*old(pos)),
        lists_exactly(legal@, |m: Move| legal_move(*old(pos), m) && is_noisy(m.flag)),
{
    let v = generate_legal_noisy(pos);
    proof {
        let p = |m: Move| legal_move(*old(pos), m) && is_noisy(m.flag);
        let s = choose|s: Seq<Move>| #[trigger] lists_exactly(s, p) && s.len() <= MAX_MOVES;
        lemma_listing_len(v@, s, p);
    }
    list_of(&v)
}

/// Does the side to move have any legal move? Stops at the first one found.
pub fn has_legal_move(pos: &mut Position) -> (b: bool)
    requires
        movable(*old(pos)),
    ensures
        final(pos).same_state(*old(pos)),
        b == exists|m: Move| legal_move(*old(pos), m),
{
    let ghost p0 = *pos;
    let mut pseudo: Vec<Move> = Vec::new();
    generate_pseudo(pos, &mut pseudo);
    assert(pseudo@.subrange(0, pseudo@.len() as int) =~= pseudo@);
    let n = pseudo.len();
    let mut i: usize = 0;
    while i < n
        invariant
            n == pseudo@.len(),
            i <= n,
            p0 == *old(pos),
            pos.same_state(p0),
            movable(p0),
            lists_exactly(pseudo@, |m: Move| pseudo_move(p0, m)),
            forall|k: int| 0 <= k < i ==> !leaves_king_safe(p0, #[trigger] pseudo@[k]),
        decreases n - i,
    {
        let mv = pseudo[i];
        proof {
            assert(pseudo@.contains(mv));
            lemma_same_state_moves(*pos, p0);
        }
        let ok = king_safe_after(pos, mv);
        if ok {
            assert(legal_move(p0, mv));
            return true;
        }
        i = i + 1;
    }
    proof {
        assert forall|m: Move| !legal_move(p0, m) by {
            if legal_move(p0, m) {
                assert(pseudo@.contains(m));
                let k = choose|k: int| 0 <= k < pseudo@.len() && pseudo@[k] == m;
                assert(!leaves_king_safe(p0, pseudo@[k]));
            }
        }
    }
    false
}

/// Is the side to move currently in check?
pub fn in_check(pos: &Position) -> (b: bool)
    requires
        pos.pieces[pos.stm.spec_index()][5] != 0,
    ensures
        b == square_attacked(pos.pieces, king_square(pos.pieces, pos.stm.spec_index()), pos.stm.spec_flip(), pos.all),
{
    let us = pos.stm;
    let k = pos.king_sq(us);
    crate::attacks::is_square_attacked(pos, k, us.flip(), pos.all)
}

/// Does playing `mv` give check to the opponent? (make, test, unmake.)
pub fn gives_check(pos: &mut Position, mv: Move) -> (b: bool)
    requires
        movable(*old(pos)),
        pseudo_move(*old(pos), mv),
        made_pieces(*old(pos), mv)[1 - old(pos).stm.spec_index()][5] != 0,
    ensures
        final(pos).same_state(*old(pos)),
        b == square_attacked(made_pieces(*old(pos), mv), king_square(made_pieces(*old(pos), mv),
            1 - old(pos).stm.spec_index()), old(pos).stm, make_all(*old(pos), mv)),
{
    let ghost before = *pos;
    proof {
        lemma_pseudo_consistent(before, mv);
    }
    pos.make(mv);
    let ghost p1 = *pos;
    proof {
        assert(p1.pieces =~= made_pieces(before, mv)) by {
            assert(p1.pieces[0] =~= made_pieces(before, mv)[0]);
            assert(p1.pieces[1] =~= made_pieces(before, mv)[1]);
        }
    }
    let opp = pos.stm;
    let k = pos.king_sq(opp);
    let checked = crate::attacks::is_square_attacked(pos, k, opp.flip(), pos.all);
    pos.unmake();
    proof {
        crate::position::lemma_make_unmake(before, mv, p1, *pos);
    }
    checked
}

} // verus!
