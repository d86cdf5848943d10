//! Opening-book moves: the book's entries for a position matched against the
//! legal moves, and one of them drawn with probability proportional to its
//! weight from a linear congruential sequence.
use vstd::prelude::*;
use crate::movegen::{generate_legal, legal_move, movable};
use crate::position::Position;
use crate::{Move, Piece};

verus! {

/// A piece as the book writes it: coloured, or no piece.
#[derive(Clone, Copy, Debug, PartialEq, Eq, Structural)]
pub enum BookPiece {
    WPawn,
    WKnight,
    WBishop,
    WRook,
    WQueen,
    WKing,
    BPawn,
    BKnight,
    BBishop,
    BRook,
    BQueen,
    BKing,
    Empty,
}

/// The piece a move promotes to when the book names `p` as its promotion:
/// the colour does not matter, and a pawn, a king or no piece is no
/// promotion any move makes.
pub open spec fn promotion_kind(p: BookPiece) -> Option<Piece> {
    match p {
        BookPiece::WKnight | BookPiece::BKnight => Some(Piece::Knight),
        BookPiece::WBishop | BookPiece::BBishop => Some(Piece::Bishop),
        BookPiece::WRook | BookPiece::BRook => Some(Piece::Rook),
        BookPiece::WQueen | BookPiece::BQueen => Some(Piece::Queen),
        _ => None,
    }
}

/// `promotion_kind`, computed.
pub fn book_promotion_kind(p: BookPiece) -> (k: Option<Piece>)
    ensures
        k == promotion_kind(p),
{
    match p {
        BookPiece::WKnight | BookPiece::BKnight => Some(Piece::Knight),
        BookPiece::WBishop | BookPiece::BBishop => Some(Piece::Bishop),
        BookPiece::WRook | BookPiece::BRook => Some(Piece::Rook),
        BookPiece::WQueen | BookPiece::BQueen => Some(Piece::Queen),
        _ => None,
    }
}

/// The book piece with number `code` in the book's piece list (white pawn,
/// knight, bishop, rook, queen, king, then the black ones, then no piece);
/// any other number is no piece.
pub open spec fn book_piece_spec(code: u8) -> BookPiece {
    if code == 0 { BookPiece::WPawn }
    else if code == 1 { BookPiece::WKnight }
    else if code == 2 { BookPiece::WBishop }
    else if code == 3 { BookPiece::WRook }
    else if code == 4 { BookPiece::WQueen }
    else if code == 5 { BookPiece::WKing }
    else if code == 6 { BookPiece::BPawn }
    else if code == 7 { BookPiece::BKnight }
    else if code == 8 { BookPiece::BBishop }
    else if code == 9 { BookPiece::BRook }
    else if code == 10 { BookPiece::BQueen }
    else if code == 11 { BookPiece::BKing }
    else { BookPiece::Empty }
}

/// `book_piece_spec`, computed.
pub fn book_piece(code: u8) -> (p: BookPiece)
    ensures
        p == book_piece_spec(code),
{
    if code == 0 { BookPiece::WPawn }
    else if code == 1 { BookPiece::WKnight }
    else if code == 2 { BookPiece::WBishop }
    else if code == 3 { BookPiece::WRook }
    else if code == 4 { BookPiece::WQueen }
    else if code == 5 { BookPiece::WKing }
    else if code == 6 { BookPiece::BPawn }
    else if code == 7 { BookPiece::BKnight }
    else if code == 8 { BookPiece::BBishop }
    else if code == 9 { BookPiece::BRook }
    else if code == 10 { BookPiece::BQueen }
    else if code == 11 { BookPiece::BKing }
    else { BookPiece::Empty }
}

/// A move as the book stores it: squares, the number of the promotion piece
/// in the book's piece list (if any), and weight.
#[derive(Clone, Copy, Debug)]
pub struct BookMove {
    pub from: u8,
    pub to: u8,
    pub promotion: Option<u8>,
    pub weight: u16,
}

/// The entry a stored book move stands for.
pub open spec fn entry_spec(m: BookMove) -> BookEntry {
    BookEntry {
        from: m.from,
        to: m.to,
        promotion: match m.promotion {
            Some(c) => Some(book_piece_spec(c)),
            None => None,
        },
        weight: m.weight,
    }
}

/// `entry_spec`, computed.
pub fn book_entry(m: BookMove) -> (e: BookEntry)
    ensures
        e == entry_spec(m),
{
    let promotion = match m.promotion {
        Some(c) => Some(book_piece(c)),
        None => None,
    };
    BookEntry { from: m.from, to: m.to, promotion, weight: m.weight }
}

/// The entries the stored moves `ms` stand for, in order.
pub open spec fn entries_spec(ms: Seq<BookMove>) -> Seq<BookEntry> {
    ms.map_values(|m: BookMove| entry_spec(m))
}

/// One book move for a position, with its weight.
#[derive(Clone, Copy, Debug)]
pub struct BookEntry {
    pub from: u8,
    pub to: u8,
    pub promotion: Option<BookPiece>,
    pub weight: u16,
}

/// The next value of the sequence after `seed`: `seed * 6364136223846793005
/// + 1442695040888963407`, both operations modulo 2^64.
pub open spec fn lcg_next(seed: u64) -> u64 {
    vstd::wrapping::u64_specs::wrapping_add(vstd::wrapping::u64_specs::wrapping_mul(seed, 6364136223846793005), 1442695040888963407)
}

pub fn next_seed(seed: u64) -> (r: u64)
    ensures
        r == lcg_next(seed),
{
    seed.wrapping_mul(6364136223846793005).wrapping_add(1442695040888963407)
}

/// The book move `e` is the legal move `m`.
pub open spec fn book_match(e: BookEntry, m: Move) -> bool {
    &&& m.from == e.from
    &&& m.to == e.to
    &&& match (m.flag.spec_promo_piece(), e.promotion) {
        (None, None) => true,
        (Some(p), Some(q)) => promotion_kind(q) == Some(p),
        _ => false,
    }
}

/// Some legal move of `pos` is the book move `e`.
pub open spec fn playable(pos: Position, e: BookEntry) -> bool {
    exists|m: Move| #[trigger] legal_move(pos, m) && book_match(e, m)
}

/// The weights of the playable entries among the first `n`, in order.
pub open spec fn playable_weights(pos: Position, entries: Seq<BookEntry>, n: nat) -> Seq<int>
    decreases n,
{
    if n == 0 {
        Seq::empty()
    } else {
        let prev = playable_weights(pos, entries, (n - 1) as nat);
        if playable(pos, entries[n - 1]) { prev.push(entries[n - 1].weight as int) } else { prev }
    }
}

/// The indices of the playable entries among the first `n`, in order.
pub open spec fn playable_indices(pos: Position, entries: Seq<BookEntry>, n: nat) -> Seq<int>
    decreases n,
{
    if n == 0 {
        Seq::empty()
    } else {
        let prev = playable_indices(pos, entries, (n - 1) as nat);
        if playable(pos, entries[n - 1]) { prev.push(n - 1) } else { prev }
    }
}

pub open spec fn total(w: Seq<int>) -> int
    decreases w.len(),
{
    if w.len() == 0 { 0 } else { total(w.drop_last()) + w.last() }
}

/// The first position `k` whose running total of weights exceeds `target`.
pub open spec fn pick(w: Seq<int>, target: int, k: nat) -> int
    decreases w.len() - k,
{
    if k >= w.len() {
        w.len() as int
    } else if target < total(w.take(k as int + 1)) {
        k as int
    } else {
        pick(w, target, k + 1)
    }
}

/// The book move drawn for `pos` from `entries` with the sequence at `seed`:
/// none (and the seed unchanged) when no playable entry carries weight, else
/// the playable entry at which the running weight passes the next sequence
/// value modulo the total weight, and that value as the new seed.
pub open spec fn drawn(pos: Position, entries: Seq<BookEntry>, seed: u64, r: (Option<Move>, u64)) -> bool {
    let w = playable_weights(pos, entries, entries.len());
    let idx = playable_indices(pos, entries, entries.len());
    if total(w) == 0 {
        r.0 is None && r.1 == seed
    } else {
        let k = pick(w, lcg_next(seed) as int % total(w), 0);
        &&& r.1 == lcg_next(seed)
        &&& r.0 is Some
        &&& legal_move(pos, r.0.unwrap())
        &&& book_match(entries[idx[k]], r.0.unwrap())
    }
}

} // verus!

verus! {

/// Positions with the same legal moves draw alike.
proof fn lemma_drawn_same_state(x: Position, y: Position, entries: Seq<BookEntry>, seed: u64, r: (Option<Move>, u64))
    requires
        forall|m: Move| #[trigger] legal_move(x, m) == legal_move(y, m),
    ensures
        drawn(x, entries, seed, r) == drawn(y, entries, seed, r),
{
    lemma_playable_same(x, y, entries, entries.len());
}

proof fn lemma_playable_same(x: Position, y: Position, entries: Seq<BookEntry>, n: nat)
    requires
        forall|m: Move| #[trigger] legal_move(x, m) == legal_move(y, m),
    ensures
        playable_weights(x, entries, n) == playable_weights(y, entries, n),
        playable_indices(x, entries, n) == playable_indices(y, entries, n),
    decreases n,
{
    if n > 0 {
        lemma_playable_same(x, y, entries, (n - 1) as nat);
        let e = entries[n - 1];
        if playable(x, e) {
            let m = choose|m: Move| #[trigger] legal_move(x, m) && book_match(e, m);
            assert(legal_move(y, m));
        }
        if playable(y, e) {
            let m = choose|m: Move| #[trigger] legal_move(y, m) && book_match(e, m);
            assert(legal_move(x, m));
        }
    }
}

fn promotion_matches(m: Move, e: BookEntry) -> (b: bool)
    ensures
        b == book_match(e, m),
{
    if m.from != e.from || m.to != e.to {
        return false;
    }
    match (m.flag.promo_piece(), e.promotion) {
        (None, None) => true,
        (Some(p), Some(q)) => match book_promotion_kind(q) {
            Some(k) => k == p,
            None => false,
        },
        _ => false,
    }
}

/// A legal move (from the exact listing `legal`) that is the book move `e`.
fn find_book_move(legal: &Vec<Move>, Ghost(pos): Ghost<Position>, e: BookEntry) -> (r: Option<Move>)
    requires
        forall|m: Move| legal@.contains(m) <==> #[trigger] legal_move(pos, m),
    ensures
        r matches Some(m) ==> legal_move(pos, m) && book_match(e, m),
        r is None ==> !playable(pos, e),
{
    let mut i: usize = 0;
    while i < legal.len()
        invariant
            i <= legal@.len(),
            forall|m: Move| legal@.contains(m) <==> #[trigger] legal_move(pos, m),
            forall|j: int| 0 <= j < i ==> !book_match(e, #[trigger] legal@[j]),
        decreases legal@.len() - i,
    {
        let m = legal[i];
        assert(legal@.contains(m));
        if promotion_matches(m, e) {
            assert(legal_move(pos, m));
            return Some(m);
        }
        i = i + 1;
    }
    proof {
        if playable(pos, e) {
            let m = choose|m: Move| #[trigger] legal_move(pos, m) && book_match(e, m);
            assert(legal@.contains(m));
            let j = choose|j: int| 0 <= j < legal@.len() && legal@[j] == m;
            assert(!book_match(e, legal@[j]));
        }
    }
    None
}

proof fn lemma_total_step(w: Seq<int>, k: int)
    requires
        0 <= k < w.len(),
    ensures
        total(w.take(k + 1)) == total(w.take(k)) + w[k],
{
    assert(w.take(k + 1).drop_last() =~= w.take(k));
}

/// The book move for `pos` drawn from `entries` (in their order, each matched
/// against the legal moves) by weight, and the sequence value after the draw.
pub fn draw_book_move(pos: &mut Position, entries: &Vec<BookEntry>, seed: u64) -> (r: (Option<Move>, u64))
    requires
        movable(*old(pos)),
    ensures
        final(pos).same_state(*old(pos)),
        drawn(*old(pos), entries@, seed, r),
{
    let ghost p0 = *pos;
    let legal = generate_legal(pos);
    let mut moves: Vec<Move> = Vec::new();
    let mut weights: Vec<u64> = Vec::new();
    let mut sum: u128 = 0;
    let mut i: usize = 0;
    while i < entries.len()
        invariant
            i <= entries@.len(),
            pos.same_state(p0),
            p0 == *old(pos),
            forall|m: Move| legal@.contains(m) <==> #[trigger] legal_move(p0, m),
            moves@.len() == weights@.len(),
            weights@.len() == playable_weights(p0, entries@, i as nat).len(),
            playable_indices(p0, entries@, i as nat).len() == weights@.len(),
            forall|k: int| 0 <= k < weights@.len() ==> #[trigger] weights@[k] as int == playable_weights(p0, entries@, i as nat)[k],
            forall|k: int| 0 <= k < weights@.len() ==> 0 <= #[trigger] playable_indices(p0, entries@, i as nat)[k] < i,
            forall|k: int| 0 <= k < moves@.len() ==> legal_move(p0, #[trigger] moves@[k]) && book_match(
                entries@[playable_indices(p0, entries@, i as nat)[k]],
                moves@[k],
            ),
            sum == total(playable_weights(p0, entries@, i as nat)),
            sum <= 65535 * i,
            forall|k: int| 0 <= k < weights@.len() ==> #[trigger] weights@[k] <= 65535,
        decreases entries@.len() - i,
    {
        let e = entries[i];
        let found = find_book_move(&legal, Ghost(p0), e);
        let ghost old_moves = moves@;
        let ghost old_weights = weights@;
        match found {
            Some(m) => {
                assert(playable(p0, entries@[i as int]));
                moves.push(m);
                weights.push(e.weight as u64);
                assert(sum + e.weight <= 65535 * (i + 1) <= 65535 * 0x1_0000_0000_0000_0000) by (nonlinear_arith)
                    requires
                        sum <= 65535 * i,
                        e.weight <= 65535,
                        i < 0x1_0000_0000_0000_0000,
                ;
                sum = sum + e.weight as u128;
                proof {
                    let w = playable_weights(p0, entries@, (i + 1) as nat);
                    assert(w == playable_weights(p0, entries@, i as nat).push(e.weight as int));
                    assert(w.drop_last() == playable_weights(p0, entries@, i as nat));
                    assert forall|k: int| 0 <= k < moves@.len() implies legal_move(p0, #[trigger] moves@[k]) && book_match(
                        entries@[playable_indices(p0, entries@, (i + 1) as nat)[k]],
                        moves@[k],
                    ) by {
                        if k < old_moves.len() {
                            assert(moves@[k] == old_moves[k]);
                        }
                    }
                    assert forall|k: int| 0 <= k < weights@.len() implies #[trigger] weights@[k] as int == playable_weights(
                        p0,
                        entries@,
                        (i + 1) as nat,
                    )[k] by {
                        if k < old_weights.len() {
                            assert(weights@[k] == old_weights[k]);
                        }
                    }
                }
            },
            None => {},
        }
        i = i + 1;
    }
    let ghost w = playable_weights(p0, entries@, entries@.len());
    let ghost idx = playable_indices(p0, entries@, entries@.len());
    assert(sum <= 65535 * 0x1_0000_0000_0000_0000) by (nonlinear_arith)
        requires
            sum <= 65535 * i,
            i <= 0x1_0000_0000_0000_0000,
    ;
    if sum == 0 {
        return (None, seed);
    }
    let next = next_seed(seed);
    let target = (next as u128) % sum;
    let mut cum: u128 = 0;
    let mut k: usize = 0;
    while k < weights.len()
        invariant
            k <= weights@.len(),
            weights@.len() == w.len(),
            moves@.len() == w.len(),
            forall|j: int| 0 <= j < weights@.len() ==> #[trigger] weights@[j] as int == w[j],
            forall|j: int| 0 <= j < weights@.len() ==> #[trigger] weights@[j] <= 65535,
            cum == total(w.take(k as int)),
            target < sum,
            sum == total(w),
            pick(w, target as int, 0) == pick(w, target as int, k as nat),
            cum <= target,
            sum <= 65535 * 0x1_0000_0000_0000_0000,
            next == lcg_next(seed),
            target == (next as u128) % sum,
            pos.same_state(p0),
            p0 == *old(pos),
            idx == playable_indices(p0, entries@, entries@.len()),
            idx.len() == w.len(),
            w == playable_weights(p0, entries@, entries@.len()),
            forall|j: int| 0 <= j < moves@.len() ==> legal_move(p0, #[trigger] moves@[j]) && book_match(entries@[idx[j]], moves@[j]),
        decreases weights@.len() - k,
    {
        proof {
            lemma_total_step(w, k as int);
        }
        cum = cum + weights[k] as u128;
        if target < cum {
            return (Some(moves[k]), next);
        }
        k = k + 1;
    }
    proof {
        assert(w.take(w.len() as int) =~= w);
    }
    (None, next)
}

} // verus!

verus! {

#[verifier::external_type_specification]
#[verifier::external_body]
pub struct ExPolyglotBook(polyglot_book_rs::PolyglotBook);

/// The book's entries for the position written in `fen`, in the order
/// `PolyglotBook::get_all_moves_from_fen` gives them.
pub uninterp spec fn book_moves(book: polyglot_book_rs::PolyglotBook, fen: Seq<char>) -> Seq<BookMove>;

/// `PolyglotBook::get_all_moves_from_fen`: the loaded book's moves for the
/// position written in `fen`, each as its squares, promotion and weight (the
/// promotion piece as its number in the declaration order of the book's
/// `Piece` enum). The call reads only the book's sorted entries and the FEN text, so the result
/// is stated as `book_moves` of the two; what it holds is whatever the book
/// file held, which is not stated.
#[verifier::external_body]
fn book_entries(book: &polyglot_book_rs::PolyglotBook, fen: &str) -> (entries: Vec<BookMove>)
    ensures
        entries@ == book_moves(*book, fen@),
{
    let mut out = Vec::new();
    for e in book.get_all_moves_from_fen(fen) {
        let promotion = match e.chess_move.promotion {
            Some(p) => Some(p as u8),
            None => None,
        };
        out.push(BookMove { from: e.chess_move.from, to: e.chess_move.to, promotion, weight: e.weight });
    }
    out
}

/// The entries the stored moves stand for.
fn entries_of(ms: &Vec<BookMove>) -> (es: Vec<BookEntry>)
    ensures
        es@ == entries_spec(ms@),
{
    let mut es: Vec<BookEntry> = Vec::new();
    let mut i: usize = 0;
    while i < ms.len()
        invariant
            i <= ms@.len(),
            es@ == entries_spec(ms@.take(i as int)),
        decreases ms@.len() - i,
    {
        es.push(book_entry(ms[i]));
        assert(entries_spec(ms@.take(i + 1)) =~= entries_spec(ms@.take(i as int)).push(entry_spec(ms@[i as int])));
        i = i + 1;
    }
    assert(ms@.take(ms@.len() as int) =~= ms@);
    es
}

/// An opening book and the state of the sequence that draws from it.
pub struct Book {
    pub book: polyglot_book_rs::PolyglotBook,
    seed: u64,
}

impl Book {
    /// A book drawing with the sequence started at `seed`.
    pub fn with_seed(book: polyglot_book_rs::PolyglotBook, seed: u64) -> (b: Book)
        ensures
            b.seed() == seed,
            b.loaded() == book,
    {
        Book { book, seed }
    }

    pub closed spec fn seed(&self) -> u64 {
        self.seed
    }

    /// The loaded book.
    pub closed spec fn loaded(&self) -> polyglot_book_rs::PolyglotBook {
        self.book
    }

    /// A book move for `pos`: the book's entries for its FEN text, matched
    /// against the legal moves and drawn by weight (see `draw_book_move`).
    pub fn query(&mut self, pos: &Position) -> (r: Option<Move>)
        requires
            movable(*pos),
        ensures
            r matches Some(m) ==> legal_move(*pos, m),
            final(self).seed() == old(self).seed() || final(self).seed() == lcg_next(old(self).seed()),
            final(self).loaded() == old(self).loaded(),
            ({
                let es = entries_spec(book_moves(old(self).loaded(), crate::fen_text::fen_text(*pos)));
                if es.len() == 0 {
                    r is None && final(self).seed() == old(self).seed()
                } else {
                    drawn(*pos, es, old(self).seed(), (r, final(self).seed()))
                }
            }),
    {
        let fen = pos.to_fen();
        let stored = book_entries(&self.book, fen.as_str());
        let entries = entries_of(&stored);
        if entries.len() == 0 {
            return None;
        }
        let mut probe = pos.duplicate();
        proof {
            crate::movegen::lemma_same_state_moves(probe, *pos);
        }
        let ghost p0 = probe;
        let (m, seed) = draw_book_move(&mut probe, &entries, self.seed);
        proof {
            crate::movegen::lemma_same_state_moves(p0, *pos);
            assert(drawn(p0, entries@, old(self).seed, (m, seed)) == drawn(*pos, entries@, old(self).seed, (m, seed))) by {
                lemma_drawn_same_state(p0, *pos, entries@, old(self).seed, (m, seed));
            }
            if m is Some {
                assert(legal_move(p0, m.unwrap()));
            }
        }
        self.seed = seed;
        m
    }
}

} // verus!
