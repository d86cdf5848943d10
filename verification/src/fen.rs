//! FEN parsing: the board, side to move, castling rights, en-passant square and
//! move clocks of a position, from Forsyth-Edwards Notation.
use vstd::prelude::*;
use crate::bits::put;
use crate::position::{Position, piece_key, stm_key, castling_key, ep_key_spec, union6};
use crate::text::push_char;
use crate::{Color, Piece};

verus! {

/// The Unicode White_Space characters (what `char::is_whitespace` accepts).
pub open spec fn is_space(c: char) -> bool {
    let u = c as u32;
    ||| 9 <= u <= 13
    ||| u == 32
    ||| u == 0x85
    ||| u == 0xa0
    ||| u == 0x1680
    ||| 0x2000 <= u <= 0x200a
    ||| u == 0x2028
    ||| u == 0x2029
    ||| u == 0x202f
    ||| u == 0x205f
    ||| u == 0x3000
}

fn space(c: char) -> (b: bool)
    ensures
        b == is_space(c),
{
    let u = c as u32;
    (9 <= u && u <= 13) || u == 32 || u == 0x85 || u == 0xa0 || u == 0x1680 || (0x2000 <= u && u <= 0x200a)
        || u == 0x2028 || u == 0x2029 || u == 0x202f || u == 0x205f || u == 0x3000
}

/// The whitespace-separated fields of `s`, left to right.
pub open spec fn fields(s: Seq<char>) -> Seq<Seq<char>>
    decreases s.len(),
{
    if s.len() == 0 {
        Seq::empty()
    } else {
        let prev = fields(s.drop_last());
        let c = s.last();
        if is_space(c) {
            prev
        } else if s.len() >= 2 && !is_space(s[s.len() - 2]) {
            prev.update(prev.len() - 1, prev.last().push(c))
        } else {
            prev.push(seq![c])
        }
    }
}

/// A field continues while non-space characters follow each other.
proof fn lemma_fields_open(s: Seq<char>)
    requires
        s.len() > 0,
        !is_space(s.last()),
    ensures
        fields(s).len() > 0,
    decreases s.len(),
{
    if s.len() >= 2 && !is_space(s[s.len() - 2]) {
        assert(s.drop_last().last() == s[s.len() - 2]);
        lemma_fields_open(s.drop_last());
    }
}

/// The character sequences held by a vector of character vectors.
pub open spec fn texts(t: Seq<Vec<char>>) -> Seq<Seq<char>> {
    t.map_values(|v: Vec<char>| v@)
}

/// The characters of `s`.
fn chars_of(s: &str) -> (v: Vec<char>)
    ensures
        v@ == s@,
{
    let n = s.unicode_len();
    let mut v: Vec<char> = Vec::new();
    let mut i: usize = 0;
    while i < n
        invariant
            n == s@.len(),
            i <= n,
            v@ == s@.take(i as int),
        decreases n - i,
    {
        let c = s.get_char(i);
        v.push(c);
        assert(s@.take(i + 1) =~= s@.take(i as int).push(c));
        i = i + 1;
    }
    assert(s@.take(n as int) =~= s@);
    v
}

/// Split `s` into its whitespace-separated fields.
fn split_fields(s: &Vec<char>) -> (t: Vec<Vec<char>>)
    ensures
        texts(t@) == fields(s@),
{
    let mut t: Vec<Vec<char>> = Vec::new();
    let n = s.len();
    let mut i: usize = 0;
    assert(s@.take(0) =~= Seq::<char>::empty());
    assert(texts(t@) =~= Seq::<Seq<char>>::empty());
    while i < n
        invariant
            n == s@.len(),
            i <= n,
            texts(t@) == fields(s@.take(i as int)),
        decreases n - i,
    {
        let c = s[i];
        let ghost pre = s@.take(i as int);
        let ghost cur = s@.take(i + 1);
        assert(cur.drop_last() =~= pre);
        assert(cur.last() == c);
        if space(c) {
        } else if i >= 1 && !space(s[i - 1]) {
            proof {
                assert(cur[cur.len() - 2] == s@[i - 1]);
                assert(pre.last() == s@[i - 1]);
                lemma_fields_open(pre);
            }
            let ghost before = texts(t@);
            let ghost tv = t@;
            let mut last = t.pop().unwrap();
            last.push(c);
            t.push(last);
            proof {
                assert(t@ =~= tv.drop_last().push(last));
                assert(texts(t@) =~= before.update(before.len() - 1, before.last().push(c)));
            }
        } else {
            let ghost before = texts(t@);
            let ghost tv = t@;
            let mut tok: Vec<char> = Vec::new();
            tok.push(c);
            t.push(tok);
            proof {
                assert(tok@ =~= seq![c]);
                assert(t@ =~= tv.push(tok));
                assert(texts(t@) =~= before.push(seq![c]));
            }
        }
        i = i + 1;
    }
    assert(s@.take(n as int) =~= s@);
    t
}

} // verus!

verus! {

/// The piece a FEN board letter stands for: upper case for White, lower case
/// for Black.
pub open spec fn fen_piece(c: char) -> Option<(Color, Piece)> {
    if c == 'P' {
        Some((Color::White, Piece::Pawn))
    } else if c == 'N' {
        Some((Color::White, Piece::Knight))
    } else if c == 'B' {
        Some((Color::White, Piece::Bishop))
    } else if c == 'R' {
        Some((Color::White, Piece::Rook))
    } else if c == 'Q' {
        Some((Color::White, Piece::Queen))
    } else if c == 'K' {
        Some((Color::White, Piece::King))
    } else if c == 'p' {
        Some((Color::Black, Piece::Pawn))
    } else if c == 'n' {
        Some((Color::Black, Piece::Knight))
    } else if c == 'b' {
        Some((Color::Black, Piece::Bishop))
    } else if c == 'r' {
        Some((Color::Black, Piece::Rook))
    } else if c == 'q' {
        Some((Color::Black, Piece::Queen))
    } else if c == 'k' {
        Some((Color::Black, Piece::King))
    } else {
        None
    }
}

fn parse_piece(c: char) -> (r: Option<(Color, Piece)>)
    ensures
        r == fen_piece(c),
{
    let color = if 'A' <= c && c <= 'Z' { Color::White } else { Color::Black };
    let lower = if 'A' <= c && c <= 'Z' { ((c as u32) + 32) as u8 as char } else { c };
    let piece = if lower == 'p' {
        Piece::Pawn
    } else if lower == 'n' {
        Piece::Knight
    } else if lower == 'b' {
        Piece::Bishop
    } else if lower == 'r' {
        Piece::Rook
    } else if lower == 'q' {
        Piece::Queen
    } else if lower == 'k' {
        Piece::King
    } else {
        return None;
    };
    Some((color, piece))
}

/// An ASCII decimal digit.
pub open spec fn is_digit(c: char) -> bool {
    '0' <= c <= '9'
}

pub open spec fn digit_value(c: char) -> int {
    c as u32 - '0' as u32
}

/// The state of reading a FEN board field: the twelve bitboards so far
/// (indexed color * 6 + piece), the piece-square part of the hash, the rank
/// and file of the next square, and the character that stopped the reading
/// (with `true` when it was a piece outside the board).
pub struct BoardScan {
    pub bb: Seq<u64>,
    pub hash: u64,
    pub rank: int,
    pub file: int,
    pub fault: Option<(char, bool)>,
}

pub open spec fn board_start() -> BoardScan {
    BoardScan { bb: Seq::new(12, |i: int| 0u64), hash: 0, rank: 7, file: 0, fault: None }
}

/// Read one character of the board field: `/` starts the next rank down, a
/// digit skips that many files, a piece letter places the piece on the next
/// square when it is on the board.
pub open spec fn board_step(b: BoardScan, ch: char) -> BoardScan {
    if b.fault is Some {
        b
    } else if ch == '/' {
        BoardScan { bb: b.bb, hash: b.hash, rank: b.rank - 1, file: 0, fault: None }
    } else if is_digit(ch) {
        BoardScan { bb: b.bb, hash: b.hash, rank: b.rank, file: b.file + digit_value(ch), fault: None }
    } else {
        match fen_piece(ch) {
            None => BoardScan { bb: b.bb, hash: b.hash, rank: b.rank, file: b.file, fault: Some((ch, false)) },
            Some((c, p)) => if 0 <= b.file < 8 && 0 <= b.rank < 8 {
                let sq = b.rank * 8 + b.file;
                let i = c.spec_index() * 6 + p.spec_index();
                BoardScan {
                    bb: b.bb.update(i, put(b.bb[i], sq as u64)),
                    hash: b.hash ^ piece_key(c.spec_index(), p.spec_index(), sq),
                    rank: b.rank,
                    file: b.file + 1,
                    fault: None,
                }
            } else {
                BoardScan { bb: b.bb, hash: b.hash, rank: b.rank, file: b.file, fault: Some((ch, true)) }
            },
        }
    }
}

pub open spec fn board_scan(s: Seq<char>) -> BoardScan
    decreases s.len(),
{
    if s.len() == 0 {
        board_start()
    } else {
        board_step(board_scan(s.drop_last()), s.last())
    }
}

/// Every occupied square comes before the next square of the reading (on a
/// higher rank, or on the same rank at a lower file).
pub open spec fn placed_before(pos: Position, rank: int, file: int) -> bool {
    forall|t: u64| t < 64 && #[trigger] crate::bits::bit(pos.all, t) ==> (t / 8 > rank || (t / 8 == rank && t % 8 < file))
}

/// Placing a piece on an empty square keeps the board square-wise well formed.
proof fn lemma_place(old: Position, new: Position, c: int, p: int, sq: u64)
    requires
        0 <= c < 2,
        0 <= p < 6,
        sq < 64,
        crate::position::board_bits_ok(old),
        !crate::bits::bit(old.all, sq),
        new.pieces[c][p] == put(old.pieces[c][p], sq),
        crate::position::pieces_except(old.pieces, new.pieces, c, p),
        new.occ[c] == put(old.occ[c], sq),
        new.occ[1 - c] == old.occ[1 - c],
        new.all == put(old.all, sq),
    ensures
        crate::position::board_bits_ok(new),
{
    broadcast use crate::bits::lemma_put_bit;
    assert forall|t: u64| t < 64 implies #[trigger] crate::position::square_ok(new, t) by {
        assert(crate::position::square_ok(old, t));
        crate::position::lemma_union6_bit(old.pieces[0], t);
        crate::position::lemma_union6_bit(old.pieces[1], t);
        crate::position::lemma_union6_bit(new.pieces[0], t);
        crate::position::lemma_union6_bit(new.pieces[1], t);
        assert forall|c1: int, p1: int| 0 <= c1 < 2 && 0 <= p1 < 6 && !(c1 == c && p1 == p)
            implies new.pieces[c1][p1] == old.pieces[c1][p1] by {
        }
        assert(new.pieces[c][p] == put(old.pieces[c][p], sq));
        if t == sq {
            assert(!crate::bits::bit(old.occ[0], t) && !crate::bits::bit(old.occ[1], t));
        }
    }
}

} // verus!

verus! {

/// Once the reading of a board field has stopped, later characters change nothing.
proof fn lemma_fault_sticks(s: Seq<char>, k: int)
    requires
        0 <= k <= s.len(),
        board_scan(s.take(k)).fault is Some,
    ensures
        board_scan(s) == board_scan(s.take(k)),
    decreases s.len() - k,
{
    if k == s.len() {
        assert(s.take(k) =~= s);
    } else {
        assert(s.take(k + 1).drop_last() =~= s.take(k));
        lemma_fault_sticks(s, k + 1);
    }
}

/// Read the board field `tok` onto the empty board of `pos`; on success the
/// bitboards and the piece part of the hash are those of `board_scan`.
fn place_pieces(pos: &mut Position, tok: &Vec<char>) -> (fault: Option<(char, bool)>)
    requires
        forall|c: int, p: int| 0 <= c < 2 && 0 <= p < 6 ==> old(pos).pieces[c][p] == 0,
        old(pos).occ[0] == 0,
        old(pos).occ[1] == 0,
        old(pos).all == 0,
        old(pos).hash == 0,
    ensures
        fault == board_scan(tok@).fault,
        crate::position::same_meta(*old(pos), *final(pos)),
        fault is None ==> {
            &&& forall|c: int, p: int| 0 <= c < 2 && 0 <= p < 6 ==> #[trigger] final(pos).pieces[c][p] == board_scan(tok@).bb[c * 6 + p]
            &&& final(pos).hash == board_scan(tok@).hash
            &&& crate::position::board_bits_ok(*final(pos))
        },
{
    let ghost p0 = *pos;
    let mut rank: i64 = 7;
    let mut file: i64 = 0;
    let n = tok.len();
    let mut i: usize = 0;
    proof {
        assert(tok@.take(0) =~= Seq::<char>::empty());
        assert forall|t: u64| t < 64 implies #[trigger] crate::position::square_ok(*pos, t) by {
            crate::bits::lemma_bit_zero(t);
            crate::position::lemma_union6_bit(pos.pieces[0], t);
            crate::position::lemma_union6_bit(pos.pieces[1], t);
        }
        assert forall|t: u64| t < 64 implies !#[trigger] crate::bits::bit(pos.all, t) by {
            crate::bits::lemma_bit_zero(t);
        }
    }
    while i < n
        invariant
            n == tok@.len(),
            i <= n,
            board_scan(tok@.take(i as int)).fault is None,
            board_scan(tok@.take(i as int)).bb.len() == 12,
            board_scan(tok@.take(i as int)).rank <= 7,
            board_scan(tok@.take(i as int)).file >= 0,
            rank == (if board_scan(tok@.take(i as int)).rank < -1 { -1 } else { board_scan(tok@.take(i as int)).rank }),
            file == (if board_scan(tok@.take(i as int)).file > 64 { 64 } else { board_scan(tok@.take(i as int)).file }),
            forall|c: int, p: int| 0 <= c < 2 && 0 <= p < 6 ==> #[trigger] pos.pieces[c][p] == board_scan(tok@.take(i as int)).bb[c * 6 + p],
            pos.hash == board_scan(tok@.take(i as int)).hash,
            crate::position::board_bits_ok(*pos),
            placed_before(*pos, board_scan(tok@.take(i as int)).rank, board_scan(tok@.take(i as int)).file),
            p0 == *old(pos),
            crate::position::same_meta(p0, *pos),
        decreases n - i,
    {
        let ch = tok[i];
        let ghost b = board_scan(tok@.take(i as int));
        proof {
            assert(tok@.take(i + 1).drop_last() =~= tok@.take(i as int));
            assert(tok@.take(i + 1).last() == ch);
        }
        if ch == '/' {
            rank = if rank > -1 { rank - 1 } else { -1 };
            file = 0;
        } else if '0' <= ch && ch <= '9' {
            let d = (ch as u32 - 48) as i64;
            file = if file + d > 64 { 64 } else { file + d };
        } else {
            match parse_piece(ch) {
                None => {
                    proof {
                        lemma_fault_sticks(tok@, i + 1);
                    }
                    return Some((ch, false));
                },
                Some((color, piece)) => {
                    if !(0 <= file && file < 8 && 0 <= rank && rank < 8) {
                        proof {
                            lemma_fault_sticks(tok@, i + 1);
                        }
                        return Some((ch, true));
                    }
                    let sq = (rank * 8 + file) as u8;
                    let ghost before = *pos;
                    proof {
                        assert(sq / 8 == rank && sq % 8 == file);
                        assert(!crate::bits::bit(before.all, sq as u64));
                    }
                    pos.set_piece(color, piece, sq);
                    proof {
                        lemma_place(before, *pos, color.spec_index(), piece.spec_index(), sq as u64);
                        let b2 = board_scan(tok@.take(i + 1));
                        assert forall|c: int, p: int| 0 <= c < 2 && 0 <= p < 6 implies #[trigger] pos.pieces[c][p] == b2.bb[c * 6 + p] by {
                            if c == color.spec_index() && p == piece.spec_index() {
                            } else {
                                assert(pos.pieces[c][p] == before.pieces[c][p]);
                            }
                        }
                        broadcast use crate::bits::lemma_put_bit;
                        assert forall|t: u64| t < 64 && #[trigger] crate::bits::bit(pos.all, t)
                            implies (t / 8 > b2.rank || (t / 8 == b2.rank && t % 8 < b2.file)) by {
                            if t != sq as u64 {
                                assert(crate::bits::bit(before.all, t));
                            }
                        }
                    }
                    file = file + 1;
                }
            }
        }
        i = i + 1;
    }
    assert(tok@.take(n as int) =~= tok@);
    None
}

} // verus!

verus! {

/// The castling right a FEN castling letter grants.
pub open spec fn castle_bit(c: char) -> u8 {
    if c == 'K' {
        crate::castle::WK
    } else if c == 'Q' {
        crate::castle::WQ
    } else if c == 'k' {
        crate::castle::BK
    } else if c == 'q' {
        crate::castle::BQ
    } else {
        0
    }
}

/// Read a FEN castling field: the rights granted so far, and the first
/// character that is neither a castling letter nor `-`.
pub open spec fn castle_scan(s: Seq<char>) -> (u8, Option<char>)
    decreases s.len(),
{
    if s.len() == 0 {
        (0, None)
    } else {
        let prev = castle_scan(s.drop_last());
        let ch = s.last();
        if prev.1 is Some {
            prev
        } else if ch == 'K' || ch == 'Q' || ch == 'k' || ch == 'q' {
            ((prev.0 | castle_bit(ch)) as u8, None)
        } else if ch == '-' {
            prev
        } else {
            (prev.0, Some(ch))
        }
    }
}

proof fn lemma_castle_sticks(s: Seq<char>, k: int)
    requires
        0 <= k <= s.len(),
        castle_scan(s.take(k)).1 is Some,
    ensures
        castle_scan(s) == castle_scan(s.take(k)),
    decreases s.len() - k,
{
    if k == s.len() {
        assert(s.take(k) =~= s);
    } else {
        assert(s.take(k + 1).drop_last() =~= s.take(k));
        lemma_castle_sticks(s, k + 1);
    }
}

fn parse_castling(t: &Vec<char>) -> (r: Result<u8, char>)
    ensures
        match r {
            Ok(c) => castle_scan(t@).1 is None && c == castle_scan(t@).0 && c < 16,
            Err(ch) => castle_scan(t@).1 == Some(ch),
        },
{
    let mut c: u8 = 0;
    let n = t.len();
    let mut i: usize = 0;
    assert(t@.take(0) =~= Seq::<char>::empty());
    while i < n
        invariant
            n == t@.len(),
            i <= n,
            castle_scan(t@.take(i as int)) == (c, None::<char>),
            c < 16,
        decreases n - i,
    {
        let ch = t[i];
        assert(t@.take(i + 1).drop_last() =~= t@.take(i as int));
        if ch == 'K' {
            assert(c | 1 < 16) by (bit_vector) requires c < 16;
            c = c | crate::castle::WK;
        } else if ch == 'Q' {
            assert(c | 2 < 16) by (bit_vector) requires c < 16;
            c = c | crate::castle::WQ;
        } else if ch == 'k' {
            assert(c | 4 < 16) by (bit_vector) requires c < 16;
            c = c | crate::castle::BK;
        } else if ch == 'q' {
            assert(c | 8 < 16) by (bit_vector) requires c < 16;
            c = c | crate::castle::BQ;
        } else if ch != '-' {
            proof {
                lemma_castle_sticks(t@, i + 1);
            }
            return Err(ch);
        }
        i = i + 1;
    }
    assert(t@.take(n as int) =~= t@);
    Ok(c)
}

/// The square named by a two-character coordinate such as `e3`.
pub open spec fn fen_square(t: Seq<char>) -> Option<u8> {
    if t.len() == 2 && 'a' <= t[0] <= 'h' && '1' <= t[1] <= '8' {
        Some(((t[1] as u32 - '1' as u32) * 8 + (t[0] as u32 - 'a' as u32)) as u8)
    } else {
        None
    }
}

fn parse_square(t: &Vec<char>) -> (r: Option<u8>)
    ensures
        r == fen_square(t@),
{
    if t.len() != 2 {
        return None;
    }
    let f = t[0];
    let r = t[1];
    if 'a' <= f && f <= 'h' && '1' <= r && r <= '8' {
        Some(((r as u32 - 49) * 8 + (f as u32 - 97)) as u8)
    } else {
        None
    }
}

/// The value of a string of decimal digits.
pub open spec fn digits_value(d: Seq<char>) -> int
    decreases d.len(),
{
    if d.len() == 0 {
        0
    } else {
        digits_value(d.drop_last()) * 10 + digit_value(d.last())
    }
}

pub open spec fn all_digits(d: Seq<char>) -> bool {
    forall|i: int| 0 <= i < d.len() ==> is_digit(#[trigger] d[i])
}

/// `u16`'s `from_str`: an optional `+`, then at least one digit, with a value
/// that fits.
pub open spec fn parse_u16_spec(t: Seq<char>) -> Option<u16> {
    let d = if t.len() > 0 && t[0] == '+' { t.drop_first() } else { t };
    if d.len() == 0 || !all_digits(d) || digits_value(d) > u16::MAX {
        None
    } else {
        Some(digits_value(d) as u16)
    }
}

/// Digits only add to the value of a prefix.
proof fn lemma_digits_grow(d: Seq<char>, k: int)
    requires
        0 <= k <= d.len(),
        all_digits(d),
    ensures
        digits_value(d.take(k)) <= digits_value(d),
    decreases d.len() - k,
{
    if k == d.len() {
        assert(d.take(k) =~= d);
    } else {
        lemma_digits_grow(d, k + 1);
        assert(d.take(k + 1).drop_last() =~= d.take(k));
        assert(is_digit(d[k]));
        assert(digits_value(d.take(k)) >= 0) by {
            lemma_digits_nonneg(d.take(k));
        }
    }
}

proof fn lemma_digits_nonneg(d: Seq<char>)
    requires
        all_digits(d),
    ensures
        digits_value(d) >= 0,
    decreases d.len(),
{
    if d.len() > 0 {
        assert(all_digits(d.drop_last())) by {
            assert forall|i: int| 0 <= i < d.drop_last().len() implies is_digit(#[trigger] d.drop_last()[i]) by {
                assert(d.drop_last()[i] == d[i]);
            }
        }
        lemma_digits_nonneg(d.drop_last());
        assert(is_digit(d[d.len() - 1]));
    }
}

fn parse_u16(t: &Vec<char>) -> (r: Option<u16>)
    ensures
        r == parse_u16_spec(t@),
{
    let n = t.len();
    let start: usize = if n > 0 && t[0] == '+' { 1 } else { 0 };
    let ghost d = if t@.len() > 0 && t@[0] == '+' { t@.drop_first() } else { t@ };
    assert(d =~= t@.subrange(start as int, n as int));
    if start == n {
        return None;
    }
    let mut v: u32 = 0;
    let mut i: usize = start;
    assert(d.take(0) =~= Seq::<char>::empty());
    while i < n
        invariant
            n == t@.len(),
            start <= i <= n,
            d == (if t@.len() > 0 && t@[0] == '+' { t@.drop_first() } else { t@ }),
            d =~= t@.subrange(start as int, n as int),
            v == digits_value(d.take(i - start)),
            all_digits(d.take(i - start)),
            v <= u16::MAX,
        decreases n - i,
    {
        let c = t[i];
        let ghost k = i - start;
        assert(d[k] == c);
        assert(d.take(k + 1).drop_last() =~= d.take(k));
        if !('0' <= c && c <= '9') {
            assert(!is_digit(d[k]));
            assert(!all_digits(d));
            return None;
        }
        v = v * 10 + (c as u32 - 48);
        assert(all_digits(d.take(k + 1))) by {
            assert forall|j: int| 0 <= j < d.take(k + 1).len() implies is_digit(#[trigger] d.take(k + 1)[j]) by {
                if j < k {
                    assert(d.take(k + 1)[j] == d.take(k)[j]);
                }
            }
        }
        if v > 65535 {
            proof {
                if all_digits(d) {
                    lemma_digits_grow(d, k + 1);
                }
            }
            return None;
        }
        i = i + 1;
    }
    assert(d.take(n - start) =~= d);
    Some(v as u16)
}

} // verus!

verus! {

/// Append the characters of `t` to `s`.
fn push_chars(s: &mut String, t: &Vec<char>)
    ensures
        final(s)@ == old(s)@ + t@,
{
    let n = t.len();
    let mut i: usize = 0;
    while i < n
        invariant
            n == t@.len(),
            i <= n,
            s@ == old(s)@ + t@.take(i as int),
        decreases n - i,
    {
        push_char(s, t[i]);
        assert(old(s)@ + t@.take(i + 1) =~= (old(s)@ + t@.take(i as int)).push(t@[i as int]));
        i = i + 1;
    }
    assert(t@.take(n as int) =~= t@);
}

/// The error message of reading the FEN `s`, if reading fails: fewer than four
/// fields, a bad board character (a non-piece letter, or a piece outside the
/// board), a side to move other than `w`/`b`, a bad castling character, or an
/// en-passant field that is neither `-` nor a square.
#[verifier::opaque]
pub open spec fn fen_error(s: Seq<char>) -> Option<Seq<char>> {
    let f = fields(s);
    if f.len() < 4 {
        Some("FEN needs ≥4 fields: "@ + s)
    } else if board_scan(f[0]).fault is Some {
        let (ch, range) = board_scan(f[0]).fault->0;
        if range {
            Some("FEN out of range at '"@.push(ch) + "'"@)
        } else {
            Some("bad piece '"@.push(ch) + "'"@)
        }
    } else if f[1] != seq!['w'] && f[1] != seq!['b'] {
        Some("bad stm '"@ + f[1] + "'"@)
    } else if castle_scan(f[2]).1 is Some {
        Some("bad castling '"@.push(castle_scan(f[2]).1->0) + "'"@)
    } else if f[3] != seq!['-'] && fen_square(f[3]) is None {
        Some("bad ep '"@ + f[3] + "'"@)
    } else {
        None
    }
}

pub open spec fn fen_stm(s: Seq<char>) -> Color {
    if fields(s)[1] == seq!['b'] {
        Color::Black
    } else {
        Color::White
    }
}

pub open spec fn fen_castling(s: Seq<char>) -> u8 {
    castle_scan(fields(s)[2]).0
}

pub open spec fn fen_ep(s: Seq<char>) -> Option<u8> {
    if fields(s)[3] == seq!['-'] {
        None
    } else {
        fen_square(fields(s)[3])
    }
}

/// A move clock read from field `i` (the default when the field is missing or
/// does not parse).
pub open spec fn fen_clock(s: Seq<char>, i: int, default: u16) -> u16 {
    if fields(s).len() > i {
        match parse_u16_spec(fields(s)[i]) {
            Some(v) => v,
            None => default,
        }
    } else {
        default
    }
}

/// The Zobrist hash of the position the FEN describes.
pub open spec fn fen_hash(s: Seq<char>) -> u64 {
    let h0 = board_scan(fields(s)[0]).hash;
    let h1 = if fen_stm(s) == Color::Black { h0 ^ stm_key() } else { h0 };
    let h2 = h1 ^ castling_key(fen_castling(s) as int);
    h2 ^ ep_key_spec(fen_ep(s))
}

/// `p` is the position the FEN `s` describes, with an empty move history.
#[verifier::opaque]
pub open spec fn fen_position(s: Seq<char>, p: Position) -> bool {
    &&& forall|c: int, q: int| 0 <= c < 2 && 0 <= q < 6 ==> #[trigger] p.pieces[c][q] == board_scan(fields(s)[0]).bb[c * 6 + q]
    &&& p.occ[0] == union6(p.pieces[0])
    &&& p.occ[1] == union6(p.pieces[1])
    &&& p.all == p.occ[0] | p.occ[1]
    &&& p.stm == fen_stm(s)
    &&& p.castling == fen_castling(s)
    &&& p.ep == fen_ep(s)
    &&& p.halfmove == fen_clock(s, 4, 0)
    &&& p.fullmove == fen_clock(s, 5, 1)
    &&& p.hash == fen_hash(s)
    &&& p.history_view().len() == 0
}

fn is_single(t: &Vec<char>, c: char) -> (b: bool)
    ensures
        b == (t@ == seq![c]),
{
    if t.len() == 1 && t[0] == c {
        assert(t@ =~= seq![c]);
        true
    } else {
        false
    }
}

/// `prefix`, the character `c`, and a closing quote.
fn quoted_char(prefix: &str, c: char) -> (m: String)
    ensures
        m@ == prefix@.push(c) + "'"@,
{
    let mut m = String::from_str(prefix);
    push_char(&mut m, c);
    m.append("'");
    m
}

/// `prefix`, the characters of `t`, and a closing quote.
fn quoted_chars(prefix: &str, t: &Vec<char>) -> (m: String)
    ensures
        m@ == prefix@ + t@ + "'"@,
{
    let mut m = String::from_str(prefix);
    push_chars(&mut m, t);
    m.append("'");
    m
}

/// The reading of the first four fields, summarised for the error lemmas.
proof fn lemma_fen_error(s: Seq<char>)
    ensures
        fields(s).len() < 4 ==> fen_error(s) == Some("FEN needs ≥4 fields: "@ + s),
        fields(s).len() >= 4 && board_scan(fields(s)[0]).fault is Some ==> fen_error(s) == Some(
            if board_scan(fields(s)[0]).fault.unwrap().1 {
                "FEN out of range at '"@.push(board_scan(fields(s)[0]).fault.unwrap().0) + "'"@
            } else {
                "bad piece '"@.push(board_scan(fields(s)[0]).fault.unwrap().0) + "'"@
            }),
        fields(s).len() >= 4 && board_scan(fields(s)[0]).fault is None && fields(s)[1] != seq!['w'] && fields(s)[1] != seq!['b']
            ==> fen_error(s) == Some("bad stm '"@ + fields(s)[1] + "'"@),
        fields(s).len() >= 4 && board_scan(fields(s)[0]).fault is None && (fields(s)[1] == seq!['w'] || fields(s)[1] == seq!['b'])
            && castle_scan(fields(s)[2]).1 is Some ==> fen_error(s) == Some("bad castling '"@.push(castle_scan(fields(s)[2]).1->0) + "'"@),
        fields(s).len() >= 4 && board_scan(fields(s)[0]).fault is None && (fields(s)[1] == seq!['w'] || fields(s)[1] == seq!['b'])
            && castle_scan(fields(s)[2]).1 is None && fields(s)[3] != seq!['-'] && fen_square(fields(s)[3]) is None
            ==> fen_error(s) == Some("bad ep '"@ + fields(s)[3] + "'"@),
        fields(s).len() >= 4 && board_scan(fields(s)[0]).fault is None && (fields(s)[1] == seq!['w'] || fields(s)[1] == seq!['b'])
            && castle_scan(fields(s)[2]).1 is None && (fields(s)[3] == seq!['-'] || fen_square(fields(s)[3]) is Some)
            ==> fen_error(s) is None,
{
    reveal(fen_error);
}

/// Gathers the fields read by `from_fen` into `fen_position`.
proof fn lemma_fen_position(s: Seq<char>, p: Position)
    requires
        fields(s).len() >= 4,
        board_scan(fields(s)[0]).fault is None,
        forall|c: int, q: int| 0 <= c < 2 && 0 <= q < 6 ==> #[trigger] p.pieces[c][q] == board_scan(fields(s)[0]).bb[c * 6 + q],
        p.occ[0] == union6(p.pieces[0]),
        p.occ[1] == union6(p.pieces[1]),
        p.all == p.occ[0] | p.occ[1],
        p.stm == fen_stm(s),
        p.castling == fen_castling(s),
        p.ep == fen_ep(s),
        p.halfmove == fen_clock(s, 4, 0),
        p.fullmove == fen_clock(s, 5, 1),
        p.hash == fen_hash(s),
        p.history_view().len() == 0,
    ensures
        fen_position(s, p),
{
    reveal(fen_position);
}

impl Position {
    /// Read a position from FEN: the board, side to move, castling rights and
    /// en-passant square are required; the halfmove and fullmove clocks are
    /// optional (0 and 1 when missing or unreadable).
    #[verifier::spinoff_prover]
    pub fn from_fen(fen: &str) -> (r: Result<Position, String>)
        ensures
            match r {
                Ok(p) => fen_error(fen@) is None && fen_position(fen@, p) && p.wf(),
                Err(e) => fen_error(fen@) == Some(e@),
            },
    {
        let mut pos = Position {
            pieces: [[0; 6]; 2],
            occ: [0; 2],
            all: 0,
            stm: Color::White,
            castling: 0,
            ep: None,
            halfmove: 0,
            fullmove: 1,
            hash: 0,
            history: Vec::new(),
        };
        let chars = chars_of(fen);
        let parts = split_fields(&chars);
        let ghost f = fields(fen@);
        proof {
            lemma_fen_error(fen@);
            assert(parts@.len() == f.len());
        }
        if parts.len() < 4 {
            let mut m = String::from_str("FEN needs ≥4 fields: ");
            m.append(fen);
            return Err(m);
        }
        assert(parts@[0]@ == f[0] && parts@[1]@ == f[1] && parts@[2]@ == f[2] && parts@[3]@ == f[3]);
        match place_pieces(&mut pos, &parts[0]) {
            Some((ch, range)) => {
                let m = if range {
                    quoted_char("FEN out of range at '", ch)
                } else {
                    quoted_char("bad piece '", ch)
                };
                return Err(m);
            },
            None => {},
        }
        let ghost board = pos;
        assert(seq!['w'] != seq!['b']) by {
            assert(seq!['w'][0] != seq!['b'][0]);
        }
        pos.stm = if is_single(&parts[1], 'w') {
            Color::White
        } else if is_single(&parts[1], 'b') {
            Color::Black
        } else {
            return Err(quoted_chars("bad stm '", &parts[1]));
        };
        match parse_castling(&parts[2]) {
            Ok(c) => {
                pos.castling = c;
            },
            Err(ch) => {
                return Err(quoted_char("bad castling '", ch));
            },
        }
        pos.ep = if is_single(&parts[3], '-') {
            None
        } else {
            match parse_square(&parts[3]) {
                Some(s) => Some(s),
                None => {
                    return Err(quoted_chars("bad ep '", &parts[3]));
                },
            }
        };
        if parts.len() > 4 {
            assert(parts@[4]@ == f[4]);
            pos.halfmove = match parse_u16(&parts[4]) {
                Some(h) => h,
                None => 0,
            };
        }
        if parts.len() > 5 {
            assert(parts@[5]@ == f[5]);
            pos.fullmove = match parse_u16(&parts[5]) {
                Some(v) => v,
                None => 1,
            };
        }
        if pos.stm == Color::Black {
            pos.hash = pos.hash ^ crate::position::zobrist_output(769);
        }
        pos.hash = pos.hash ^ crate::position::castling_key_exec(pos.castling);
        pos.hash = pos.hash ^ crate::position::ep_key(pos.ep);
        proof {
            assert forall|t: u64| t < 64 implies #[trigger] crate::position::square_ok(pos, t) by {
                assert(crate::position::square_ok(board, t));
            }
            crate::position::lemma_board_wf_from_bits(pos);
            lemma_fen_position(fen@, pos);
        }
        Ok(pos)
    }
}

} // verus!

verus! {

/// The FEN of the starting position.
pub const STARTPOS_FEN: &'static str = "rnbqkbnr/pppppppp/8/8/8/8/PPPPPPPP/RNBQKBNR w KQkq - 0 1";

/// Piece type index of the back-rank piece on file `f`: rook, knight, bishop,
/// queen, king, bishop, knight, rook.
pub open spec fn back_rank(f: int) -> int {
    if f == 0 || f == 7 {
        3
    } else if f == 1 || f == 6 {
        1
    } else if f == 2 || f == 5 {
        2
    } else if f == 3 {
        4
    } else {
        5
    }
}

/// The (color index, piece index) standing on square `s` at the start of a game.
pub open spec fn start_piece(s: int) -> Option<(int, int)> {
    let r = s / 8;
    let f = s % 8;
    if r == 0 {
        Some((0, back_rank(f)))
    } else if r == 1 {
        Some((0, 0))
    } else if r == 6 {
        Some((1, 0))
    } else if r == 7 {
        Some((1, back_rank(f)))
    } else {
        None
    }
}

/// The piece-square hash of the first `f` files of the starting position, with
/// the pieces of each file added from White's back rank upwards.
pub open spec fn start_hash(f: nat) -> u64
    decreases f,
{
    if f == 0 {
        0
    } else {
        let g = (f - 1) as int;
        let h = start_hash((f - 1) as nat);
        (((h ^ piece_key(0, back_rank(g), g)) ^ piece_key(0, 0, 8 + g)) ^ piece_key(1, 0, 48 + g)) ^ piece_key(1, back_rank(g), 56 + g)
    }
}

/// The start-position pieces on files below `f` are on the board, and nothing else.
#[verifier::opaque]
pub open spec fn start_files(pos: Position, f: int) -> bool {
    forall|c: int, p: int, s: u64| 0 <= c < 2 && 0 <= p < 6 && s < 64 ==>
        (#[trigger] crate::bits::bit(pos.pieces[c][p], s) <==> (s % 8 < f && start_piece(s as int) == Some((c, p))))
}

/// Set one piece of the starting position on the empty square `sq`.
fn put_start(pos: &mut Position, color: Color, piece: Piece, sq: u8)
    requires
        sq < 64,
        board_sound(*old(pos)),
        !crate::bits::bit(old(pos).all, sq as u64),
    ensures
        board_sound(*final(pos)),
        final(pos).pieces[color.spec_index()][piece.spec_index()] == put(old(pos).pieces[color.spec_index()][piece.spec_index()], sq as u64),
        crate::position::pieces_except(old(pos).pieces, final(pos).pieces, color.spec_index(), piece.spec_index()),
        final(pos).all == put(old(pos).all, sq as u64),
        final(pos).hash == old(pos).hash ^ piece_key(color.spec_index(), piece.spec_index(), sq as int),
        crate::position::same_meta(*old(pos), *final(pos)),
{
    let ghost before = *pos;
    pos.set_piece(color, piece, sq);
    proof {
        reveal(board_sound);
        lemma_place(before, *pos, color.spec_index(), piece.spec_index(), sq as u64);
    }
}

/// The board is square-wise well formed (kept opaque while a board is built).
#[verifier::opaque]
pub open spec fn board_sound(pos: Position) -> bool {
    crate::position::board_bits_ok(pos)
}

/// No piece stands on file `f` yet.
proof fn lemma_file_empty(p0: Position, f: int, t: u64)
    requires
        0 <= f < 8,
        t < 64,
        t % 8 == f,
        board_sound(p0),
        start_files(p0, f),
    ensures
        !crate::bits::bit(p0.all, t),
{
    reveal(start_files);
    reveal(board_sound);
    assert(crate::position::square_ok(p0, t));
    crate::position::lemma_union6_bit(p0.pieces[0], t);
    crate::position::lemma_union6_bit(p0.pieces[1], t);
    assert forall|c: int, q: int| 0 <= c < 2 && 0 <= q < 6 implies !crate::bits::bit(p0.pieces[c][q], t) by {
        assert(crate::bits::bit(p0.pieces[c][q], t) <==> (t % 8 < f && start_piece(t as int) == Some((c, q))));
    }
}

/// Adding the four pieces of file `f` extends the start position by one file.
#[verifier::spinoff_prover]
proof fn lemma_start_step(p0: Position, p1: Position, p2: Position, p3: Position, p4: Position, f: int)
    requires
        0 <= f < 8,
        start_files(p0, f),
        p1.pieces[0][back_rank(f)] == put(p0.pieces[0][back_rank(f)], f as u64),
        crate::position::pieces_except(p0.pieces, p1.pieces, 0, back_rank(f)),
        p2.pieces[0][0] == put(p1.pieces[0][0], (8 + f) as u64),
        crate::position::pieces_except(p1.pieces, p2.pieces, 0, 0),
        p3.pieces[1][0] == put(p2.pieces[1][0], (48 + f) as u64),
        crate::position::pieces_except(p2.pieces, p3.pieces, 1, 0),
        p4.pieces[1][back_rank(f)] == put(p3.pieces[1][back_rank(f)], (56 + f) as u64),
        crate::position::pieces_except(p3.pieces, p4.pieces, 1, back_rank(f)),
    ensures
        start_files(p4, f + 1),
{
    reveal(start_files);
    broadcast use crate::bits::lemma_put_bit;
    let b = back_rank(f);
    assert forall|c: int, q: int, s: u64| 0 <= c < 2 && 0 <= q < 6 && s < 64 implies
        (#[trigger] crate::bits::bit(p4.pieces[c][q], s) <==> (s % 8 < f + 1 && start_piece(s as int) == Some((c, q)))) by {
        assert(crate::bits::bit(p0.pieces[c][q], s) <==> (s % 8 < f && start_piece(s as int) == Some((c, q))));
        assert(p1.pieces[c][q] == (if c == 0 && q == b { put(p0.pieces[c][q], f as u64) } else { p0.pieces[c][q] }));
        assert(p2.pieces[c][q] == (if c == 0 && q == 0 { put(p1.pieces[c][q], (8 + f) as u64) } else { p1.pieces[c][q] }));
        assert(p3.pieces[c][q] == (if c == 1 && q == 0 { put(p2.pieces[c][q], (48 + f) as u64) } else { p2.pieces[c][q] }));
        assert(p4.pieces[c][q] == (if c == 1 && q == b { put(p3.pieces[c][q], (56 + f) as u64) } else { p3.pieces[c][q] }));
    }
}

/// An empty board: no pieces, White to move, no castling rights or en-passant
/// square, clocks 0 and 1, hash 0, no history.
fn empty_board() -> (pos: Position)
    ensures
        forall|c: int, p: int| 0 <= c < 2 && 0 <= p < 6 ==> #[trigger] pos.pieces[c][p] == 0,
        pos.occ[0] == 0,
        pos.occ[1] == 0,
        pos.all == 0,
        pos.hash == 0,
        pos.stm == Color::White,
        pos.castling == 0,
        pos.ep is None,
        pos.halfmove == 0,
        pos.fullmove == 1,
        pos.history_view().len() == 0,
        board_sound(pos),
        start_files(pos, 0),
{
    let pos = Position {
        pieces: [[0; 6]; 2],
        occ: [0; 2],
        all: 0,
        stm: Color::White,
        castling: 0,
        ep: None,
        halfmove: 0,
        fullmove: 1,
        hash: 0,
        history: Vec::new(),
    };
    proof {
        assert forall|t: u64| t < 64 implies #[trigger] crate::position::square_ok(pos, t) by {
            crate::bits::lemma_bit_zero(t);
            crate::position::lemma_union6_bit(pos.pieces[0], t);
            crate::position::lemma_union6_bit(pos.pieces[1], t);
        }
        reveal(board_sound);
        reveal(start_files);
        assert forall|c: int, p: int, s: u64| 0 <= c < 2 && 0 <= p < 6 && s < 64 implies
            (#[trigger] crate::bits::bit(pos.pieces[c][p], s) <==> (s % 8 < 0 && start_piece(s as int) == Some((c, p)))) by {
            crate::bits::lemma_bit_zero(s);
        }
    }
    pos
}

/// The four pieces of file `f` of the starting position, added to a board
/// holding the files below `f`.
fn add_start_file(pos: &mut Position, f: u8, back: Piece)
    requires
        f < 8,
        back.spec_index() == back_rank(f as int),
        board_sound(*old(pos)),
        start_files(*old(pos), f as int),
    ensures
        board_sound(*final(pos)),
        start_files(*final(pos), f + 1),
        final(pos).hash == (((old(pos).hash ^ piece_key(0, back_rank(f as int), f as int)) ^ piece_key(0, 0, 8 + f))
            ^ piece_key(1, 0, 48 + f)) ^ piece_key(1, back_rank(f as int), 56 + f),
        crate::position::same_meta(*old(pos), *final(pos)),
{
    let ghost p0 = *pos;
    proof {
        lemma_file_empty(p0, f as int, f as u64);
    }
    put_start(pos, Color::White, back, f);
    let ghost p1 = *pos;
    proof {
        lemma_file_empty(p0, f as int, (8 + f) as u64);
        crate::bits::lemma_put_bit(p0.all, f as u64, (8 + f) as u64);
    }
    put_start(pos, Color::White, Piece::Pawn, 8 + f);
    let ghost p2 = *pos;
    proof {
        lemma_file_empty(p0, f as int, (48 + f) as u64);
        crate::bits::lemma_put_bit(p0.all, f as u64, (48 + f) as u64);
        crate::bits::lemma_put_bit(p1.all, (8 + f) as u64, (48 + f) as u64);
    }
    put_start(pos, Color::Black, Piece::Pawn, 48 + f);
    let ghost p3 = *pos;
    proof {
        lemma_file_empty(p0, f as int, (56 + f) as u64);
        crate::bits::lemma_put_bit(p0.all, f as u64, (56 + f) as u64);
        crate::bits::lemma_put_bit(p1.all, (8 + f) as u64, (56 + f) as u64);
        crate::bits::lemma_put_bit(p2.all, (48 + f) as u64, (56 + f) as u64);
    }
    put_start(pos, Color::Black, back, 56 + f);
    proof {
        lemma_start_step(p0, p1, p2, p3, *pos, f as int);
    }
}

/// A sound board with castling and en-passant fields in range is well formed.
proof fn lemma_sound_wf(p: Position)
    requires
        board_sound(p),
        p.castling < 16,
        p.ep is None,
        p.history_view().len() == 0,
    ensures
        p.wf(),
{
    reveal(board_sound);
    crate::position::lemma_board_wf_from_bits(p);
}

/// Soundness reads only the bitboards.
proof fn lemma_sound_same(a: Position, b: Position)
    requires
        board_sound(a),
        a.pieces == b.pieces,
        a.occ == b.occ,
        a.all == b.all,
    ensures
        board_sound(b),
{
    reveal(board_sound);
    assert forall|t: u64| t < 64 implies #[trigger] crate::position::square_ok(b, t) by {
        assert(crate::position::square_ok(a, t));
    }
}

/// All eight files placed: exactly the starting pieces.
proof fn lemma_start_done(p: Position)
    requires
        start_files(p, 8),
    ensures
        forall|c: int, q: int, s: u64| 0 <= c < 2 && 0 <= q < 6 && s < 64 ==>
            (#[trigger] crate::bits::bit(p.pieces[c][q], s) <==> start_piece(s as int) == Some((c, q))),
{
    reveal(start_files);
}

impl Position {
    /// The starting position of a game (what `STARTPOS_FEN` describes).
    pub fn startpos() -> (p: Position)
        ensures
            p.wf(),
            p.history_view().len() == 0,
            forall|c: int, q: int, s: u64| 0 <= c < 2 && 0 <= q < 6 && s < 64 ==>
                (#[trigger] crate::bits::bit(p.pieces[c][q], s) <==> start_piece(s as int) == Some((c, q))),
            p.stm == Color::White,
            p.castling == 15,
            p.ep is None,
            p.halfmove == 0,
            p.fullmove == 1,
            p.hash == start_hash(8) ^ castling_key(15),
    {
        let mut pos = empty_board();
        let back = [Piece::Rook, Piece::Knight, Piece::Bishop, Piece::Queen, Piece::King, Piece::Bishop, Piece::Knight, Piece::Rook];
        let mut f: u8 = 0;
        while f < 8
            invariant
                f <= 8,
                forall|i: int| 0 <= i < 8 ==> (#[trigger] back[i]).spec_index() == back_rank(i),
                board_sound(pos),
                start_files(pos, f as int),
                pos.hash == start_hash(f as nat),
                pos.stm == Color::White,
                pos.castling == 0,
                pos.ep is None,
                pos.halfmove == 0,
                pos.fullmove == 1,
                pos.history_view().len() == 0,
            decreases 8 - f,
        {
            add_start_file(&mut pos, f, back[f as usize]);
            f = f + 1;
        }
        let ghost built = pos;
        pos.castling = 15;
        pos.hash = pos.hash ^ crate::position::castling_key_exec(pos.castling);
        proof {
            lemma_start_done(built);
            lemma_sound_same(built, pos);
            lemma_sound_wf(pos);
        }
        pos
    }
}

} // verus!
