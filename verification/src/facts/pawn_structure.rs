//! Pawn structure: doubled and isolated pawns, passed pawns and pawn islands,
//! each list ordered by id (Black before White).
use vstd::prelude::*;
use crate::facts::types::uncomputed_because;
use crate::bits::bit;
use crate::facts::piece_safety::{color_word, piece_ref, piece_ref_spec};
use crate::facts::position::{name_order_square, names_of, side, side_spec, square_in_name_order, square_name, square_name_spec};
use crate::facts::promotion_pressure::is_passed;
use crate::facts::types::{FactCollection, PieceRef, Side};
use crate::position::Position;
use crate::text::push_char;
use crate::{Color, Piece};

verus! {

/// Two or more pawns of one side on one file.
#[derive(Clone, Debug)]
pub struct DoubledPawnFact {
    pub id: String,
    pub side: Side,
    pub file: String,
    pub squares: Vec<String>,
}

/// A maximal run of neighbouring files holding pawns of one side.
#[derive(Clone, Debug)]
pub struct PawnIslandFact {
    pub id: String,
    pub side: Side,
    pub files: Vec<String>,
    pub squares: Vec<String>,
}

/// A structure fact that appears or disappears between two positions.
#[derive(Clone, Debug)]
pub struct StructureDelta {
    pub fact_id: String,
    pub kind: String,
    pub side: Side,
    pub squares: Vec<String>,
}

#[derive(Clone, Debug)]
pub struct SideFileFact {
    pub side: Side,
    pub file: String,
}

#[derive(Clone, Debug)]
pub struct KingShieldFact {
    pub side: Side,
    pub king_square: String,
    pub missing_squares: Vec<String>,
}

#[derive(Clone, Debug)]
pub struct PawnChainFact {
    pub side: Side,
    pub squares: Vec<String>,
}

/// The pawn structure of both sides.
#[derive(Clone, Debug)]
pub struct PawnStructureFacts {
    pub doubled: Vec<DoubledPawnFact>,
    pub isolated: Vec<PieceRef>,
    pub passed: Vec<PieceRef>,
    pub islands: Vec<PawnIslandFact>,
    pub backward: FactCollection<PieceRef>,
    pub connected_passed: FactCollection<PieceRef>,
    pub open_files: FactCollection<String>,
    pub semi_open_files: FactCollection<SideFileFact>,
    pub king_shield_missing: FactCollection<KingShieldFact>,
    pub pawn_chains: FactCollection<PawnChainFact>,
}

/// Sides in the order of their words: black, white.
pub open spec fn color_in_word_order(k: int) -> Color {
    if k == 0 { Color::Black } else { Color::White }
}

pub open spec fn pawn_at(pos: Position, c: Color, s: int) -> bool {
    bit(pos.pieces[c.spec_index()][0], s as u64)
}

/// The squares of `c`'s pawns on file `f` among its first `n` ranks, ascending.
pub open spec fn file_pawns(pos: Position, c: Color, f: int, n: nat) -> Seq<u8>
    decreases n,
{
    if n == 0 {
        Seq::empty()
    } else {
        let prev = file_pawns(pos, c, f, (n - 1) as nat);
        let s = (n - 1) * 8 + f;
        if pawn_at(pos, c, s) { prev.push(s as u8) } else { prev }
    }
}

/// File `f` (0..8) holds a pawn of `c`.
pub open spec fn file_held(pos: Position, c: Color, f: int) -> bool {
    0 <= f < 8 && file_pawns(pos, c, f, 8).len() > 0
}

pub open spec fn file_letter(f: int) -> char {
    (('a' as u32) + f) as char
}

/// `-<name>` for each square, concatenated.
pub open spec fn dashed_names(squares: Seq<u8>) -> Seq<char>
    decreases squares.len(),
{
    if squares.len() == 0 {
        Seq::empty()
    } else {
        dashed_names(squares.drop_last()) + "-"@ + square_name_spec(squares.last())
    }
}

/// The (side, file) pairs with doubled pawns among the first `n`, in id order.
pub open spec fn doubled_files(pos: Position, n: nat) -> Seq<(Color, int)>
    decreases n,
{
    if n == 0 {
        Seq::empty()
    } else {
        let prev = doubled_files(pos, (n - 1) as nat);
        let c = color_in_word_order((n - 1) / 8);
        let f = (n - 1) % 8;
        if file_pawns(pos, c, f, 8).len() > 1 { prev.push((c, f)) } else { prev }
    }
}

pub open spec fn doubled_fact(pos: Position, c: Color, f: int, d: DoubledPawnFact) -> bool {
    let squares = file_pawns(pos, c, f, 8);
    &&& d.id@ == color_word(c) + "-doubled-pawns-"@ + seq![file_letter(f)] + dashed_names(squares)
    &&& d.side == side_spec(c)
    &&& d.file@ == seq![file_letter(f)]
    &&& names_of(d.squares@, squares)
}

/// No pawn of `c` on a file next to the pawn on `s`.
pub open spec fn isolated_pawn(pos: Position, c: Color, s: int) -> bool {
    pawn_at(pos, c, s) && !file_held(pos, c, s % 8 - 1) && !file_held(pos, c, s % 8 + 1)
}

pub open spec fn passed_pawn(pos: Position, c: Color, s: int) -> bool {
    pawn_at(pos, c, s) && is_passed(pos, c, s)
}

/// The pawns among the first `n` (side, square) candidates in id order that
/// satisfy `keep`.
pub open spec fn pawns_where(keep: spec_fn(Color, int) -> bool, n: nat) -> Seq<(Color, u8)>
    decreases n,
{
    if n == 0 {
        Seq::empty()
    } else {
        let prev = pawns_where(keep, (n - 1) as nat);
        let c = color_in_word_order((n - 1) / 64);
        let s = name_order_square((n - 1) % 64);
        if keep(c, s) { prev.push((c, s as u8)) } else { prev }
    }
}

/// `refs` refer to the pawns listed in `pawns`.
pub open spec fn pawn_refs(refs: Seq<PieceRef>, pawns: Seq<(Color, u8)>) -> bool {
    &&& refs.len() == pawns.len()
    &&& forall|i: int| 0 <= i < refs.len() ==> #[trigger] piece_ref_spec(pawns[i].0, Piece::Pawn, pawns[i].1, refs[i])
}

/// The islands of `c` among files below `n`, as (first file, last file), left to right.
pub open spec fn island_runs(pos: Position, c: Color, n: nat) -> Seq<(int, int)>
    decreases n,
{
    if n == 0 {
        Seq::empty()
    } else {
        let prev = island_runs(pos, c, (n - 1) as nat);
        let f = n - 1;
        if !file_held(pos, c, f) {
            prev
        } else if file_held(pos, c, f - 1) && prev.len() > 0 {
            prev.drop_last().push((prev.last().0, f))
        } else {
            prev.push((f, f))
        }
    }
}

/// The letters of files `a..=b`.
pub open spec fn file_letters(a: int, b: int) -> Seq<char>
    decreases b - a + 1,
{
    if b < a { Seq::empty() } else { file_letters(a, b - 1).push(file_letter(b)) }
}

/// The pawns of `c` on files `a..=b`, file by file, each file ascending.
pub open spec fn island_squares(pos: Position, c: Color, a: int, b: int) -> Seq<u8>
    decreases b - a + 1,
{
    if b < a { Seq::empty() } else { island_squares(pos, c, a, b - 1) + file_pawns(pos, c, b, 8) }
}

pub open spec fn island_fact(pos: Position, c: Color, a: int, b: int, f: PawnIslandFact) -> bool {
    &&& f.id@ == color_word(c) + "-pawn-island-"@ + file_letters(a, b)
    &&& f.side == side_spec(c)
    &&& f.files@.len() == b - a + 1
    &&& forall|i: int| 0 <= i < f.files@.len() ==> #[trigger] f.files@[i]@ == seq![file_letter(a + i)]
    &&& names_of(f.squares@, island_squares(pos, c, a, b))
}

/// `facts` are the islands of both sides in id order: Black's, then White's,
/// each left to right.
pub open spec fn islands_follow(pos: Position, facts: Seq<PawnIslandFact>) -> bool {
    let b = island_runs(pos, Color::Black, 8);
    let w = island_runs(pos, Color::White, 8);
    &&& facts.len() == b.len() + w.len()
    &&& forall|i: int| 0 <= i < b.len() ==> #[trigger] island_fact(pos, Color::Black, b[i].0, b[i].1, facts[i])
    &&& forall|i: int| 0 <= i < w.len() ==> #[trigger] island_fact(pos, Color::White, w[i].0, w[i].1, facts[b.len() + i])
}


} // verus!

verus! {

/// The squares of `c`'s pawns on file `f`, ascending.
fn file_pawn_squares(pos: &Position, c: Color, f: u8) -> (v: Vec<u8>)
    requires
        f < 8,
    ensures
        v@ == file_pawns(*pos, c, f as int, 8),
{
    let pawns = pos.pieces[c.index()][0];
    let mut out: Vec<u8> = Vec::new();
    let mut r: u8 = 0;
    while r < 8
        invariant
            r <= 8,
            f < 8,
            pawns == pos.pieces[c.spec_index()][0],
            out@ == file_pawns(*pos, c, f as int, r as nat),
        decreases 8 - r,
    {
        let s = r * 8 + f;
        if pawns & (1u64 << (s as u64)) != 0 {
            out.push(s);
        }
        r = r + 1;
    }
    out
}

/// File `f` holds a pawn of `c` (false off the board).
fn held(pos: &Position, c: Color, f: i32) -> (b: bool)
    ensures
        b == file_held(*pos, c, f as int),
{
    if f < 0 || f >= 8 {
        return false;
    }
    file_pawn_squares(pos, c, f as u8).len() > 0
}

fn color_text(c: Color) -> (s: &'static str)
    ensures
        s@ == color_word(c),
{
    match c {
        Color::White => "white",
        Color::Black => "black",
    }
}

fn letter(f: u8) -> (c: char)
    requires
        f < 8,
    ensures
        c == file_letter(f as int),
{
    (97u8 + f) as char
}

/// `s` followed by `-<name>` for each of `squares`.
fn append_dashed_names(s: &mut String, squares: &Vec<u8>)
    requires
        forall|i: int| 0 <= i < squares@.len() ==> squares@[i] < 64,
    ensures
        final(s)@ == old(s)@ + dashed_names(squares@),
{
    let ghost start = s@;
    let mut i: usize = 0;
    assert(squares@.take(0) =~= Seq::<u8>::empty());
    assert(start + dashed_names(Seq::<u8>::empty()) =~= start);
    while i < squares.len()
        invariant
            i <= squares@.len(),
            s@ == start + dashed_names(squares@.take(i as int)),
        decreases squares@.len() - i,
    {
        assert(squares@.take(i as int + 1).drop_last() =~= squares@.take(i as int));
        push_char(s, '-');
        let name = square_name(squares[i]);
        s.append(name.as_str());
        proof {
            reveal_strlit("-");
            assert(s@ =~= start + dashed_names(squares@.take(i as int + 1)));
        }
        i = i + 1;
    }
    assert(squares@.take(squares@.len() as int) =~= squares@);
}

fn doubled_fact_of(pos: &Position, c: Color, f: u8, squares: Vec<u8>) -> (d: DoubledPawnFact)
    requires
        f < 8,
        squares@ == file_pawns(*pos, c, f as int, 8),
    ensures
        doubled_fact(*pos, c, f as int, d),
{
    proof {
        lemma_file_pawns_on_board(*pos, c, f as int, 8);
    }
    let mut id = String::from_str(color_text(c));
    id.append("-doubled-pawns-");
    push_char(&mut id, letter(f));
    let ghost head = id@;
    assert(head =~= color_word(c) + "-doubled-pawns-"@ + seq![file_letter(f as int)]);
    append_dashed_names(&mut id, &squares);
    assert(id@ =~= color_word(c) + "-doubled-pawns-"@ + seq![file_letter(f as int)] + dashed_names(squares@));
    let mut file = String::new();
    push_char(&mut file, letter(f));
    let mut names: Vec<String> = Vec::new();
    let mut i: usize = 0;
    while i < squares.len()
        invariant
            i <= squares@.len(),
            forall|j: int| 0 <= j < squares@.len() ==> squares@[j] < 64,
            names@.len() == i,
            forall|j: int| 0 <= j < i ==> #[trigger] names@[j]@ == square_name_spec(squares@[j]),
        decreases squares@.len() - i,
    {
        names.push(square_name(squares[i]));
        i = i + 1;
    }
    proof {
        reveal_strlit("-doubled-pawns-");
        assert(file@ =~= seq![file_letter(f as int)]);
    }
    DoubledPawnFact { id, side: side(c), file, squares: names }
}

/// The squares of a file's pawns are board squares.
proof fn lemma_file_pawns_on_board(pos: Position, c: Color, f: int, n: nat)
    requires
        0 <= f < 8,
        n <= 8,
    ensures
        forall|i: int| 0 <= i < file_pawns(pos, c, f, n).len() ==> #[trigger] file_pawns(pos, c, f, n)[i] < 64
            && file_pawns(pos, c, f, n)[i] % 8 == f,
    decreases n,
{
    if n > 0 {
        lemma_file_pawns_on_board(pos, c, f, (n - 1) as nat);
        let s = (n - 1) * 8 + f;
        assert(s < 64 && s % 8 == f) by (nonlinear_arith)
            requires
                0 <= f < 8,
                1 <= n <= 8,
                s == (n - 1) * 8 + f,
        ;
        assert((s as u8) as int == s);
        let prev = file_pawns(pos, c, f, (n - 1) as nat);
        assert forall|i: int| 0 <= i < file_pawns(pos, c, f, n).len() implies #[trigger] file_pawns(pos, c, f, n)[i] < 64
            && file_pawns(pos, c, f, n)[i] % 8 == f by {
            if i < prev.len() {
                assert(file_pawns(pos, c, f, n)[i] == prev[i]);
            }
        }
    }
}

/// The doubled pawns of both sides, in id order.
fn doubled_pawns(pos: &Position) -> (facts: Vec<DoubledPawnFact>)
    ensures
        facts@.len() == doubled_files(*pos, 16).len(),
        forall|i: int| 0 <= i < facts@.len() ==> #[trigger] doubled_fact(*pos, doubled_files(*pos, 16)[i].0, doubled_files(*pos, 16)[i].1, facts@[i]),
{
    let mut out: Vec<DoubledPawnFact> = Vec::new();
    let mut k: u8 = 0;
    while k < 16
        invariant
            k <= 16,
            out@.len() == doubled_files(*pos, k as nat).len(),
            forall|i: int| 0 <= i < out@.len() ==> #[trigger] doubled_fact(*pos, doubled_files(*pos, k as nat)[i].0, doubled_files(*pos, k as nat)[i].1, out@[i]),
        decreases 16 - k,
    {
        let c = if k / 8 == 0 { Color::Black } else { Color::White };
        let f = k % 8;
        let squares = file_pawn_squares(pos, c, f);
        let ghost before = out@;
        if squares.len() > 1 {
            let d = doubled_fact_of(pos, c, f, squares);
            out.push(d);
            assert forall|i: int| 0 <= i < out@.len() implies #[trigger] doubled_fact(*pos, doubled_files(*pos, (k + 1) as nat)[i].0, doubled_files(*pos, (k + 1) as nat)[i].1, out@[i]) by {
                if i < before.len() {
                    assert(out@[i] == before[i]);
                }
            }
        }
        k = k + 1;
    }
    assert(k == 16);
    assert(out@.len() == doubled_files(*pos, 16).len());
    out
}

/// The isolated (`isolated` true) or passed pawns of both sides, in id order.
fn pawn_list(pos: &Position, isolated: bool) -> (refs: Vec<PieceRef>)
    ensures
        isolated ==> pawn_refs(refs@, pawns_where(|c: Color, s: int| isolated_pawn(*pos, c, s), 128)),
        !isolated ==> pawn_refs(refs@, pawns_where(|c: Color, s: int| passed_pawn(*pos, c, s), 128)),
{
    let ghost keep = if isolated {
        |c: Color, s: int| isolated_pawn(*pos, c, s)
    } else {
        |c: Color, s: int| passed_pawn(*pos, c, s)
    };
    let mut out: Vec<PieceRef> = Vec::new();
    let mut k: u32 = 0;
    while k < 128
        invariant
            k <= 128,
            keep == (if isolated {
                |c: Color, s: int| isolated_pawn(*pos, c, s)
            } else {
                |c: Color, s: int| passed_pawn(*pos, c, s)
            }),
            pawn_refs(out@, pawns_where(keep, k as nat)),
        decreases 128 - k,
    {
        let c = if k / 64 == 0 { Color::Black } else { Color::White };
        let s = square_in_name_order(k % 64);
        let f = (s % 8) as i32;
        let ghost before = out@;
        let here = pos.pieces[c.index()][0] & (1u64 << (s as u64)) != 0;
        let wanted = if !here {
            false
        } else if isolated {
            !held(pos, c, f - 1) && !held(pos, c, f + 1)
        } else {
            crate::facts::promotion_pressure::passed_pawn_exec(pos, c, s)
        };
        assert(wanted == keep(c, s as int));
        if wanted {
            out.push(piece_ref(c, Piece::Pawn, s));
            assert forall|i: int| 0 <= i < out@.len() implies #[trigger] piece_ref_spec(
                pawns_where(keep, (k + 1) as nat)[i].0,
                Piece::Pawn,
                pawns_where(keep, (k + 1) as nat)[i].1,
                out@[i],
            ) by {
                if i < before.len() {
                    assert(out@[i] == before[i]);
                }
            }
        }
        k = k + 1;
    }
    assert(k == 128);
    if isolated {
        assert(pawn_refs(out@, pawns_where(|c: Color, s: int| isolated_pawn(*pos, c, s), 128)));
    }
    out
}

} // verus!

verus! {

/// Runs are ordered files on the board.
proof fn lemma_runs_on_board(pos: Position, c: Color, n: nat)
    requires
        n <= 8,
    ensures
        forall|i: int| 0 <= i < island_runs(pos, c, n).len() ==> 0 <= #[trigger] island_runs(pos, c, n)[i].0 <= island_runs(
            pos,
            c,
            n,
        )[i].1 < n,
    decreases n,
{
    if n > 0 {
        lemma_runs_on_board(pos, c, (n - 1) as nat);
        let prev = island_runs(pos, c, (n - 1) as nat);
        let cur = island_runs(pos, c, n);
        assert forall|i: int| 0 <= i < cur.len() implies 0 <= #[trigger] cur[i].0 <= cur[i].1 < n by {
            if i < prev.len() - 1 {
                assert(cur[i] == prev[i]);
            } else if i == prev.len() - 1 && i < cur.len() - 1 {
                assert(cur[i] == prev[i]);
            } else if i == prev.len() - 1 {
                assert(cur[i] == prev[i] || cur[i] == (prev.last().0, n - 1));
            }
        }
    }
}

/// The islands of `c` as (first file, last file), left to right.
fn runs_of(pos: &Position, c: Color) -> (runs: Vec<(u8, u8)>)
    ensures
        runs@.len() == island_runs(*pos, c, 8).len(),
        forall|i: int| 0 <= i < runs@.len() ==> (#[trigger] runs@[i]).0 as int == island_runs(*pos, c, 8)[i].0 && runs@[i].1 as int
            == island_runs(*pos, c, 8)[i].1,
{
    let mut runs: Vec<(u8, u8)> = Vec::new();
    let mut f: u8 = 0;
    while f < 8
        invariant
            f <= 8,
            runs@.len() == island_runs(*pos, c, f as nat).len(),
            forall|i: int| 0 <= i < runs@.len() ==> (#[trigger] runs@[i]).0 as int == island_runs(*pos, c, f as nat)[i].0
                && runs@[i].1 as int == island_runs(*pos, c, f as nat)[i].1,
        decreases 8 - f,
    {
        let ghost before = runs@;
        let ghost prev = island_runs(*pos, c, f as nat);
        proof {
            lemma_runs_on_board(*pos, c, f as nat);
        }
        if held(pos, c, f as i32) {
            if held(pos, c, f as i32 - 1) && runs.len() > 0 {
                let last = runs.pop().unwrap();
                runs.push((last.0, f));
                assert forall|i: int| 0 <= i < runs@.len() implies (#[trigger] runs@[i]).0 as int == island_runs(
                    *pos,
                    c,
                    (f + 1) as nat,
                )[i].0 && runs@[i].1 as int == island_runs(*pos, c, (f + 1) as nat)[i].1 by {
                    if i < runs@.len() - 1 {
                        assert(runs@[i] == before[i]);
                    }
                }
            } else {
                runs.push((f, f));
                assert forall|i: int| 0 <= i < runs@.len() implies (#[trigger] runs@[i]).0 as int == island_runs(
                    *pos,
                    c,
                    (f + 1) as nat,
                )[i].0 && runs@[i].1 as int == island_runs(*pos, c, (f + 1) as nat)[i].1 by {
                    if i < runs@.len() - 1 {
                        assert(runs@[i] == before[i]);
                    }
                }
            }
        }
        f = f + 1;
    }
    runs
}

fn island_fact_of(pos: &Position, c: Color, a: u8, b: u8) -> (fact: PawnIslandFact)
    requires
        a <= b < 8,
    ensures
        island_fact(*pos, c, a as int, b as int, fact),
{
    let mut id = String::from_str(color_text(c));
    id.append("-pawn-island-");
    let ghost head = id@;
    let mut files: Vec<String> = Vec::new();
    let mut names: Vec<String> = Vec::new();
    let mut g: u8 = a;
    assert(head + file_letters(a as int, a as int - 1) =~= head);
    while g <= b
        invariant
            a <= g <= b + 1,
            b < 8,
            id@ == head + file_letters(a as int, g as int - 1),
            files@.len() == g - a,
            forall|i: int| 0 <= i < files@.len() ==> #[trigger] files@[i]@ == seq![file_letter(a + i)],
            names_of(names@, island_squares(*pos, c, a as int, g as int - 1)),
        decreases b + 1 - g,
    {
        push_char(&mut id, letter(g));
        let mut one = String::new();
        push_char(&mut one, letter(g));
        assert(one@ =~= seq![file_letter(g as int)]);
        files.push(one);
        let squares = file_pawn_squares(pos, c, g);
        proof {
            lemma_file_pawns_on_board(*pos, c, g as int, 8);
        }
        let ghost before = names@;
        let mut i: usize = 0;
        while i < squares.len()
            invariant
                i <= squares@.len(),
                squares@ == file_pawns(*pos, c, g as int, 8),
                forall|j: int| 0 <= j < squares@.len() ==> squares@[j] < 64,
                names@.len() == before.len() + i,
                forall|j: int| 0 <= j < before.len() ==> #[trigger] names@[j] == before[j],
                forall|j: int| 0 <= j < i ==> #[trigger] names@[before.len() + j]@ == square_name_spec(squares@[j]),
            decreases squares@.len() - i,
        {
            names.push(square_name(squares[i]));
            i = i + 1;
        }
        proof {
            let want = island_squares(*pos, c, a as int, g as int);
            assert(want == island_squares(*pos, c, a as int, g as int - 1) + squares@);
            assert forall|j: int| 0 <= j < names@.len() implies #[trigger] names@[j]@ == square_name_spec(want[j]) by {
                if j < before.len() {
                    assert(names@[j] == before[j]);
                } else {
                    assert(names@[before.len() + (j - before.len())]@ == square_name_spec(squares@[j - before.len()]));
                }
            }
        }
        g = g + 1;
    }
    proof {
        reveal_strlit("-pawn-island-");
    }
    PawnIslandFact { id, side: side(c), files, squares: names }
}

/// The islands of both sides in id order.
fn islands(pos: &Position) -> (facts: Vec<PawnIslandFact>)
    ensures
        islands_follow(*pos, facts@),
{
    let black = runs_of(pos, Color::Black);
    let white = runs_of(pos, Color::White);
    proof {
        lemma_runs_on_board(*pos, Color::Black, 8);
        lemma_runs_on_board(*pos, Color::White, 8);
    }
    let ghost b = island_runs(*pos, Color::Black, 8);
    let ghost w = island_runs(*pos, Color::White, 8);
    let mut out: Vec<PawnIslandFact> = Vec::new();
    let mut i: usize = 0;
    while i < black.len()
        invariant
            i <= black@.len(),
            black@.len() == b.len(),
            b == island_runs(*pos, Color::Black, 8),
            forall|j: int| 0 <= j < black@.len() ==> (#[trigger] black@[j]).0 as int == b[j].0 && black@[j].1 as int == b[j].1,
            forall|j: int| 0 <= j < b.len() ==> 0 <= #[trigger] b[j].0 <= b[j].1 < 8,
            out@.len() == i,
            forall|j: int| 0 <= j < i ==> #[trigger] island_fact(*pos, Color::Black, b[j].0, b[j].1, out@[j]),
        decreases black@.len() - i,
    {
        let r = black[i];
        assert(b[i as int].0 == r.0 && b[i as int].1 == r.1);
        let f = island_fact_of(pos, Color::Black, r.0, r.1);
        out.push(f);
        i = i + 1;
    }
    let mut k: usize = 0;
    while k < white.len()
        invariant
            k <= white@.len(),
            white@.len() == w.len(),
            w == island_runs(*pos, Color::White, 8),
            b == island_runs(*pos, Color::Black, 8),
            forall|j: int| 0 <= j < white@.len() ==> (#[trigger] white@[j]).0 as int == w[j].0 && white@[j].1 as int == w[j].1,
            forall|j: int| 0 <= j < w.len() ==> 0 <= #[trigger] w[j].0 <= w[j].1 < 8,
            out@.len() == b.len() + k,
            forall|j: int| 0 <= j < b.len() ==> #[trigger] island_fact(*pos, Color::Black, b[j].0, b[j].1, out@[j]),
            forall|j: int| 0 <= j < k ==> #[trigger] island_fact(*pos, Color::White, w[j].0, w[j].1, out@[b.len() + j]),
        decreases white@.len() - k,
    {
        let r = white[k];
        assert(w[k as int].0 == r.0 && w[k as int].1 == r.1);
        let f = island_fact_of(pos, Color::White, r.0, r.1);
        let ghost before = out@;
        out.push(f);
        assert forall|j: int| 0 <= j < b.len() implies #[trigger] island_fact(*pos, Color::Black, b[j].0, b[j].1, out@[j]) by {
            assert(out@[j] == before[j]);
        }
        assert forall|j: int| 0 <= j < k + 1 implies #[trigger] island_fact(*pos, Color::White, w[j].0, w[j].1, out@[b.len() + j]) by {
            if j < k {
                assert(out@[b.len() + j] == before[b.len() + j]);
            }
        }
        k = k + 1;
    }
    out
}

/// The structure of both sides' pawns.
pub open spec fn structure_ok(pos: Position, s: PawnStructureFacts) -> bool {
    &&& s.doubled@.len() == doubled_files(pos, 16).len()
    &&& forall|i: int| 0 <= i < s.doubled@.len() ==> #[trigger] doubled_fact(pos, doubled_files(pos, 16)[i].0, doubled_files(pos, 16)[i].1, s.doubled@[i])
    &&& pawn_refs(s.isolated@, pawns_where(|c: Color, t: int| isolated_pawn(pos, c, t), 128))
    &&& pawn_refs(s.passed@, pawns_where(|c: Color, t: int| passed_pawn(pos, c, t), 128))
    &&& islands_follow(pos, s.islands@)
    &&& uncomputed_because(s.backward, "not_in_milestone_1"@)
    &&& uncomputed_because(s.connected_passed, "not_in_milestone_1"@)
    &&& uncomputed_because(s.open_files, "not_in_milestone_1"@)
    &&& uncomputed_because(s.semi_open_files, "not_in_milestone_1"@)
    &&& uncomputed_because(s.king_shield_missing, "not_in_milestone_1"@)
    &&& uncomputed_because(s.pawn_chains, "not_in_milestone_1"@)
}

/// Doubled pawns (per side and file, with the squares on the file), isolated
/// pawns (no own pawn on a neighbouring file), passed pawns (no enemy pawn
/// ahead on the same or a neighbouring file) and pawn islands, each in id
/// order; the remaining structure facts are not computed.
pub fn pawn_structure_facts(pos: &Position) -> (s: PawnStructureFacts)
    ensures
        structure_ok(*pos, s),
{
    let reason = "not_in_milestone_1";
    PawnStructureFacts {
        doubled: doubled_pawns(pos),
        isolated: pawn_list(pos, true),
        passed: pawn_list(pos, false),
        islands: islands(pos),
        backward: FactCollection::uncomputed(reason),
        connected_passed: FactCollection::uncomputed(reason),
        open_files: FactCollection::uncomputed(reason),
        semi_open_files: FactCollection::uncomputed(reason),
        king_shield_missing: FactCollection::uncomputed(reason),
        pawn_chains: FactCollection::uncomputed(reason),
    }
}

} // verus!
