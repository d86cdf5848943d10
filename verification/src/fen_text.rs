//! FEN writing: the text of a position in Forsyth-Edwards Notation.
use vstd::prelude::*;
use crate::facts::position::square_name_spec;
use crate::position::{spec_piece_at, Position};
use crate::text::{decimal, digit_char, push_char, push_decimal};
use crate::{Color, Piece};

verus! {

/// The board letter of a piece: upper case for White, lower case for Black.
pub open spec fn piece_letter(c: Color, p: Piece) -> char {
    let upper = match p {
        Piece::Pawn => 'P',
        Piece::Knight => 'N',
        Piece::Bishop => 'B',
        Piece::Rook => 'R',
        Piece::Queen => 'Q',
        Piece::King => 'K',
    };
    if c == Color::White { upper } else { ((upper as u32) + 32) as char }
}

/// A count of empty squares, written only when there are some.
pub open spec fn run_text(n: int) -> Seq<char> {
    if n > 0 { seq![digit_char(n)] } else { Seq::empty() }
}

/// The text of rank `r` from file `f` on, with `run` empty squares pending.
pub open spec fn rank_text(pos: Position, r: int, f: int, run: int) -> Seq<char>
    decreases 8 - f,
{
    if f >= 8 {
        run_text(run)
    } else {
        match spec_piece_at(pos, (r * 8 + f) as u64) {
            None => rank_text(pos, r, f + 1, run + 1),
            Some((c, p)) => run_text(run) + seq![piece_letter(c, p)] + rank_text(pos, r, f + 1, 0),
        }
    }
}

/// The ranks from the eighth down to the `(9 - n)`th, separated by slashes.
pub open spec fn board_text(pos: Position, n: nat) -> Seq<char>
    decreases n,
{
    if n == 0 {
        Seq::empty()
    } else if n == 1 {
        rank_text(pos, 7, 0, 0)
    } else {
        board_text(pos, (n - 1) as nat) + seq!['/'] + rank_text(pos, 8 - n, 0, 0)
    }
}

/// The castling field: the rights as KQkq letters, or `-` without any.
pub open spec fn castling_text(c: u8) -> Seq<char> {
    if c & 15 == 0 {
        seq!['-']
    } else {
        (if c & 1 != 0 { seq!['K'] } else { Seq::empty() }) + (if c & 2 != 0 { seq!['Q'] } else { Seq::empty() }) + (if c & 4
            != 0 {
            seq!['k']
        } else {
            Seq::empty()
        }) + (if c & 8 != 0 { seq!['q'] } else { Seq::empty() })
    }
}

/// The FEN text of `pos`.
pub open spec fn fen_text(pos: Position) -> Seq<char> {
    board_text(pos, 8) + seq![' ', if pos.stm == Color::White { 'w' } else { 'b' }, ' '] + castling_text(pos.castling) + seq![' ']
        + (match pos.ep {
        Some(s) => square_name_spec(s),
        None => seq!['-'],
    }) + seq![' '] + decimal(pos.halfmove as nat) + seq![' '] + decimal(pos.fullmove as nat)
}

fn letter_of(c: Color, p: Piece) -> (ch: char)
    ensures
        ch == piece_letter(c, p),
{
    match (c, p) {
        (Color::White, Piece::Pawn) => 'P',
        (Color::White, Piece::Knight) => 'N',
        (Color::White, Piece::Bishop) => 'B',
        (Color::White, Piece::Rook) => 'R',
        (Color::White, Piece::Queen) => 'Q',
        (Color::White, Piece::King) => 'K',
        (Color::Black, Piece::Pawn) => 'p',
        (Color::Black, Piece::Knight) => 'n',
        (Color::Black, Piece::Bishop) => 'b',
        (Color::Black, Piece::Rook) => 'r',
        (Color::Black, Piece::Queen) => 'q',
        (Color::Black, Piece::King) => 'k',
    }
}

fn push_run(s: &mut String, n: u8)
    requires
        n <= 8,
    ensures
        final(s)@ == old(s)@ + run_text(n as int),
{
    if n > 0 {
        let d = (48u8 + n) as char;
        push_char(s, d);
        assert(final(s)@ =~= old(s)@ + run_text(n as int));
    } else {
        assert(old(s)@ + run_text(0) =~= old(s)@);
    }
}

/// Appends the text of rank `r`.
fn push_rank(s: &mut String, pos: &Position, r: u8)
    requires
        pos.board_wf(),
        r < 8,
    ensures
        final(s)@ == old(s)@ + rank_text(*pos, r as int, 0, 0),
{
    let ghost start = old(s)@;
    let mut run: u8 = 0;
    let mut f: u8 = 0;
    while f < 8
        invariant
            f <= 8,
            run <= f,
            r < 8,
            pos.board_wf(),
            s@ + rank_text(*pos, r as int, f as int, run as int) == start + rank_text(*pos, r as int, 0, 0),
        decreases 8 - f,
    {
        let ghost before = s@;
        match pos.piece_at(r * 8 + f) {
            None => {
                run = run + 1;
            },
            Some((c, p)) => {
                push_run(s, run);
                push_char(s, letter_of(c, p));
                assert(before + rank_text(*pos, r as int, f as int, run as int) =~= s@ + rank_text(*pos, r as int, f as int + 1, 0));
                run = 0;
            },
        }
        f = f + 1;
    }
    let ghost before = s@;
    push_run(s, run);
    assert(before + rank_text(*pos, r as int, 8, run as int) =~= s@);
}

fn push_castling(s: &mut String, c: u8)
    ensures
        final(s)@ == old(s)@ + castling_text(c),
{
    if c & 15 == 0 {
        push_char(s, '-');
        assert(final(s)@ =~= old(s)@ + castling_text(c));
        return;
    }
    let ghost start = s@;
    if c & 1 != 0 {
        push_char(s, 'K');
    }
    let ghost s1 = s@;
    if c & 2 != 0 {
        push_char(s, 'Q');
    }
    let ghost s2 = s@;
    if c & 4 != 0 {
        push_char(s, 'k');
    }
    let ghost s3 = s@;
    if c & 8 != 0 {
        push_char(s, 'q');
    }
    assert(s1 =~= start + (if c & 1 != 0 { seq!['K'] } else { Seq::empty() }));
    assert(s2 =~= s1 + (if c & 2 != 0 { seq!['Q'] } else { Seq::empty() }));
    assert(s3 =~= s2 + (if c & 4 != 0 { seq!['k'] } else { Seq::empty() }));
    assert(s@ =~= s3 + (if c & 8 != 0 { seq!['q'] } else { Seq::empty() }));
    assert(s@ =~= start + castling_text(c));
}

impl Position {
    /// The position in Forsyth-Edwards Notation.
    pub fn to_fen(&self) -> (fen: String)
        requires
            self.board_wf(),
        ensures
            fen@ == fen_text(*self),
    {
        let mut s = String::new();
        let mut k: u8 = 0;
        while k < 8
            invariant
                k <= 8,
                self.board_wf(),
                s@ == board_text(*self, k as nat),
            decreases 8 - k,
        {
            if k > 0 {
                push_char(&mut s, '/');
            }
            let ghost before = s@;
            push_rank(&mut s, self, 7 - k);
            assert(s@ =~= board_text(*self, (k + 1) as nat));
            k = k + 1;
        }
        let ghost b = s@;
        push_char(&mut s, ' ');
        push_char(&mut s, if self.stm == Color::White { 'w' } else { 'b' });
        push_char(&mut s, ' ');
        let ghost h = s@;
        push_castling(&mut s, self.castling);
        push_char(&mut s, ' ');
        let ghost e0 = s@;
        match self.ep {
            Some(sq) => {
                let name = crate::facts::position::square_name(sq);
                s.append(name.as_str());
            },
            None => {
                push_char(&mut s, '-');
            },
        }
        let ghost e1 = s@;
        push_char(&mut s, ' ');
        push_decimal(&mut s, self.halfmove as u32);
        push_char(&mut s, ' ');
        push_decimal(&mut s, self.fullmove as u32);
        assert(h =~= b + seq![' ', if self.stm == Color::White { 'w' } else { 'b' }, ' ']);
        assert(e1 =~= e0 + (match self.ep {
            Some(sq) => square_name_spec(sq),
            None => seq!['-'],
        }));
        assert(s@ =~= fen_text(*self));
        s
    }
}

} // verus!
