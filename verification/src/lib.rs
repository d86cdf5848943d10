//! Bitboard chess core: board representation, attack generation, legal move
//! generation, make/unmake, perft, static exchange evaluation and the
//! transposition-table encoding, with their contracts.
//!
//! Board convention: Little-Endian Rank-File (LERF). Square index
//! `s = rank*8 + file`, so a1=0, b1=1, ..., h1=7, a2=8, ..., h8=63. Bit `s` of a
//! `u64` bitboard is that square.
use vstd::prelude::*;

pub mod attacks;
pub mod bits;
pub mod book;
pub mod castle;
pub mod eval;
pub mod facts;
pub mod fen;
pub mod fen_text;
pub mod movegen;
pub mod order;
pub mod perft;
pub mod position;
pub mod search;
pub mod tablebase;
pub mod see;
pub mod text;
pub mod tt;
pub mod zobrist;

pub use position::Position;

verus! {

/// Side to move / piece color.
#[derive(Clone, Copy, PartialEq, Eq, Debug, Structural)]
pub enum Color {
    White,
    Black,
}

impl Color {
    pub open spec fn spec_flip(self) -> Color {
        match self {
            Color::White => Color::Black,
            Color::Black => Color::White,
        }
    }

    pub open spec fn spec_index(self) -> int {
        match self {
            Color::White => 0,
            Color::Black => 1,
        }
    }

    pub fn flip(self) -> (c: Color)
        ensures
            c == self.spec_flip(),
    {
        match self {
            Color::White => Color::Black,
            Color::Black => Color::White,
        }
    }

    pub fn index(self) -> (i: usize)
        ensures
            i == self.spec_index(),
            i < 2,
    {
        match self {
            Color::White => 0,
            Color::Black => 1,
        }
    }
}

/// Piece type (color-agnostic).
#[derive(Clone, Copy, PartialEq, Eq, Debug, Structural)]
pub enum Piece {
    Pawn,
    Knight,
    Bishop,
    Rook,
    Queen,
    King,
}

/// The piece type stored at index `i` (0..6) of a side's bitboard array.
pub open spec fn piece_of_index(i: int) -> Piece {
    if i == 0 {
        Piece::Pawn
    } else if i == 1 {
        Piece::Knight
    } else if i == 2 {
        Piece::Bishop
    } else if i == 3 {
        Piece::Rook
    } else if i == 4 {
        Piece::Queen
    } else {
        Piece::King
    }
}

/// The color stored at index `i` (0..2) of the per-color arrays.
pub open spec fn color_of_index(i: int) -> Color {
    if i == 0 {
        Color::White
    } else {
        Color::Black
    }
}

impl Piece {
    pub open spec fn spec_index(self) -> int {
        match self {
            Piece::Pawn => 0,
            Piece::Knight => 1,
            Piece::Bishop => 2,
            Piece::Rook => 3,
            Piece::Queen => 4,
            Piece::King => 5,
        }
    }

    pub fn index(self) -> (i: usize)
        ensures
            i == self.spec_index(),
            i < 6,
            piece_of_index(i as int) == self,
    {
        match self {
            Piece::Pawn => 0,
            Piece::Knight => 1,
            Piece::Bishop => 2,
            Piece::Rook => 3,
            Piece::Queen => 4,
            Piece::King => 5,
        }
    }
}

/// All piece types in index order.
pub fn all_pieces() -> (a: [Piece; 6])
    ensures
        forall|i: int| 0 <= i < 6 ==> #[trigger] a[i] == piece_of_index(i),
{
    [Piece::Pawn, Piece::Knight, Piece::Bishop, Piece::Rook, Piece::Queen, Piece::King]
}

/// What kind of move this is — drives make/unmake.
#[derive(Clone, Copy, PartialEq, Eq, Debug, Structural)]
pub enum MoveFlag {
    Quiet,
    DoublePush,
    KingCastle,
    QueenCastle,
    Capture,
    EnPassant,
    PromoN,
    PromoB,
    PromoR,
    PromoQ,
    PromoNCap,
    PromoBCap,
    PromoRCap,
    PromoQCap,
}

impl MoveFlag {
    pub open spec fn spec_is_capture(self) -> bool {
        match self {
            MoveFlag::Capture | MoveFlag::EnPassant | MoveFlag::PromoNCap | MoveFlag::PromoBCap
            | MoveFlag::PromoRCap | MoveFlag::PromoQCap => true,
            _ => false,
        }
    }

    pub open spec fn spec_promo_piece(self) -> Option<Piece> {
        match self {
            MoveFlag::PromoN | MoveFlag::PromoNCap => Some(Piece::Knight),
            MoveFlag::PromoB | MoveFlag::PromoBCap => Some(Piece::Bishop),
            MoveFlag::PromoR | MoveFlag::PromoRCap => Some(Piece::Rook),
            MoveFlag::PromoQ | MoveFlag::PromoQCap => Some(Piece::Queen),
            _ => None,
        }
    }

    pub fn is_capture(self) -> (b: bool)
        ensures
            b == self.spec_is_capture(),
    {
        match self {
            MoveFlag::Capture | MoveFlag::EnPassant | MoveFlag::PromoNCap | MoveFlag::PromoBCap
            | MoveFlag::PromoRCap | MoveFlag::PromoQCap => true,
            _ => false,
        }
    }

    /// The piece a pawn promotes to, if this is a promotion flag.
    pub fn promo_piece(self) -> (p: Option<Piece>)
        ensures
            p == self.spec_promo_piece(),
    {
        match self {
            MoveFlag::PromoN | MoveFlag::PromoNCap => Some(Piece::Knight),
            MoveFlag::PromoB | MoveFlag::PromoBCap => Some(Piece::Bishop),
            MoveFlag::PromoR | MoveFlag::PromoRCap => Some(Piece::Rook),
            MoveFlag::PromoQ | MoveFlag::PromoQCap => Some(Piece::Queen),
            _ => None,
        }
    }
}

/// A move: from-square, to-square, and a flag describing its kind.
#[derive(Clone, Copy, PartialEq, Eq, Debug, Structural)]
pub struct Move {
    pub from: u8,
    pub to: u8,
    pub flag: MoveFlag,
}

/// The file letter of a square (a..h).
pub open spec fn file_char(sq: u8) -> char {
    ((97 + sq % 8) as u8) as char
}

/// The rank digit of a square (1..8).
pub open spec fn rank_char(sq: u8) -> char {
    ((49 + sq / 8) as u8) as char
}

/// Long-algebraic (UCI) text of a move: from-square, to-square, promotion letter.
pub open spec fn uci_text(m: Move) -> Seq<char> {
    seq![file_char(m.from), rank_char(m.from), file_char(m.to), rank_char(m.to)] + match m.flag.spec_promo_piece() {
        Some(Piece::Knight) => seq!['n'],
        Some(Piece::Bishop) => seq!['b'],
        Some(Piece::Rook) => seq!['r'],
        Some(Piece::Queen) => seq!['q'],
        _ => Seq::<char>::empty(),
    }
}

fn file_str(f: u8) -> (s: &'static str)
    requires
        f < 8,
    ensures
        s@ == seq![((97 + f) as u8) as char],
{
    proof {
        reveal_strlit("a");
        reveal_strlit("b");
        reveal_strlit("c");
        reveal_strlit("d");
        reveal_strlit("e");
        reveal_strlit("f");
        reveal_strlit("g");
        reveal_strlit("h");
    }
    if f == 0 {
        "a"
    } else if f == 1 {
        "b"
    } else if f == 2 {
        "c"
    } else if f == 3 {
        "d"
    } else if f == 4 {
        "e"
    } else if f == 5 {
        "f"
    } else if f == 6 {
        "g"
    } else {
        "h"
    }
}

fn rank_str(r: u8) -> (s: &'static str)
    requires
        r < 8,
    ensures
        s@ == seq![((49 + r) as u8) as char],
{
    proof {
        reveal_strlit("1");
        reveal_strlit("2");
        reveal_strlit("3");
        reveal_strlit("4");
        reveal_strlit("5");
        reveal_strlit("6");
        reveal_strlit("7");
        reveal_strlit("8");
    }
    if r == 0 {
        "1"
    } else if r == 1 {
        "2"
    } else if r == 2 {
        "3"
    } else if r == 3 {
        "4"
    } else if r == 4 {
        "5"
    } else if r == 5 {
        "6"
    } else if r == 6 {
        "7"
    } else {
        "8"
    }
}

/// Algebraic name of a square, e.g. "e4".
pub fn square_text(sq: u8) -> (s: String)
    requires
        sq < 64,
    ensures
        s@ == seq![file_char(sq), rank_char(sq)],
{
    let mut s = String::from_str(file_str(sq % 8));
    s.append(rank_str(sq / 8));
    s
}

impl Move {
    pub fn new(from: u8, to: u8, flag: MoveFlag) -> (m: Move)
        ensures
            m == (Move { from, to, flag }),
    {
        Move { from, to, flag }
    }

    /// Long-algebraic (UCI) string, e.g. "e2e4", "e7e8q".
    pub fn to_uci(self) -> (s: String)
        requires
            self.from < 64,
            self.to < 64,
        ensures
            s@ == uci_text(self),
    {
        let mut s = square_text(self.from);
        let t = square_text(self.to);
        s.append(t.as_str());
        proof {
            reveal_strlit("n");
            reveal_strlit("b");
            reveal_strlit("r");
            reveal_strlit("q");
            reveal_strlit("");
        }
        let promo = match self.flag.promo_piece() {
            Some(Piece::Knight) => "n",
            Some(Piece::Bishop) => "b",
            Some(Piece::Rook) => "r",
            Some(Piece::Queen) => "q",
            _ => "",
        };
        s.append(promo);
        proof {
            assert(s@ =~= uci_text(self));
        }
        s
    }
}

/// Rank (0..8) of a LERF square index.
pub fn rank_of(sq: u8) -> (r: u8)
    ensures
        r == sq / 8,
{
    proof {
        assert(sq >> 3 == sq / 8) by (bit_vector);
    }
    sq >> 3
}

/// File (0..8) of a LERF square index.
pub fn file_of(sq: u8) -> (f: u8)
    ensures
        f == sq % 8,
{
    proof {
        assert(sq & 7 == sq % 8) by (bit_vector);
    }
    sq & 7
}

/// LERF square index of a file and rank.
pub fn square(file: u8, rank: u8) -> (s: u8)
    requires
        rank * 8 + file <= u8::MAX,
    ensures
        s == rank * 8 + file,
{
    rank * 8 + file
}

} // verus!
