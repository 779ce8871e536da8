//! Squares, pieces, sides and moves.
use vstd::prelude::*;

verus! {

/// The sixteen squares, in bit order: rank 4 first, file a first.
#[allow(non_camel_case_types)]
#[derive(Debug, Clone, Copy, PartialEq, Eq, Structural, PartialOrd, Hash)]
pub enum Square {
    a4,
    b4,
    c4,
    d4,
    a3,
    b3,
    c3,
    d3,
    a2,
    b2,
    c2,
    d2,
    a1,
    b1,
    c1,
    d1,
}

impl Square {
    /// Bit index of the square.
    pub open spec fn idx(self) -> int {
        match self {
            Square::a4 => 0,
            Square::b4 => 1,
            Square::c4 => 2,
            Square::d4 => 3,
            Square::a3 => 4,
            Square::b3 => 5,
            Square::c3 => 6,
            Square::d3 => 7,
            Square::a2 => 8,
            Square::b2 => 9,
            Square::c2 => 10,
            Square::d2 => 11,
            Square::a1 => 12,
            Square::b1 => 13,
            Square::c1 => 14,
            Square::d1 => 15,
        }
    }

    /// Bit index of the square.
    pub fn index(self) -> (r: u16)
        ensures
            r as int == self.idx(),
            r < 16,
    {
        match self {
            Square::a4 => 0,
            Square::b4 => 1,
            Square::c4 => 2,
            Square::d4 => 3,
            Square::a3 => 4,
            Square::b3 => 5,
            Square::c3 => 6,
            Square::d3 => 7,
            Square::a2 => 8,
            Square::b2 => 9,
            Square::c2 => 10,
            Square::d2 => 11,
            Square::a1 => 12,
            Square::b1 => 13,
            Square::c1 => 14,
            Square::d1 => 15,
        }
    }

    /// The square with bit index `i % 16`.
    pub fn from_u32(item: u32) -> (r: Square)
        ensures
            r.idx() == item % 16,
    {
        match item % 16 {
            0 => Square::a4,
            1 => Square::b4,
            2 => Square::c4,
            3 => Square::d4,
            4 => Square::a3,
            5 => Square::b3,
            6 => Square::c3,
            7 => Square::d3,
            8 => Square::a2,
            9 => Square::b2,
            10 => Square::c2,
            11 => Square::d2,
            12 => Square::a1,
            13 => Square::b1,
            14 => Square::c1,
            15 => Square::d1,
            _ => Square::a1,
        }
    }
}

/// The square with bit index `i` (for `0 <= i < 16`).
pub open spec fn square_at(i: int) -> Square {
    if i == 0 { Square::a4 } else if i == 1 { Square::b4 } else if i == 2 { Square::c4 }
    else if i == 3 { Square::d4 } else if i == 4 { Square::a3 } else if i == 5 { Square::b3 }
    else if i == 6 { Square::c3 } else if i == 7 { Square::d3 } else if i == 8 { Square::a2 }
    else if i == 9 { Square::b2 } else if i == 10 { Square::c2 } else if i == 11 { Square::d2 }
    else if i == 12 { Square::a1 } else if i == 13 { Square::b1 } else if i == 14 { Square::c1 }
    else { Square::d1 }
}

pub broadcast proof fn lemma_square_at_idx(i: int)
    requires
        0 <= i < 16,
    ensures
        #[trigger] square_at(i).idx() == i,
{
}

pub broadcast proof fn lemma_idx_square_at(s: Square)
    ensures
        #[trigger] square_at(s.idx()) == s,
        0 <= s.idx() < 16,
{
}

pub broadcast group group_square_lemmas {
    lemma_square_at_idx,
    lemma_idx_square_at,
}

/// The square with index `i`.
pub fn square_from_index(i: u16) -> (r: Square)
    requires
        i < 16,
    ensures
        r == square_at(i as int),
{
    let r = Square::from_u32(i as u32);
    assert(r == square_at(r.idx()));
    r
}

impl From<u32> for Square {
    fn from(item: u32) -> (r: Square) {
        Square::from_u32(item)
    }
}

impl vstd::std_specs::convert::FromSpecImpl<u32> for Square {
    open spec fn obeys_from_spec() -> bool {
        true
    }

    open spec fn from_spec(v: u32) -> Square {
        square_at((v % 16) as int)
    }
}

/// The five kinds of piece.
#[derive(Debug, Clone, Copy, PartialEq, Eq, Structural, Hash)]
pub enum Piece {
    King,
    Wazir,
    Ma,
    Ferz,
    Pawn,
}

impl Piece {
    pub const ALL: [Piece; 5] = [Piece::King, Piece::Wazir, Piece::Ma, Piece::Ferz, Piece::Pawn];
}

/// The two players.
#[derive(Debug, Clone, Copy, PartialEq, Eq, Structural)]
pub enum Side {
    White,
    Black,
}

impl Side {
    pub open spec fn other(self) -> Side {
        match self {
            Side::White => Side::Black,
            Side::Black => Side::White,
        }
    }

    /// 0 for White, 1 for Black.
    pub open spec fn num(self) -> int {
        match self {
            Side::White => 0,
            Side::Black => 1,
        }
    }

    /// The other side.
    pub fn opponent(self) -> (r: Side)
        ensures
            r == self.other(),
    {
        match self {
            Side::White => Side::Black,
            Side::Black => Side::White,
        }
    }

    /// 0 for White, 1 for Black.
    pub fn index(self) -> (r: usize)
        ensures
            r as int == self.num(),
    {
        match self {
            Side::White => 0,
            Side::Black => 1,
        }
    }
}

impl core::ops::Neg for Side {
    type Output = Side;

    /// The other side.
    fn neg(self) -> (r: Side) {
        self.opponent()
    }
}

impl vstd::std_specs::ops::NegSpecImpl for Side {
    open spec fn obeys_neg_spec() -> bool {
        true
    }

    open spec fn neg_req(self) -> bool {
        true
    }

    open spec fn neg_spec(self) -> Side {
        self.other()
    }
}

/// A move: a piece moving from `source`, or dropped from the inventory when
/// `source` is `None`.
#[derive(Debug, Clone, Copy, PartialEq, Eq, Structural, Hash)]
pub struct Move {
    pub source: Option<Square>,
    pub target: Square,
    pub piece: Piece,
    pub promoted_piece: Option<Piece>,
    pub capture: bool,
}

} // verus!
