//! Text forms of squares, pieces, sides, moves, bitboards and positions.
use vstd::prelude::*;
use crate::bitboard::{BitBoard, is_set, row, col, group_bit_lemmas};
use crate::pieces::{Square, Piece, Side, Move, square_from_index, group_square_lemmas};
use crate::inventory::count_of;
use crate::position::GameState;

verus! {

broadcast use group_bit_lemmas, group_square_lemmas;

/// The letter of file `f` (0 is a).
pub open spec fn file_text(f: int) -> Seq<char> {
    if f == 0 {
        "a"@
    } else if f == 1 {
        "b"@
    } else if f == 2 {
        "c"@
    } else {
        "d"@
    }
}

/// The digit of a number from 0 to 4.
pub open spec fn digit_text(n: int) -> Seq<char> {
    if n == 0 {
        "0"@
    } else if n == 1 {
        "1"@
    } else if n == 2 {
        "2"@
    } else if n == 3 {
        "3"@
    } else {
        "4"@
    }
}

/// The name of square `i`, such as `a4` for square 0.
pub open spec fn square_text(i: int) -> Seq<char> {
    file_text(col(i)) + digit_text(4 - row(i))
}

/// The letter of a piece: upper case for White, lower case for Black.
pub open spec fn piece_text(p: Piece, white: bool) -> Seq<char> {
    match p {
        Piece::King => if white { "K"@ } else { "k"@ },
        Piece::Wazir => if white { "W"@ } else { "w"@ },
        Piece::Ma => if white { "M"@ } else { "m"@ },
        Piece::Ferz => if white { "F"@ } else { "f"@ },
        Piece::Pawn => if white { "P"@ } else { "p"@ },
    }
}

pub open spec fn side_text(s: Side) -> Seq<char> {
    match s {
        Side::White => "White"@,
        Side::Black => "Black"@,
    }
}

/// A move as text: `W@a2` for a drop, `Kxb2` for a capture, `Pc4=W` for a
/// promotion.
pub open spec fn move_text(m: Move) -> Seq<char> {
    let promoted = match m.promoted_piece {
        None => Seq::empty(),
        Some(p) => "="@ + piece_text(p, true),
    };
    match m.source {
        None => piece_text(m.piece, true) + "@"@ + square_text(m.target.idx()) + promoted,
        Some(_) => piece_text(m.piece, true) + (if m.capture {
            "x"@
        } else {
            Seq::empty()
        }) + square_text(m.target.idx()) + promoted,
    }
}

fn file_str(f: u16) -> (r: &'static str)
    requires
        f < 4,
    ensures
        r@ == file_text(f as int),
{
    if f == 0 {
        "a"
    } else if f == 1 {
        "b"
    } else if f == 2 {
        "c"
    } else {
        "d"
    }
}

fn digit_str(n: u16) -> (r: &'static str)
    requires
        n <= 4,
    ensures
        r@ == digit_text(n as int),
{
    if n == 0 {
        "0"
    } else if n == 1 {
        "1"
    } else if n == 2 {
        "2"
    } else if n == 3 {
        "3"
    } else {
        "4"
    }
}

fn piece_str(p: Piece, white: bool) -> (r: &'static str)
    ensures
        r@ == piece_text(p, white),
{
    match p {
        Piece::King => if white { "K" } else { "k" },
        Piece::Wazir => if white { "W" } else { "w" },
        Piece::Ma => if white { "M" } else { "m" },
        Piece::Ferz => if white { "F" } else { "f" },
        Piece::Pawn => if white { "P" } else { "p" },
    }
}

impl Square {
    /// The square's name, such as `b3`.
    pub fn to_string(&self) -> (r: String)
        ensures
            r@ == square_text(self.idx()),
    {
        let i = self.index();
        let rank = 4 - (i / 4);
        let file = i % 4;
        let mut s = String::new();
        s.append(file_str(file));
        s.append(digit_str(rank));
        s
    }
}

impl Piece {
    /// The piece's letter, such as `W`.
    pub fn to_string(&self) -> (r: String)
        ensures
            r@ == piece_text(*self, true),
    {
        String::from_str(piece_str(*self, true))
    }
}

impl Side {
    /// `White` or `Black`.
    pub fn to_string(&self) -> (r: String)
        ensures
            r@ == side_text(*self),
    {
        match self {
            Side::White => String::from_str("White"),
            Side::Black => String::from_str("Black"),
        }
    }
}

impl Move {
    /// The move in the notation of `move_text`.
    pub fn to_string(&self) -> (r: String)
        ensures
            r@ == move_text(*self),
    {
        let mut promoted = String::new();
        match self.promoted_piece {
            None => {},
            Some(piece) => {
                promoted.append("=");
                promoted.append(piece_str(piece, true));
            },
        }
        let mut s = String::new();
        s.append(piece_str(self.piece, true));
        match self.source {
            None => {
                s.append("@");
                s.append(self.target.to_string().as_str());
                s.append(promoted.as_str());
            },
            Some(_) => {
                if self.capture {
                    s.append("x");
                }
                s.append(self.target.to_string().as_str());
                s.append(promoted.as_str());
            },
        }
        s
    }
}

/// Cells `0..n` of row `r` of a bitboard, ` 1` for a set square, ` 0` else.
pub open spec fn bitboard_cells_text(b: u16, r: int, n: int) -> Seq<char>
    decreases n,
{
    if n <= 0 {
        Seq::empty()
    } else {
        bitboard_cells_text(b, r, n - 1) + (if is_set(b, 4 * r + n - 1) { " 1"@ } else { " 0"@ })
    }
}

/// Row `r` of a bitboard, its rank number first.
pub open spec fn bitboard_row_text(b: u16, r: int) -> Seq<char> {
    "  "@ + digit_text(4 - r) + " "@ + bitboard_cells_text(b, r, 4) + "\n"@
}

pub open spec fn bitboard_rows_text(b: u16, n: int) -> Seq<char>
    decreases n,
{
    if n <= 0 {
        Seq::empty()
    } else {
        bitboard_rows_text(b, n - 1) + bitboard_row_text(b, n - 1)
    }
}

/// A bitboard drawn as a 4x4 grid of ones and zeros with rank and file labels.
pub open spec fn bitboard_text(b: u16) -> Seq<char> {
    "\n"@ + bitboard_rows_text(b, 4) + "\n     a b c d\n"@
}

impl BitBoard {
    /// The board as a grid of ones and zeros, rank 4 on top.
    pub fn to_string(&self) -> (r: String)
        ensures
            r@ == bitboard_text(self.0),
    {
        let mut s = String::new();
        s.append("\n");
        let mut rank: u16 = 0;
        while rank < 4
            invariant
                rank <= 4,
                s@ == "\n"@ + bitboard_rows_text(self.0, rank as int),
            decreases 4 - rank,
        {
            let ghost before = s@;
            s.append("  ");
            s.append(digit_str(4 - rank));
            s.append(" ");
            let ghost head = s@;
            assert(head == before + ("  "@ + digit_text(4 - rank) + " "@));
            let mut file: u16 = 0;
            while file < 4
                invariant
                    rank < 4,
                    file <= 4,
                    s@ == head + bitboard_cells_text(self.0, rank as int, file as int),
                decreases 4 - file,
            {
                let square = 4 * rank + file;
                if self.get_bit(square) {
                    s.append(" 1");
                } else {
                    s.append(" 0");
                }
                file = file + 1;
            }
            s.append("\n");
            assert(s@ == "\n"@ + bitboard_rows_text(self.0, rank + 1));
            rank = rank + 1;
        }
        s.append("\n     a b c d\n");
        s
    }
}

/// Square `t` of a position: a space then the piece's letter (lower case
/// for Black), or ` .` when empty.
pub open spec fn cell_text(g: GameState, t: int) -> Seq<char> {
    match g.piece_on(t) {
        Some(p) => " "@ + piece_text(p, is_set(g.occ(Side::White), t)),
        None => " ."@,
    }
}

pub open spec fn board_cells_text(g: GameState, r: int, n: int) -> Seq<char>
    decreases n,
{
    if n <= 0 {
        Seq::empty()
    } else {
        board_cells_text(g, r, n - 1) + cell_text(g, 4 * r + n - 1)
    }
}

/// Row `r` of a position, its rank number first.
pub open spec fn board_row_text(g: GameState, r: int) -> Seq<char> {
    "  "@ + digit_text(4 - r) + " "@ + board_cells_text(g, r, 4) + "\n"@
}

pub open spec fn board_rows_text(g: GameState, n: int) -> Seq<char>
    decreases n,
{
    if n <= 0 {
        Seq::empty()
    } else {
        board_rows_text(g, n - 1) + board_row_text(g, n - 1)
    }
}

/// A reserve line such as `  W: 2`, present only for a non-zero count.
pub open spec fn reserve_line_text(p: Piece, count: u8, white: bool) -> Seq<char> {
    if count > 0 {
        "  "@ + piece_text(p, white) + ": "@ + digit_text(count as int) + "\n"@
    } else {
        Seq::empty()
    }
}

/// The reserve of `side`: wazirs, mas, ferzes and pawns held.
pub open spec fn reserve_text(g: GameState, side: Side) -> Seq<char> {
    let raw = g.reserve(side);
    let white = side == Side::White;
    reserve_line_text(Piece::Wazir, count_of(raw, Piece::Wazir), white)
        + reserve_line_text(Piece::Ma, count_of(raw, Piece::Ma), white)
        + reserve_line_text(Piece::Ferz, count_of(raw, Piece::Ferz), white)
        + reserve_line_text(Piece::Pawn, count_of(raw, Piece::Pawn), white)
}

/// A position as text: the board with rank 4 on top, file labels, whose turn
/// it is, then White's and Black's reserves.
pub open spec fn position_text(g: GameState) -> Seq<char> {
    "\n"@ + board_rows_text(g, 4) + "\n     a b c d\n"@ + "\n"@ + side_text(g.turn()) + " to play"@ + "\n"@
        + reserve_text(g, Side::White) + reserve_text(g, Side::Black)
}

/// Appends the reserve line of `piece` to `s`.
fn append_reserve_line(s: &mut String, piece: Piece, count: u8, white: bool)
    requires
        count <= 3,
    ensures
        final(s)@ == old(s)@ + reserve_line_text(piece, count, white),
{
    if count > 0 {
        s.append("  ");
        s.append(piece_str(piece, white));
        s.append(": ");
        s.append(digit_str(count as u16));
        s.append("\n");
    }
}

/// Appends square `square` of `g`, as `cell_text` writes it.
fn append_cell(s: &mut String, g: &GameState, square: u16)
    requires
        square < 16,
    ensures
        final(s)@ == old(s)@ + cell_text(*g, square as int),
{
    let boards = g.bitboards();
    let occupancies = g.occupancies();
    assert(occupancies.of(Side::White) == g.occ(Side::White));
    assert(boards.of(Piece::King) == g.board(Piece::King));
    assert(boards.of(Piece::Wazir) == g.board(Piece::Wazir));
    assert(boards.of(Piece::Ma) == g.board(Piece::Ma));
    assert(boards.of(Piece::Ferz) == g.board(Piece::Ferz));
    assert(boards.of(Piece::Pawn) == g.board(Piece::Pawn));
    let is_white = occupancies.white.get_bit(square);
    let occupant = if boards.king.get_bit(square) {
        Some(Piece::King)
    } else if boards.wazir.get_bit(square) {
        Some(Piece::Wazir)
    } else if boards.ma.get_bit(square) {
        Some(Piece::Ma)
    } else if boards.ferz.get_bit(square) {
        Some(Piece::Ferz)
    } else if boards.pawn.get_bit(square) {
        Some(Piece::Pawn)
    } else {
        None
    };
    assert(occupant == g.piece_on(square as int));
    match occupant {
        Some(piece) => {
            s.append(" ");
            s.append(piece_str(piece, is_white));
        },
        None => {
            s.append(" .");
        },
    }
}

/// Appends the four rows of the board of `g`.
fn append_board_rows(s: &mut String, g: &GameState)
    ensures
        final(s)@ == old(s)@ + board_rows_text(*g, 4),
{
    let ghost start = s@;
    let mut rank: u16 = 0;
    while rank < 4
        invariant
            rank <= 4,
            s@ == start + board_rows_text(*g, rank as int),
        decreases 4 - rank,
    {
        let ghost before = s@;
        s.append("  ");
        s.append(digit_str(4 - rank));
        s.append(" ");
        let ghost head = s@;
        assert(head == before + ("  "@ + digit_text(4 - rank) + " "@));
        let mut file: u16 = 0;
        while file < 4
            invariant
                rank < 4,
                file <= 4,
                s@ == head + board_cells_text(*g, rank as int, file as int),
            decreases 4 - file,
        {
            append_cell(s, g, 4 * rank + file);
            file = file + 1;
        }
        s.append("\n");
        assert(s@ == start + board_rows_text(*g, rank + 1));
        rank = rank + 1;
    }
}

/// Appends the reserve of one side.
fn append_reserve(s: &mut String, g: &GameState, side: Side)
    ensures
        final(s)@ == old(s)@ + reserve_text(*g, side),
{
    let ghost start = s@;
    let inventory = g.inventory();
    let reserve = inventory[side.index()];
    let white = side == Side::White;
    append_reserve_line(s, Piece::Wazir, reserve.get(Piece::Wazir), white);
    append_reserve_line(s, Piece::Ma, reserve.get(Piece::Ma), white);
    append_reserve_line(s, Piece::Ferz, reserve.get(Piece::Ferz), white);
    append_reserve_line(s, Piece::Pawn, reserve.get(Piece::Pawn), white);
    assert(s@ == start + reserve_text(*g, side));
}

impl GameState {
    /// The position as text, in the layout of `position_text`.
    pub fn to_string(&self) -> (r: String)
        ensures
            r@ == position_text(*self),
    {
        let mut s = String::new();
        s.append("\n");
        append_board_rows(&mut s, self);
        s.append("\n     a b c d\n");
        s.append("\n");
        s.append(self.side().to_string().as_str());
        s.append(" to play");
        s.append("\n");
        append_reserve(&mut s, self, Side::White);
        append_reserve(&mut s, self, Side::Black);
        s
    }
}

} // verus!
