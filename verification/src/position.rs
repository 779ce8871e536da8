//! The game state: piece placement, reserves, whose turn it is; move generation,
//! making moves, check and mate.
use vstd::prelude::*;
use crate::bitboard::{
    BitBoard, bit, is_set, on_board, row, col, orth_adjacent, diag_adjacent, king_adjacent,
    pawn_attack, ma_attack, group_bit_lemmas, lemma_nonzero, wazir_attacks,
    ferz_attacks, pawn_attacks, lookup_ma_attacks,
};
use crate::pieces::{Square, Piece, Side, Move, square_at, square_from_index, group_square_lemmas};
use crate::inventory::{Inventory, count_of, unit, shift};

verus! {

broadcast use group_bit_lemmas, group_square_lemmas;

/// One bitboard per kind of piece (both colours together).
#[derive(Clone, Copy)]
pub struct PieceBoards {
    pub king: BitBoard,
    pub wazir: BitBoard,
    pub ma: BitBoard,
    pub ferz: BitBoard,
    pub pawn: BitBoard,
}

impl PieceBoards {
    /// The squares holding a piece of kind `p`.
    pub open spec fn of(self, p: Piece) -> u16 {
        match p {
            Piece::King => self.king.0,
            Piece::Wazir => self.wazir.0,
            Piece::Ma => self.ma.0,
            Piece::Ferz => self.ferz.0,
            Piece::Pawn => self.pawn.0,
        }
    }

    /// These boards with the board of `p` replaced by `b`.
    pub open spec fn with(self, p: Piece, b: u16) -> PieceBoards {
        match p {
            Piece::King => PieceBoards { king: BitBoard(b), ..self },
            Piece::Wazir => PieceBoards { wazir: BitBoard(b), ..self },
            Piece::Ma => PieceBoards { ma: BitBoard(b), ..self },
            Piece::Ferz => PieceBoards { ferz: BitBoard(b), ..self },
            Piece::Pawn => PieceBoards { pawn: BitBoard(b), ..self },
        }
    }

    /// Replacing one board leaves the others.
    pub broadcast proof fn lemma_with_of(self, p: Piece, b: u16, q: Piece)
        ensures
            #[trigger] self.with(p, b).of(q) == if q == p {
                b
            } else {
                self.of(q)
            },
    {
    }

    /// The board of `piece`.
    pub fn get(&self, piece: Piece) -> (r: BitBoard)
        ensures
            r.0 == self.of(piece),
    {
        match piece {
            Piece::King => self.king,
            Piece::Wazir => self.wazir,
            Piece::Ma => self.ma,
            Piece::Ferz => self.ferz,
            Piece::Pawn => self.pawn,
        }
    }

    /// Replaces the board of `piece`.
    pub fn set(&mut self, piece: Piece, board: BitBoard)
        ensures
            *final(self) == old(self).with(piece, board.0),
    {
        match piece {
            Piece::King => self.king = board,
            Piece::Wazir => self.wazir = board,
            Piece::Ma => self.ma = board,
            Piece::Ferz => self.ferz = board,
            Piece::Pawn => self.pawn = board,
        }
    }
}

impl core::ops::Index<Piece> for PieceBoards {
    type Output = BitBoard;

    /// The board of `piece`.
    fn index(&self, piece: Piece) -> (r: &BitBoard)
        ensures
            r.0 == self.of(piece),
    {
        match piece {
            Piece::King => &self.king,
            Piece::Wazir => &self.wazir,
            Piece::Ma => &self.ma,
            Piece::Ferz => &self.ferz,
            Piece::Pawn => &self.pawn,
        }
    }
}

impl vstd::std_specs::core::IndexSpecImpl<Piece> for PieceBoards {
    open spec fn index_req(&self, index: &Piece) -> bool {
        true
    }
}

impl core::ops::IndexMut<Piece> for PieceBoards {
    /// The board of `piece`, to change in place.
    fn index_mut(&mut self, piece: Piece) -> (r: &mut BitBoard)
        ensures
            r.0 == old(self).of(piece),
            *final(self) == old(self).with(piece, final(r).0),
    {
        match piece {
            Piece::King => &mut self.king,
            Piece::Wazir => &mut self.wazir,
            Piece::Ma => &mut self.ma,
            Piece::Ferz => &mut self.ferz,
            Piece::Pawn => &mut self.pawn,
        }
    }
}

impl Default for PieceBoards {
    fn default() -> (r: PieceBoards)
        ensures
            forall|p: Piece| r.of(p) == 0,
    {
        PieceBoards {
            king: BitBoard(0),
            wazir: BitBoard(0),
            ma: BitBoard(0),
            ferz: BitBoard(0),
            pawn: BitBoard(0),
        }
    }
}

/// The squares occupied by each side.
#[derive(Clone, Copy)]
pub struct Occupancies {
    pub white: BitBoard,
    pub black: BitBoard,
}

impl Occupancies {
    pub open spec fn of(self, side: Side) -> u16 {
        match side {
            Side::White => self.white.0,
            Side::Black => self.black.0,
        }
    }

    pub open spec fn with(self, side: Side, b: u16) -> Occupancies {
        match side {
            Side::White => Occupancies { white: BitBoard(b), ..self },
            Side::Black => Occupancies { black: BitBoard(b), ..self },
        }
    }

    /// Replacing one side's squares leaves the other's.
    pub broadcast proof fn lemma_with_of(self, s: Side, b: u16, q: Side)
        ensures
            #[trigger] self.with(s, b).of(q) == if q == s {
                b
            } else {
                self.of(q)
            },
    {
    }

    /// The squares of `side`.
    pub fn get(&self, side: Side) -> (r: BitBoard)
        ensures
            r.0 == self.of(side),
    {
        match side {
            Side::White => self.white,
            Side::Black => self.black,
        }
    }

    /// Replaces the squares of `side`.
    pub fn set(&mut self, side: Side, board: BitBoard)
        ensures
            *final(self) == old(self).with(side, board.0),
    {
        match side {
            Side::White => self.white = board,
            Side::Black => self.black = board,
        }
    }
}

impl core::ops::Index<Side> for Occupancies {
    type Output = BitBoard;

    /// The squares of `side`.
    fn index(&self, side: Side) -> (r: &BitBoard)
        ensures
            r.0 == self.of(side),
    {
        match side {
            Side::White => &self.white,
            Side::Black => &self.black,
        }
    }
}

impl vstd::std_specs::core::IndexSpecImpl<Side> for Occupancies {
    open spec fn index_req(&self, index: &Side) -> bool {
        true
    }
}

impl core::ops::IndexMut<Side> for Occupancies {
    /// The squares of `side`, to change in place.
    fn index_mut(&mut self, side: Side) -> (r: &mut BitBoard)
        ensures
            r.0 == old(self).of(side),
            *final(self) == old(self).with(side, final(r).0),
    {
        match side {
            Side::White => &mut self.white,
            Side::Black => &mut self.black,
        }
    }
}

impl Default for Occupancies {
    fn default() -> (r: Occupancies)
        ensures
            r.white.0 == 0,
            r.black.0 == 0,
    {
        Occupancies { white: BitBoard(0), black: BitBoard(0) }
    }
}

/// `b` with square `i` added.
pub open spec fn add_sq(b: u16, i: int) -> u16 {
    b | (1u16 << (i as u16))
}

/// `b` with square `i` removed.
pub open spec fn del_sq(b: u16, i: int) -> u16 {
    b & !(1u16 << (i as u16))
}

/// The sequences `f(0) + f(1) + ... + f(n - 1)`.
pub open spec fn concat_range(n: int, f: spec_fn(int) -> Seq<Move>) -> Seq<Move>
    decreases n,
{
    if n <= 0 {
        Seq::empty()
    } else {
        concat_range(n - 1, f) + f(n - 1)
    }
}

/// `m` alone if `c` holds, else nothing.
pub open spec fn only_if(c: bool, m: Move) -> Seq<Move> {
    if c {
        seq![m]
    } else {
        Seq::empty()
    }
}

/// Kinds of piece in the order they are dropped from the reserve.
pub open spec fn drop_order(k: int) -> Piece {
    if k == 0 {
        Piece::Wazir
    } else if k == 1 {
        Piece::Ma
    } else if k == 2 {
        Piece::Ferz
    } else {
        Piece::Pawn
    }
}

/// Dropping `p` from the reserve onto square `t`.
pub open spec fn drop_move(p: Piece, t: int) -> Move {
    Move { source: None, target: square_at(t), piece: p, promoted_piece: None, capture: false }
}

/// `t` is the lowest square of `b`.
pub open spec fn is_lowest(b: u16, t: int) -> bool {
    is_set(b, t) && forall|u: int| 0 <= u < t ==> !#[trigger] is_set(b, u)
}

/// The lowest square of a non-empty board.
pub fn get_ls1b_index(bitboard: BitBoard) -> (r: Square)
    requires
        bitboard.0 != 0,
    ensures
        is_lowest(bitboard.0, r.idx()),
{
    let b = bitboard.0;
    let idx = b.trailing_zeros();
    proof {
        vstd::std_specs::bits::axiom_u16_trailing_zeros(b);
        assert forall|u: int| 0 <= u < idx implies !#[trigger] is_set(b, u) by {
            let j = u as u16;
            assert((b >> j) & 1u16 == 0u16);
        }
    }
    square_from_index(idx as u16)
}

impl BitBoard {
    /// Removes and returns the lowest square, or `None` when the board is
    /// empty: the squares come out in increasing order.
    pub fn next(&mut self) -> (r: Option<Square>)
        ensures
            match r {
                None => old(self).0 == 0 && final(self).0 == 0,
                Some(s) => is_lowest(old(self).0, s.idx()) && forall|t: int| #[trigger] is_set(final(self).0, t)
                    == (is_set(old(self).0, t) && t != s.idx()),
            },
    {
        if self.0 == 0 {
            return None;
        }
        let idx = get_ls1b_index(*self);
        self.pop_bit(idx.index());
        Some(idx)
    }
}

/// `f(0) + ... + f(n - 1)`.
pub open spec fn sum_upto(n: int, f: spec_fn(int) -> int) -> int
    decreases n,
{
    if n <= 0 {
        0
    } else {
        sum_upto(n - 1, f) + f(n - 1)
    }
}

/// Where two functions agree except on `a` and `b`, their sums differ by
/// their differences there.
pub proof fn lemma_sum_frame(n: int, f: spec_fn(int) -> int, g: spec_fn(int) -> int, a: int, b: int)
    requires
        0 <= a < n,
        0 <= b < n,
        a != b,
        forall|u: int| 0 <= u < n && u != a && u != b ==> #[trigger] f(u) == g(u),
    ensures
        sum_upto(n, g) - sum_upto(n, f) == (g(a) - f(a)) + (g(b) - f(b)),
    decreases n,
{
    if n > 0 {
        if n - 1 == a {
            lemma_sum_same(n - 1, f, g, b);
        } else if n - 1 == b {
            lemma_sum_same(n - 1, f, g, a);
        } else {
            lemma_sum_frame(n - 1, f, g, a, b);
        }
    }
}

/// Where two functions agree except on `a`, their sums differ by their
/// difference there.
pub proof fn lemma_sum_same(n: int, f: spec_fn(int) -> int, g: spec_fn(int) -> int, a: int)
    requires
        0 <= a < n,
        forall|u: int| 0 <= u < n && u != a ==> #[trigger] f(u) == g(u),
    ensures
        sum_upto(n, g) - sum_upto(n, f) == g(a) - f(a),
    decreases n,
{
    if n > 0 {
        if n - 1 == a {
            lemma_sum_equal(n - 1, f, g);
        } else {
            lemma_sum_same(n - 1, f, g, a);
        }
    }
}

/// Sums of functions that agree below `n` are equal.
pub proof fn lemma_sum_equal(n: int, f: spec_fn(int) -> int, g: spec_fn(int) -> int)
    requires
        forall|u: int| 0 <= u < n ==> #[trigger] f(u) == g(u),
    ensures
        sum_upto(n, g) == sum_upto(n, f),
    decreases n,
{
    if n > 0 {
        lemma_sum_equal(n - 1, f, g);
    }
}

/// The sum of a pointwise sum is the sum of the sums.
pub proof fn lemma_sum_add(n: int, f: spec_fn(int) -> int, g: spec_fn(int) -> int, h: spec_fn(int) -> int)
    requires
        forall|u: int| 0 <= u < n ==> #[trigger] h(u) == f(u) + g(u),
    ensures
        sum_upto(n, h) == sum_upto(n, f) + sum_upto(n, g),
    decreases n,
{
    if n > 0 {
        lemma_sum_add(n - 1, f, g, h);
    }
}

/// A sum of non-negative terms is at least each term.
pub proof fn lemma_sum_ge_term(n: int, f: spec_fn(int) -> int, a: int)
    requires
        0 <= a < n,
        forall|u: int| 0 <= u < n ==> #[trigger] f(u) >= 0,
    ensures
        sum_upto(n, f) >= f(a),
        sum_upto(n, f) >= 0,
    decreases n,
{
    if n - 1 == a {
        lemma_sum_nonneg(n - 1, f);
    } else {
        lemma_sum_ge_term(n - 1, f, a);
    }
}

/// A sum of non-negative terms is non-negative.
pub proof fn lemma_sum_nonneg(n: int, f: spec_fn(int) -> int)
    requires
        forall|u: int| 0 <= u < n ==> #[trigger] f(u) >= 0,
    ensures
        sum_upto(n, f) >= 0,
    decreases n,
{
    if n > 0 {
        lemma_sum_nonneg(n - 1, f);
    }
}

/// Whatever some `f(k)`, `k < n`, holds, `concat_range(n, f)` holds.
pub proof fn lemma_concat_contains(n: int, f: spec_fn(int) -> Seq<Move>, k: int, x: Move)
    requires
        0 <= k < n,
        f(k).contains(x),
    ensures
        concat_range(n, f).contains(x),
    decreases n,
{
    let pre = concat_range(n - 1, f);
    assert(concat_range(n, f) == pre + f(n - 1));
    if k == n - 1 {
        let j = choose|j: int| 0 <= j < f(k).len() && #[trigger] f(k)[j] == x;
        assert((pre + f(n - 1))[pre.len() + j] == x);
    } else {
        lemma_concat_contains(n - 1, f, k, x);
        let j = choose|j: int| 0 <= j < pre.len() && #[trigger] pre[j] == x;
        assert((pre + f(n - 1))[j] == x);
    }
}

/// Each element of `concat_range(n, f)` comes from some `f(k)`, `k < n`.
pub proof fn lemma_concat_index(n: int, f: spec_fn(int) -> Seq<Move>, i: int)
    requires
        0 <= i < concat_range(n, f).len(),
    ensures
        exists|k: int, j: int|
            0 <= k < n && 0 <= j < f(k).len() && concat_range(n, f)[i] == #[trigger] f(k)[j],
    decreases n,
{
    if n > 0 {
        let pre = concat_range(n - 1, f);
        if i < pre.len() {
            lemma_concat_index(n - 1, f, i);
            let (k, j) = choose|k: int, j: int|
                0 <= k < n - 1 && 0 <= j < f(k).len() && pre[i] == #[trigger] f(k)[j];
            assert(concat_range(n, f)[i] == f(k)[j]);
        } else {
            assert(concat_range(n, f)[i] == f(n - 1)[i - pre.len()]);
        }
    }
}

/// A full game position.
#[derive(Clone, Copy)]
pub struct GameState {
    bitboards: PieceBoards,
    occupancies: Occupancies,
    former_pawns: BitBoard,
    inventory: [Inventory; 2],
    side: Side,
}

impl GameState {
    /// Squares holding a piece of kind `p`, of either side.
    pub closed spec fn board(self, p: Piece) -> u16 {
        self.bitboards.of(p)
    }

    /// Squares holding a piece of `s`.
    pub closed spec fn occ(self, s: Side) -> u16 {
        self.occupancies.of(s)
    }

    /// Squares whose piece was promoted from a pawn.
    pub closed spec fn formers(self) -> u16 {
        self.former_pawns.0
    }

    /// The packed reserve of `s`.
    pub closed spec fn reserve(self, s: Side) -> u8 {
        self.inventory@[s.num()]@
    }

    /// The side to move.
    pub closed spec fn turn(self) -> Side {
        self.side
    }

    pub closed spec fn with_board(self, p: Piece, b: u16) -> GameState {
        GameState { bitboards: self.bitboards.with(p, b), ..self }
    }

    pub closed spec fn with_occ(self, s: Side, b: u16) -> GameState {
        GameState { occupancies: self.occupancies.with(s, b), ..self }
    }

    pub closed spec fn with_formers(self, b: u16) -> GameState {
        GameState { former_pawns: BitBoard(b), ..self }
    }

    pub closed spec fn with_reserve(self, s: Side, raw: u8) -> GameState {
        GameState {
            inventory: if s == Side::White {
                [Inventory::spec_from_raw(raw), self.inventory@[1]]
            } else {
                [self.inventory@[0], Inventory::spec_from_raw(raw)]
            },
            ..self
        }
    }

    pub closed spec fn with_turn(self, s: Side) -> GameState {
        GameState { side: s, ..self }
    }

    /// All occupied squares.
    pub open spec fn both(self) -> u16 {
        self.occ(Side::White) | self.occ(Side::Black)
    }

    // ------------------------------------------------------------------------
    // Attacks
    // ------------------------------------------------------------------------

    /// The piece of `side`'s opponent standing on `s` attacks `t`. A ma's path
    /// is blocked by any piece except `side`'s own king.
    pub open spec fn attacks_from(self, side: Side, s: int, t: int) -> bool {
        let e = side.other();
        let block = self.both() & !(self.board(Piece::King) & self.occ(side));
        ||| is_set(self.board(Piece::King) & self.occ(e), s) && king_adjacent(s, t)
        ||| is_set(self.board(Piece::Wazir) & self.occ(e), s) && orth_adjacent(s, t)
        ||| is_set(self.board(Piece::Ferz) & self.occ(e), s) && diag_adjacent(s, t)
        ||| is_set(self.board(Piece::Pawn) & self.occ(e), s) && pawn_attack(e == Side::White, s, t)
        ||| is_set(self.board(Piece::Ma) & self.occ(e), s) && ma_attack(s, block, t)
    }

    /// Square `t` is attacked by a piece of `side`'s opponent.
    pub open spec fn threatened(self, side: Side, t: int) -> bool {
        exists|s: int| 0 <= s < 16 && #[trigger] self.attacks_from(side, s, t)
    }

    /// A king of `side` stands on an attacked square.
    pub open spec fn in_check(self, side: Side) -> bool {
        exists|t: int| is_set(self.board(Piece::King) & self.occ(side), t) && #[trigger] self.threatened(side, t)
    }

    /// The squares attacked by the pieces of `side`'s opponent.
    fn enemy_attack_mask(self, side: Side) -> (r: BitBoard)
        ensures
            forall|t: int| #[trigger] is_set(r.0, t) == self.threatened(side, t),
    {
        let enemy = side.opponent();
        let enemies = self.occupancies.get(enemy);
        let both = BitBoard(self.occupancies.white.0 | self.occupancies.black.0);
        let king = BitBoard(self.bitboards.king.0 & self.occupancies.get(side).0);
        let block = BitBoard(both.0 & !king.0);
        let kings = BitBoard(self.bitboards.king.0 & enemies.0);
        let wazirs = BitBoard(self.bitboards.wazir.0 & enemies.0);
        let ferzes = BitBoard(self.bitboards.ferz.0 & enemies.0);
        let pawns = BitBoard(self.bitboards.pawn.0 & enemies.0);
        let mas = BitBoard(self.bitboards.ma.0 & enemies.0);
        let white_pawns = enemy == Side::White;
        let mut attack_mask = BitBoard(0);
        let mut s: u16 = 0;
        while s < 16
            invariant
                s <= 16,
                enemy == side.other(),
                block.0 == self.both() & !(self.board(Piece::King) & self.occ(side)),
                kings.0 == self.board(Piece::King) & self.occ(enemy),
                wazirs.0 == self.board(Piece::Wazir) & self.occ(enemy),
                ferzes.0 == self.board(Piece::Ferz) & self.occ(enemy),
                pawns.0 == self.board(Piece::Pawn) & self.occ(enemy),
                mas.0 == self.board(Piece::Ma) & self.occ(enemy),
                white_pawns == (enemy == Side::White),
                forall|t: int| #[trigger] is_set(attack_mask.0, t)
                    == exists|u: int| 0 <= u < s && #[trigger] self.attacks_from(side, u, t),
            decreases 16 - s,
        {
            let mut here = 0u16;
            if kings.get_bit(s) {
                here = here | wazir_attacks(s).0 | ferz_attacks(s).0;
            }
            if wazirs.get_bit(s) {
                here = here | wazir_attacks(s).0;
            }
            if ferzes.get_bit(s) {
                here = here | ferz_attacks(s).0;
            }
            if pawns.get_bit(s) {
                here = here | pawn_attacks(white_pawns, s).0;
            }
            if mas.get_bit(s) {
                here = here | lookup_ma_attacks(s, block).0;
            }
            assert forall|t: int| #[trigger] is_set(here, t) == self.attacks_from(side, s as int, t) by {}
            let ghost prev = attack_mask.0;
            attack_mask = BitBoard(attack_mask.0 | here);
            assert forall|t: int| #[trigger] is_set(attack_mask.0, t)
                == exists|u: int| 0 <= u < s + 1 && #[trigger] self.attacks_from(side, u, t) by {
                if self.attacks_from(side, s as int, t) {
                    assert(0 <= s < s + 1);
                }
                if exists|u: int| 0 <= u < s + 1 && #[trigger] self.attacks_from(side, u, t) {
                    let u = choose|u: int| 0 <= u < s + 1 && #[trigger] self.attacks_from(side, u, t);
                    if u < s {
                        assert(is_set(prev, t));
                    }
                }
            }
            s = s + 1;
        }
        attack_mask
    }

    // ------------------------------------------------------------------------
    // Move generation
    // ------------------------------------------------------------------------

    /// A piece `p` of the side to move may be dropped on `t`: the square is
    /// empty, and a pawn is never dropped on its last rank.
    pub open spec fn can_place(self, p: Piece, t: int) -> bool {
        &&& on_board(t)
        &&& !is_set(self.both(), t)
        &&& !(p == Piece::Pawn && (if self.turn() == Side::White { t <= 3 } else { t >= 12 }))
    }

    /// The drop of `p` on `t`, if allowed.
    pub open spec fn placement_at(self, p: Piece, t: int) -> Seq<Move> {
        only_if(self.can_place(p, t), drop_move(p, t))
    }

    /// Drops of `p`, by ascending square, when the reserve holds one.
    pub open spec fn placements_of(self, p: Piece) -> Seq<Move> {
        if count_of(self.reserve(self.turn()), p) == 0 {
            Seq::empty()
        } else {
            concat_range(16, |t: int| self.placement_at(p, t))
        }
    }

    /// All drops: wazirs, then mas, ferzes and pawns.
    pub open spec fn placements(self) -> Seq<Move> {
        concat_range(4, |k: int| self.placements_of(drop_order(k)))
    }

    fn placement_moves(&self, output: &mut Vec<Move>)
        ensures
            final(output)@ == old(output)@ + self.placements(),
    {
        let both = self.occupancies.white.0 | self.occupancies.black.0;
        let available_squares = BitBoard(!both);
        let inventory = self.inventory[self.side.index()];
        let pieces = [Piece::Wazir, Piece::Ma, Piece::Ferz, Piece::Pawn];
        let ghost outer = |k: int| self.placements_of(drop_order(k));
        let ghost start = output@;
        let mut k: usize = 0;
        while k < 4
            invariant
                k <= 4,
                output@ == start + concat_range(k as int, outer),
                outer == (|k: int| self.placements_of(drop_order(k))),
                pieces@ == seq![Piece::Wazir, Piece::Ma, Piece::Ferz, Piece::Pawn],
                inventory@ == self.reserve(self.turn()),
                available_squares.0 == !self.both(),
            decreases 4 - k,
        {
            let piece = pieces[k];
            assert(piece == drop_order(k as int));
            let ghost before = output@;
            if inventory.get(piece) != 0 {
                let ghost inner = |t: int| self.placement_at(piece, t);
                let mut t: u16 = 0;
                while t < 16
                    invariant
                        t <= 16,
                        output@ == before + concat_range(t as int, inner),
                        inner == (|t: int| self.placement_at(piece, t)),
                        available_squares.0 == !self.both(),
                    decreases 16 - t,
                {
                    let pawn_barred = piece == Piece::Pawn && ((self.side == Side::White && t <= 3)
                        || (self.side == Side::Black && t >= 12));
                    if available_squares.get_bit(t) && !pawn_barred {
                        output.push(
                            Move {
                                source: None,
                                target: square_from_index(t),
                                piece: piece,
                                promoted_piece: None,
                                capture: false,
                            },
                        );
                    }
                    assert(output@ == before + concat_range(t + 1, inner));
                    t = t + 1;
                }
            }
            assert(output@ == start + concat_range(k + 1, outer));
            k = k + 1;
        }
    }

    /// A piece of kind `p` of the side to move stands on `s`.
    pub open spec fn own(self, p: Piece, s: int) -> bool {
        is_set(self.board(p) & self.occ(self.turn()), s)
    }

    /// Moving `p` from `s` to `t`, capturing whatever enemy piece stands there.
    pub open spec fn step_move(self, p: Piece, s: int, t: int) -> Move {
        Move {
            source: Some(square_at(s)),
            target: square_at(t),
            piece: p,
            promoted_piece: None,
            capture: is_set(self.occ(self.turn().other()), t),
        }
    }

    /// The king on `s` may step to `t`: a neighbour not held by its own side
    /// and not attacked.
    pub open spec fn king_target(self, s: int, t: int) -> bool {
        king_adjacent(s, t) && !is_set(self.occ(self.turn()), t) && !self.threatened(self.turn(), t)
    }

    pub open spec fn king_moves_from(self, s: int) -> Seq<Move> {
        if self.own(Piece::King, s) {
            concat_range(16, |t: int| only_if(self.king_target(s, t), self.step_move(Piece::King, s, t)))
        } else {
            Seq::empty()
        }
    }

    /// King moves, by source then target square.
    pub open spec fn king_steps(self) -> Seq<Move> {
        concat_range(16, |s: int| self.king_moves_from(s))
    }

    /// The squares a wazir (orthogonal) or ferz (diagonal) on `s` reaches.
    pub open spec fn leaper_reach(p: Piece, s: int, t: int) -> bool {
        if p == Piece::Wazir {
            orth_adjacent(s, t)
        } else {
            diag_adjacent(s, t)
        }
    }

    pub open spec fn leaper_moves_from(self, p: Piece, s: int) -> Seq<Move> {
        if self.own(p, s) {
            concat_range(
                16,
                |t: int| only_if(
                    Self::leaper_reach(p, s, t) && !is_set(self.occ(self.turn()), t),
                    self.step_move(p, s, t),
                ),
            )
        } else {
            Seq::empty()
        }
    }

    /// Wazir or ferz moves, by source then target square.
    pub open spec fn leaper_steps(self, p: Piece) -> Seq<Move> {
        concat_range(16, |s: int| self.leaper_moves_from(p, s))
    }

    pub open spec fn ma_moves_from(self, s: int) -> Seq<Move> {
        if self.own(Piece::Ma, s) {
            concat_range(
                16,
                |t: int| only_if(
                    ma_attack(s, self.both(), t) && !is_set(self.occ(self.turn()), t),
                    self.step_move(Piece::Ma, s, t),
                ),
            )
        } else {
            Seq::empty()
        }
    }

    /// Ma moves, by source then target square.
    pub open spec fn ma_jumps(self) -> Seq<Move> {
        concat_range(16, |s: int| self.ma_moves_from(s))
    }

    fn king_moves(&self, output: &mut Vec<Move>)
        ensures
            final(output)@ == old(output)@ + self.king_steps(),
    {
        let own = self.occupancies.get(self.side);
        let enemy = self.occupancies.get(self.side.opponent());
        let bitboard = BitBoard(self.bitboards.king.0 & own.0);
        let attacked = self.enemy_attack_mask(self.side);
        let ghost outer = |s: int| self.king_moves_from(s);
        let ghost start = output@;
        let mut s: u16 = 0;
        while s < 16
            invariant
                s <= 16,
                output@ == start + concat_range(s as int, outer),
                outer == (|s: int| self.king_moves_from(s)),
                own.0 == self.occ(self.turn()),
                enemy.0 == self.occ(self.turn().other()),
                bitboard.0 == self.board(Piece::King) & self.occ(self.turn()),
                forall|t: int| #[trigger] is_set(attacked.0, t) == self.threatened(self.turn(), t),
            decreases 16 - s,
        {
            let ghost before = output@;
            if bitboard.get_bit(s) {
                let attacks = BitBoard(
                    (ferz_attacks(s).0 | wazir_attacks(s).0) & !own.0 & !attacked.0,
                );
                let ghost inner = |t: int| only_if(self.king_target(s as int, t), self.step_move(Piece::King, s as int, t));
                let mut t: u16 = 0;
                while t < 16
                    invariant
                        t <= 16,
                        s < 16,
                        output@ == before + concat_range(t as int, inner),
                        inner == (|t: int| only_if(self.king_target(s as int, t), self.step_move(Piece::King, s as int, t))),
                        enemy.0 == self.occ(self.turn().other()),
                        forall|u: int| #[trigger] is_set(attacks.0, u) == self.king_target(s as int, u),
                    decreases 16 - t,
                {
                    if attacks.get_bit(t) {
                        output.push(
                            Move {
                                source: Some(square_from_index(s)),
                                target: square_from_index(t),
                                piece: Piece::King,
                                promoted_piece: None,
                                capture: enemy.get_bit(t),
                            },
                        );
                    }
                    assert(output@ == before + concat_range(t + 1, inner));
                    t = t + 1;
                }
            }
            assert(output@ == start + concat_range(s + 1, outer));
            s = s + 1;
        }
    }

    /// Moves of the wazirs (`piece == Wazir`) or ferzes (otherwise) of the side
    /// to move.
    fn wazir_ferz_moves(&self, piece: Piece, output: &mut Vec<Move>)
        requires
            piece == Piece::Wazir || piece == Piece::Ferz,
        ensures
            final(output)@ == old(output)@ + self.leaper_steps(piece),
    {
        let own = self.occupancies.get(self.side);
        let enemy = self.occupancies.get(self.side.opponent());
        let bitboard = BitBoard(self.bitboards.get(piece).0 & own.0);
        let ghost outer = |s: int| self.leaper_moves_from(piece, s);
        let ghost start = output@;
        let mut s: u16 = 0;
        while s < 16
            invariant
                s <= 16,
                piece == Piece::Wazir || piece == Piece::Ferz,
                output@ == start + concat_range(s as int, outer),
                outer == (|s: int| self.leaper_moves_from(piece, s)),
                own.0 == self.occ(self.turn()),
                enemy.0 == self.occ(self.turn().other()),
                bitboard.0 == self.board(piece) & self.occ(self.turn()),
            decreases 16 - s,
        {
            let ghost before = output@;
            if bitboard.get_bit(s) {
                let table = if piece == Piece::Wazir { wazir_attacks(s) } else { ferz_attacks(s) };
                let attacks = BitBoard(table.0 & !own.0);
                let ghost inner = |t: int| only_if(
                    Self::leaper_reach(piece, s as int, t) && !is_set(self.occ(self.turn()), t),
                    self.step_move(piece, s as int, t),
                );
                let mut t: u16 = 0;
                while t < 16
                    invariant
                        t <= 16,
                        s < 16,
                        output@ == before + concat_range(t as int, inner),
                        inner == (|t: int| only_if(
                            Self::leaper_reach(piece, s as int, t) && !is_set(self.occ(self.turn()), t),
                            self.step_move(piece, s as int, t),
                        )),
                        enemy.0 == self.occ(self.turn().other()),
                        forall|u: int| #[trigger] is_set(attacks.0, u) == (Self::leaper_reach(piece, s as int, u)
                            && !is_set(self.occ(self.turn()), u)),
                    decreases 16 - t,
                {
                    if attacks.get_bit(t) {
                        output.push(
                            Move {
                                source: Some(square_from_index(s)),
                                target: square_from_index(t),
                                piece: piece,
                                promoted_piece: None,
                                capture: enemy.get_bit(t),
                            },
                        );
                    }
                    assert(output@ == before + concat_range(t + 1, inner));
                    t = t + 1;
                }
            }
            assert(output@ == start + concat_range(s + 1, outer));
            s = s + 1;
        }
    }

    fn ma_moves(&self, output: &mut Vec<Move>)
        ensures
            final(output)@ == old(output)@ + self.ma_jumps(),
    {
        let own = self.occupancies.get(self.side);
        let enemy = self.occupancies.get(self.side.opponent());
        let bitboard = BitBoard(self.bitboards.ma.0 & own.0);
        let both = BitBoard(self.occupancies.white.0 | self.occupancies.black.0);
        let ghost outer = |s: int| self.ma_moves_from(s);
        let ghost start = output@;
        let mut s: u16 = 0;
        while s < 16
            invariant
                s <= 16,
                output@ == start + concat_range(s as int, outer),
                outer == (|s: int| self.ma_moves_from(s)),
                own.0 == self.occ(self.turn()),
                enemy.0 == self.occ(self.turn().other()),
                both.0 == self.both(),
                bitboard.0 == self.board(Piece::Ma) & self.occ(self.turn()),
            decreases 16 - s,
        {
            let ghost before = output@;
            if bitboard.get_bit(s) {
                let attacks = BitBoard(lookup_ma_attacks(s, both).0 & !own.0);
                let ghost inner = |t: int| only_if(
                    ma_attack(s as int, self.both(), t) && !is_set(self.occ(self.turn()), t),
                    self.step_move(Piece::Ma, s as int, t),
                );
                let mut t: u16 = 0;
                while t < 16
                    invariant
                        t <= 16,
                        s < 16,
                        output@ == before + concat_range(t as int, inner),
                        inner == (|t: int| only_if(
                            ma_attack(s as int, self.both(), t) && !is_set(self.occ(self.turn()), t),
                            self.step_move(Piece::Ma, s as int, t),
                        )),
                        enemy.0 == self.occ(self.turn().other()),
                        forall|u: int| #[trigger] is_set(attacks.0, u) == (ma_attack(s as int, self.both(), u)
                            && !is_set(self.occ(self.turn()), u)),
                    decreases 16 - t,
                {
                    if attacks.get_bit(t) {
                        output.push(
                            Move {
                                source: Some(square_from_index(s)),
                                target: square_from_index(t),
                                piece: Piece::Ma,
                                promoted_piece: None,
                                capture: enemy.get_bit(t),
                            },
                        );
                    }
                    assert(output@ == before + concat_range(t + 1, inner));
                    t = t + 1;
                }
            }
            assert(output@ == start + concat_range(s + 1, outer));
            s = s + 1;
        }
    }

    /// A pawn of the side to move on `s` promotes on its next step.
    pub open spec fn pawn_promotes(self, s: int) -> bool {
        if self.turn() == Side::White {
            4 <= s <= 7
        } else {
            8 <= s <= 11
        }
    }

    /// The square straight ahead of a pawn of the side to move on `s`.
    pub open spec fn pawn_ahead(self, s: int) -> int {
        if self.turn() == Side::White {
            s - 4
        } else {
            s + 4
        }
    }

    /// The square ahead of a pawn on `s` is on the board and empty.
    pub open spec fn pawn_push_ok(self, s: int) -> bool {
        on_board(self.pawn_ahead(s)) && !is_set(self.both(), self.pawn_ahead(s))
    }

    pub open spec fn pawn_move(s: int, t: int, promoted: Option<Piece>, capture: bool) -> Move {
        Move {
            source: Some(square_at(s)),
            target: square_at(t),
            piece: Piece::Pawn,
            promoted_piece: promoted,
            capture: capture,
        }
    }

    /// A pawn step from `s` to `t`: promoting to wazir, ferz or ma in that
    /// order when it reaches the last rank, else plain.
    pub open spec fn pawn_variants(self, s: int, t: int, capture: bool) -> Seq<Move> {
        if self.pawn_promotes(s) {
            seq![
                Self::pawn_move(s, t, Some(Piece::Wazir), capture),
                Self::pawn_move(s, t, Some(Piece::Ferz), capture),
                Self::pawn_move(s, t, Some(Piece::Ma), capture),
            ]
        } else {
            seq![Self::pawn_move(s, t, None, capture)]
        }
    }

    pub open spec fn pawn_capture_at(self, s: int, t: int) -> Seq<Move> {
        if pawn_attack(self.turn() == Side::White, s, t) && is_set(self.occ(self.turn().other()), t) {
            self.pawn_variants(s, t, true)
        } else {
            Seq::empty()
        }
    }

    /// Moves of a pawn on `s`: the step ahead, then captures by target square.
    pub open spec fn pawn_moves_from(self, s: int) -> Seq<Move> {
        if self.own(Piece::Pawn, s) {
            (if self.pawn_push_ok(s) {
                self.pawn_variants(s, self.pawn_ahead(s), false)
            } else {
                Seq::empty()
            }) + concat_range(16, |t: int| self.pawn_capture_at(s, t))
        } else {
            Seq::empty()
        }
    }

    /// Pawn moves, by source square.
    pub open spec fn pawn_steps(self) -> Seq<Move> {
        concat_range(16, |s: int| self.pawn_moves_from(s))
    }

    /// Pushes the pawn step from `s` to `t`, with its promotions if any.
    fn push_pawn_variants(
        &self,
        s: u16,
        t: u16,
        capture: bool,
        promotion: bool,
        output: &mut Vec<Move>,
    )
        requires
            s < 16,
            t < 16,
            promotion == self.pawn_promotes(s as int),
        ensures
            final(output)@ == old(output)@ + self.pawn_variants(s as int, t as int, capture),
    {
        let source = square_from_index(s);
        let target = square_from_index(t);
        if promotion {
            output.push(
                Move {
                    source: Some(source),
                    target: target,
                    piece: Piece::Pawn,
                    promoted_piece: Some(Piece::Wazir),
                    capture: capture,
                },
            );
            output.push(
                Move {
                    source: Some(source),
                    target: target,
                    piece: Piece::Pawn,
                    promoted_piece: Some(Piece::Ferz),
                    capture: capture,
                },
            );
            output.push(
                Move {
                    source: Some(source),
                    target: target,
                    piece: Piece::Pawn,
                    promoted_piece: Some(Piece::Ma),
                    capture: capture,
                },
            );
        } else {
            output.push(
                Move {
                    source: Some(source),
                    target: target,
                    piece: Piece::Pawn,
                    promoted_piece: None,
                    capture: capture,
                },
            );
        }
    }

    fn pawn_moves(&self, output: &mut Vec<Move>)
        ensures
            final(output)@ == old(output)@ + self.pawn_steps(),
    {
        let own = self.occupancies.get(self.side);
        let enemy = self.occupancies.get(self.side.opponent());
        let bitboard = BitBoard(self.bitboards.pawn.0 & own.0);
        let both = BitBoard(self.occupancies.white.0 | self.occupancies.black.0);
        let white = self.side == Side::White;
        let ghost outer = |s: int| self.pawn_moves_from(s);
        let ghost start = output@;
        let mut s: u16 = 0;
        while s < 16
            invariant
                s <= 16,
                output@ == start + concat_range(s as int, outer),
                outer == (|s: int| self.pawn_moves_from(s)),
                own.0 == self.occ(self.turn()),
                enemy.0 == self.occ(self.turn().other()),
                both.0 == self.both(),
                white == (self.turn() == Side::White),
                bitboard.0 == self.board(Piece::Pawn) & self.occ(self.turn()),
            decreases 16 - s,
        {
            let ghost before = output@;
            if bitboard.get_bit(s) {
                // Quiet moves
                let (promotion, forward_available, target_square) = if white {
                    let promotion = 4 <= s && s <= 7;
                    let forward_available = s >= 4 && !both.get_bit(s - 4);
                    (promotion, forward_available, if s >= 4 { s - 4 } else { 0 })
                } else {
                    let promotion = 8 <= s && s <= 11;
                    let forward_available = s + 4 < 16 && !both.get_bit(s + 4);
                    (promotion, forward_available, if s + 4 < 16 { s + 4 } else { 0 })
                };
                if forward_available {
                    self.push_pawn_variants(s, target_square, false, promotion, output);
                }
                let ghost mid = output@;
                assert(mid == before + (if self.pawn_push_ok(s as int) {
                    self.pawn_variants(s as int, self.pawn_ahead(s as int), false)
                } else {
                    Seq::empty()
                }));
                // Captures
                let attacks = BitBoard(pawn_attacks(white, s).0 & enemy.0);
                let ghost inner = |t: int| self.pawn_capture_at(s as int, t);
                let mut t: u16 = 0;
                while t < 16
                    invariant
                        t <= 16,
                        s < 16,
                        output@ == mid + concat_range(t as int, inner),
                        inner == (|t: int| self.pawn_capture_at(s as int, t)),
                        promotion == self.pawn_promotes(s as int),
                        forall|u: int| #[trigger] is_set(attacks.0, u) == (pawn_attack(
                            self.turn() == Side::White,
                            s as int,
                            u,
                        ) && is_set(self.occ(self.turn().other()), u)),
                    decreases 16 - t,
                {
                    if attacks.get_bit(t) {
                        self.push_pawn_variants(s, t, true, promotion, output);
                    }
                    assert(output@ == mid + concat_range(t + 1, inner));
                    t = t + 1;
                }
                assert(output@ == before + self.pawn_moves_from(s as int));
            }
            assert(output@ == start + concat_range(s + 1, outer));
            s = s + 1;
        }
    }

    /// Every move of the side to move, ignoring whether it leaves its own king
    /// attacked: drops, then king, wazir, ferz, ma and pawn moves.
    pub open spec fn pseudo_moves(self) -> Seq<Move> {
        self.placements() + self.king_steps() + self.leaper_steps(Piece::Wazir)
            + self.leaper_steps(Piece::Ferz) + self.ma_jumps() + self.pawn_steps()
    }

    fn generate_moves(&self, output: &mut Vec<Move>)
        ensures
            final(output)@ == old(output)@ + self.pseudo_moves(),
    {
        let ghost start = output@;
        self.placement_moves(output);
        self.king_moves(output);
        self.wazir_ferz_moves(Piece::Wazir, output);
        self.wazir_ferz_moves(Piece::Ferz, output);
        self.ma_moves(output);
        self.pawn_moves(output);
        assert(output@ == start + self.pseudo_moves());
    }

    // ------------------------------------------------------------------------
    // Making moves
    // ------------------------------------------------------------------------

    /// The kind of piece found on `t`, looking in the order king, wazir, ma,
    /// ferz, pawn.
    pub open spec fn piece_on(self, t: int) -> Option<Piece> {
        if is_set(self.board(Piece::King), t) {
            Some(Piece::King)
        } else if is_set(self.board(Piece::Wazir), t) {
            Some(Piece::Wazir)
        } else if is_set(self.board(Piece::Ma), t) {
            Some(Piece::Ma)
        } else if is_set(self.board(Piece::Ferz), t) {
            Some(Piece::Ferz)
        } else if is_set(self.board(Piece::Pawn), t) {
            Some(Piece::Pawn)
        } else {
            None
        }
    }

    /// What a capture on `t` adds to the mover's reserve: a pawn if the piece
    /// there was promoted, else the piece itself.
    pub open spec fn spoils(self, t: int, captured: Piece) -> Piece {
        if is_set(self.formers(), t) {
            Piece::Pawn
        } else {
            captured
        }
    }

    /// `make_move` can carry out `m`: a capture finds a piece other than a king
    /// on the target and room in the reserve for it; a drop takes a piece
    /// other than a king that the reserve holds.
    pub open spec fn can_make(self, m: Move) -> bool {
        match m.source {
            Some(_) => m.capture ==> match self.piece_on(m.target.idx()) {
                Some(p) => p != Piece::King && self.reserve(self.turn()) + unit(
                    self.spoils(m.target.idx(), p),
                ) <= 255,
                None => false,
            },
            None => m.piece != Piece::King && count_of(self.reserve(self.turn()), m.piece) > 0,
        }
    }

    /// The position after the enemy piece on `t` is taken into the reserve of
    /// the side to move.
    pub closed spec fn captured_on(self, t: int) -> GameState {
        let side = self.side;
        let captured = self.piece_on(t).unwrap();
        let g = if is_set(self.formers(), t) {
            self.with_reserve(side, (self.reserve(side) + unit(Piece::Pawn)) as u8).with_formers(
                del_sq(self.formers(), t),
            )
        } else {
            self.with_reserve(side, (self.reserve(side) + unit(captured)) as u8)
        };
        g.with_board(captured, del_sq(g.board(captured), t)).with_occ(
            side.other(),
            del_sq(g.occ(side.other()), t),
        )
    }

    /// The position after the side to move plays `m`.
    pub closed spec fn apply(self, m: Move) -> GameState {
        let side = self.side;
        let t = m.target.idx();
        let moved = match m.source {
            Some(src) => {
                let s = src.idx();
                let g1 = if m.capture {
                    self.captured_on(t)
                } else {
                    self
                };
                let h = g1.with_board(m.piece, del_sq(g1.board(m.piece), s));
                let g2 = match m.promoted_piece {
                    Some(q) => h.with_board(q, add_sq(h.board(q), t)).with_formers(
                        add_sq(h.formers(), t),
                    ),
                    None => h.with_board(m.piece, add_sq(h.board(m.piece), t)),
                };
                let g3 = g2.with_occ(side, add_sq(del_sq(g2.occ(side), s), t));
                if is_set(g3.formers(), s) {
                    g3.with_formers(add_sq(del_sq(g3.formers(), s), t))
                } else {
                    g3
                }
            },
            None => {
                let g = self.with_reserve(side, (self.reserve(side) - unit(m.piece)) as u8);
                g.with_board(m.piece, add_sq(g.board(m.piece), t)).with_occ(
                    side,
                    add_sq(g.occ(side), t),
                )
            },
        };
        moved.with_turn(side.other())
    }

    /// The kind of piece on square `t`, the king being looked for first.
    fn captured_piece(&self, t: u16) -> (r: Option<Piece>)
        requires
            t < 16,
        ensures
            r == self.piece_on(t as int),
    {
        if self.bitboards.king.get_bit(t) {
            Some(Piece::King)
        } else if self.bitboards.wazir.get_bit(t) {
            Some(Piece::Wazir)
        } else if self.bitboards.ma.get_bit(t) {
            Some(Piece::Ma)
        } else if self.bitboards.ferz.get_bit(t) {
            Some(Piece::Ferz)
        } else if self.bitboards.pawn.get_bit(t) {
            Some(Piece::Pawn)
        } else {
            None
        }
    }

    /// Replaces the reserve of the side to move.
    fn set_own_inventory(&mut self, inventory: Inventory)
        ensures
            *final(self) == old(self).with_reserve(old(self).turn(), inventory@),
    {
        broadcast use Inventory::lemma_from_raw_view, Inventory::lemma_view_injective;
        assert(Inventory::spec_from_raw(inventory@)@ == inventory@);
        assert(Inventory::spec_from_raw(inventory@) == inventory);
        if self.side == Side::White {
            self.inventory = [inventory, self.inventory[1]];
        } else {
            self.inventory = [self.inventory[0], inventory];
        }
    }

    /// The position after the side to move plays `move_`.
    pub fn make_move(&self, move_: &Move) -> (r: GameState)
        requires
            self.can_make(*move_),
        ensures
            r == self.apply(*move_),
    {
        let mut new_state = *self;
        let target = move_.target.index();
        if let Some(source_square) = move_.source {
            let source = source_square.index();
            if move_.capture {
                let captured_piece = match new_state.captured_piece(target) {
                    Some(piece) => piece,
                    None => Piece::King,
                };
                let mut inventory = new_state.inventory[new_state.side.index()];
                if new_state.former_pawns.get_bit(target) {
                    // captured a former pawn
                    inventory.increment(Piece::Pawn);
                    new_state.set_own_inventory(inventory);
                    new_state.former_pawns.pop_bit(target);
                } else {
                    inventory.increment(captured_piece);
                    new_state.set_own_inventory(inventory);
                }
                // additionally remove enemy piece
                let mut board = new_state.bitboards.get(captured_piece);
                board.pop_bit(target);
                new_state.bitboards.set(captured_piece, board);
                // additionally remove enemy occupancy from target
                let enemy = new_state.side.opponent();
                let mut occupancy = new_state.occupancies.get(enemy);
                occupancy.pop_bit(target);
                new_state.occupancies.set(enemy, occupancy);
                assert(new_state == self.captured_on(target as int));
            }
            let ghost g1 = new_state;
            // move the piece, promoting it if asked
            let mut board = new_state.bitboards.get(move_.piece);
            board.pop_bit(source);
            new_state.bitboards.set(move_.piece, board);
            if let Some(promoted_piece) = move_.promoted_piece {
                let mut board = new_state.bitboards.get(promoted_piece);
                board.set_bit(target);
                new_state.bitboards.set(promoted_piece, board);
                new_state.former_pawns.set_bit(target);
            } else {
                let mut board = new_state.bitboards.get(move_.piece);
                board.set_bit(target);
                new_state.bitboards.set(move_.piece, board);
            }
            // remove occupancy from source, set occupancy on target
            let mut occupancy = new_state.occupancies.get(new_state.side);
            occupancy.pop_bit(source);
            occupancy.set_bit(target);
            new_state.occupancies.set(new_state.side, occupancy);
            // move former pawn
            if new_state.former_pawns.get_bit(source) {
                new_state.former_pawns.pop_bit(source);
                new_state.former_pawns.set_bit(target);
            }
        } else {
            // placement moves
            let mut inventory = new_state.inventory[new_state.side.index()];
            proof {
                crate::inventory::lemma_decrement_counts(inventory@, move_.piece, move_.piece);
            }
            inventory.decrement(move_.piece);
            new_state.set_own_inventory(inventory);
            let mut board = new_state.bitboards.get(move_.piece);
            board.set_bit(target);
            new_state.bitboards.set(move_.piece, board);
            let mut occupancy = new_state.occupancies.get(new_state.side);
            occupancy.set_bit(target);
            new_state.occupancies.set(new_state.side, occupancy);
        }
        new_state.side = new_state.side.opponent();
        new_state
    }

    // ------------------------------------------------------------------------
    // Legal moves
    // ------------------------------------------------------------------------

    /// Every pseudo-legal move of this position can be carried out.
    pub open spec fn moves_makeable(self) -> bool {
        forall|i: int| 0 <= i < self.pseudo_moves().len() ==> #[trigger] self.can_make(
            self.pseudo_moves()[i],
        )
    }

    /// After `m` the mover's own king is not attacked.
    pub open spec fn keeps_king_safe(self, m: Move) -> bool {
        !self.apply(m).in_check(self.turn())
    }

    /// The legal moves: the pseudo-legal moves, in generation order, that do
    /// not leave the mover's king attacked.
    pub open spec fn legal_moves(self) -> Seq<Move> {
        self.pseudo_moves().filter(|m: Move| self.keeps_king_safe(m))
    }

    /// The legal moves of the side to move, in generation order.
    pub fn generate_legal_moves(&self) -> (r: Vec<Move>)
        requires
            self.moves_makeable(),
        ensures
            r@ == self.legal_moves(),
    {
        let mut moves: Vec<Move> = Vec::with_capacity(64);
        self.generate_moves(&mut moves);
        let ghost pred = |m: Move| self.keeps_king_safe(m);
        let mut legal: Vec<Move> = Vec::with_capacity(32);
        let mut i: usize = 0;
        while i < moves.len()
            invariant
                i <= moves.len(),
                moves@ == self.pseudo_moves(),
                self.moves_makeable(),
                pred == (|m: Move| self.keeps_king_safe(m)),
                legal@ == moves@.take(i as int).filter(pred),
            decreases moves.len() - i,
        {
            let m = moves[i];
            assert(self.can_make(self.pseudo_moves()[i as int]));
            if !self.make_move(&m).detect_check(self.side) {
                legal.push(m);
            }
            proof {
                reveal_with_fuel(Seq::<_>::filter, 1);
                assert(moves@.take(i + 1).drop_last() =~= moves@.take(i as int));
            }
            i = i + 1;
        }
        assert(moves@.take(moves.len() as int) =~= moves@);
        legal
    }

    /// The legal moves, in generation order, each with the position it
    /// leads to.
    pub(crate) fn legal_successors(&self) -> (r: (Vec<Move>, Vec<GameState>))
        requires
            self.moves_makeable(),
        ensures
            r.0@ == self.legal_moves(),
            r.1@.len() == r.0@.len(),
            forall|i: int| 0 <= i < r.0@.len() ==> #[trigger] r.1@[i] == self.apply(r.0@[i]),
    {
        let mut moves: Vec<Move> = Vec::with_capacity(64);
        self.generate_moves(&mut moves);
        let ghost pred = |m: Move| self.keeps_king_safe(m);
        let mut legal: Vec<Move> = Vec::with_capacity(32);
        let mut states: Vec<GameState> = Vec::with_capacity(32);
        let mut i: usize = 0;
        while i < moves.len()
            invariant
                i <= moves.len(),
                moves@ == self.pseudo_moves(),
                self.moves_makeable(),
                pred == (|m: Move| self.keeps_king_safe(m)),
                legal@ == moves@.take(i as int).filter(pred),
                states@.len() == legal@.len(),
                forall|j: int| 0 <= j < legal@.len() ==> #[trigger] states@[j] == self.apply(legal@[j]),
            decreases moves.len() - i,
        {
            let m = moves[i];
            assert(self.can_make(self.pseudo_moves()[i as int]));
            let next = self.make_move(&m);
            if !next.detect_check(self.side) {
                legal.push(m);
                states.push(next);
            }
            proof {
                reveal_with_fuel(Seq::<_>::filter, 1);
                assert(moves@.take(i + 1).drop_last() =~= moves@.take(i as int));
            }
            i = i + 1;
        }
        assert(moves@.take(moves.len() as int) =~= moves@);
        (legal, states)
    }

    /// Every pseudo-legal move up to the first one that keeps the king safe
    /// can be carried out: what finding the first legal move needs.
    pub open spec fn first_legal_makeable(self) -> bool {
        forall|i: int|
            0 <= i < self.pseudo_moves().len() && (forall|j: int|
                0 <= j < i ==> !#[trigger] self.keeps_king_safe(self.pseudo_moves()[j]))
                ==> #[trigger] self.can_make(self.pseudo_moves()[i])
    }

    /// `Some(true)` when the side to move is checkmated, `Some(false)` when it
    /// is stalemated, `None` while it has a legal move. Moves are tried in
    /// generation order until the first legal one.
    pub fn detect_mate(&self) -> (r: Option<bool>)
        requires
            self.first_legal_makeable(),
        ensures
            r == if self.legal_moves().len() == 0 {
                Some(self.in_check(self.turn()))
            } else {
                None
            },
    {
        broadcast use vstd::seq_lib::group_filter_ensures;
        let mut moves: Vec<Move> = Vec::with_capacity(64);
        self.generate_moves(&mut moves);
        let ghost pred = |m: Move| self.keeps_king_safe(m);
        assert(self.legal_moves() == moves@.filter(pred));
        let mut i: usize = 0;
        while i < moves.len()
            invariant
                i <= moves.len(),
                moves@ == self.pseudo_moves(),
                self.first_legal_makeable(),
                pred == (|m: Move| self.keeps_king_safe(m)),
                forall|j: int| 0 <= j < i ==> !#[trigger] self.keeps_king_safe(moves@[j]),
            decreases moves.len() - i,
        {
            let m = moves[i];
            assert(self.can_make(self.pseudo_moves()[i as int]));
            if !self.make_move(&m).detect_check(self.side) {
                assert(pred(moves@[i as int]));
                assert(moves@.filter(pred).contains(m));
                return None;
            }
            i = i + 1;
        }
        proof {
            if moves@.filter(pred).len() > 0 {
                let first = moves@.filter(pred)[0];
                assert(moves@.filter(pred).contains(first));
                moves@.lemma_filter_contains_rev(pred, first);
                let k = choose|k: int| 0 <= k < moves@.len() && moves@[k] == first;
                assert(pred(first));
                assert(!self.keeps_king_safe(moves@[k]));
            }
        }
        Some(self.detect_check(self.side))  // checkmate if true else stalemate
    }

    /// When every pseudo-legal move can be made, so can those tried before
    /// the first legal move.
    pub proof fn lemma_makeable_first_legal(self)
        requires
            self.moves_makeable(),
        ensures
            self.first_legal_makeable(),
    {
    }

    // ------------------------------------------------------------------------
    // Well-formed positions
    // ------------------------------------------------------------------------

    /// How many kinds of piece stand on `t` (0 or 1 in a well-formed position).
    pub open spec fn kinds_on(self, t: int) -> int {
        (if is_set(self.board(Piece::King), t) { 1int } else { 0 })
        + (if is_set(self.board(Piece::Wazir), t) { 1int } else { 0 })
        + (if is_set(self.board(Piece::Ma), t) { 1int } else { 0 })
        + (if is_set(self.board(Piece::Ferz), t) { 1int } else { 0 })
        + (if is_set(self.board(Piece::Pawn), t) { 1int } else { 0 })
    }

    /// Square `t` belongs to at most one side, and holds exactly one piece when
    /// occupied and none when empty.
    pub open spec fn square_consistent(self, t: int) -> bool {
        &&& !(is_set(self.occ(Side::White), t) && is_set(self.occ(Side::Black), t))
        &&& self.kinds_on(t) == (if is_set(self.both(), t) { 1int } else { 0 })
    }

    /// Pieces of kind `p` that square `u` accounts for: a promoted piece counts
    /// as the pawn it will return as when captured.
    pub open spec fn units_at(self, p: Piece, u: int) -> int {
        if p == Piece::Pawn {
            (if is_set(self.board(Piece::Pawn), u) { 1int } else { 0 })
            + (if is_set(self.formers(), u) { 1int } else { 0 })
        } else if is_set(self.board(p), u) && !is_set(self.formers(), u) {
            1
        } else {
            0
        }
    }

    /// All pieces of kind `p` in the game: on the board and in both reserves.
    pub open spec fn material(self, p: Piece) -> int {
        sum_upto(16, |u: int| self.units_at(p, u)) + count_of(self.reserve(Side::White), p)
            + count_of(self.reserve(Side::Black), p)
    }

    /// A consistent position in which no reserve can overflow: at most three
    /// pieces of each kind exist.
    pub open spec fn wf(self) -> bool {
        &&& forall|t: int| 0 <= t < 16 ==> #[trigger] self.square_consistent(t)
        &&& self.material(Piece::Wazir) <= 3
        &&& self.material(Piece::Ma) <= 3
        &&& self.material(Piece::Ferz) <= 3
        &&& self.material(Piece::Pawn) <= 3
    }

    /// Every square marked as holding a promoted pawn holds a wazir, a ma or
    /// a ferz.
    pub open spec fn formers_placed(self) -> bool {
        forall|t: int| #[trigger] is_set(self.formers(), t) ==> is_set(self.board(Piece::Wazir), t)
            || is_set(self.board(Piece::Ma), t) || is_set(self.board(Piece::Ferz), t)
    }

    /// A well-formed position in which the side that just moved is not in
    /// check: the positions reached by play.
    pub open spec fn playable(self) -> bool {
        self.wf() && !self.in_check(self.turn().other())
    }

    /// What every generated move satisfies.
    pub open spec fn sound_move(self, m: Move) -> bool {
        let side = self.turn();
        let t = m.target.idx();
        match m.source {
            None => {
                &&& m.piece != Piece::King
                &&& count_of(self.reserve(side), m.piece) > 0
                &&& !is_set(self.both(), t)
                &&& !(m.piece == Piece::Pawn && (if side == Side::White { t <= 3 } else { t >= 12 }))
                &&& m.promoted_piece is None
                &&& !m.capture
            },
            Some(src) => {
                let s = src.idx();
                &&& self.own(m.piece, s)
                &&& !is_set(self.occ(side), t)
                &&& m.capture == is_set(self.occ(side.other()), t)
                &&& (m.capture ==> self.attacks_from(side.other(), s, t))
                &&& (m.promoted_piece matches Some(q) ==> (m.piece == Piece::Pawn && (q == Piece::Wazir
                    || q == Piece::Ferz || q == Piece::Ma)))
                &&& match m.piece {
                    Piece::King => king_adjacent(s, t),
                    Piece::Wazir => orth_adjacent(s, t),
                    Piece::Ferz => diag_adjacent(s, t),
                    Piece::Ma => ma_attack(s, self.both(), t),
                    Piece::Pawn => {
                        &&& (t == self.pawn_ahead(s) && !is_set(self.both(), t)) || (pawn_attack(
                            side == Side::White,
                            s,
                            t,
                        ) && m.capture)
                        &&& (m.promoted_piece is Some <==> row(t) == if side == Side::White { 0int } else { 3 })
                    },
                }
            },
        }
    }

    proof fn lemma_placements_sound(self, i: int)
        requires
            0 <= i < self.placements().len(),
        ensures
            self.sound_move(self.placements()[i]),
            self.placements()[i].source is None,
    {
        let outer = |k: int| self.placements_of(drop_order(k));
        assert(self.placements() == concat_range(4, outer));
        lemma_concat_index(4, outer, i);
        let (k, j) = choose|k: int, j: int|
            0 <= k < 4 && 0 <= j < outer(k).len() && concat_range(4, outer)[i] == #[trigger] outer(k)[j];
        let p = drop_order(k);
        let inner = |t: int| self.placement_at(p, t);
        assert(self.placements_of(p) == concat_range(16, inner));
        lemma_concat_index(16, inner, j);
        let (t, j2) = choose|t: int, j2: int|
            0 <= t < 16 && 0 <= j2 < inner(t).len() && concat_range(16, inner)[j] == #[trigger] inner(t)[j2];
        assert(self.can_place(p, t));
        assert(self.placements()[i] == drop_move(p, t));
    }

    proof fn lemma_king_steps_sound(self, i: int)
        requires
            0 <= i < self.king_steps().len(),
        ensures
            self.sound_move(self.king_steps()[i]),
            self.king_steps()[i].piece == Piece::King,
    {
        let outer = |s: int| self.king_moves_from(s);
        lemma_concat_index(16, outer, i);
        let (s, j) = choose|s: int, j: int|
            0 <= s < 16 && 0 <= j < outer(s).len() && concat_range(16, outer)[i] == #[trigger] outer(s)[j];
        let inner = |t: int| only_if(self.king_target(s, t), self.step_move(Piece::King, s, t));
        assert(self.king_moves_from(s) == concat_range(16, inner));
        lemma_concat_index(16, inner, j);
        let (t, j2) = choose|t: int, j2: int|
            0 <= t < 16 && 0 <= j2 < inner(t).len() && concat_range(16, inner)[j] == #[trigger] inner(t)[j2];
        assert(self.king_target(s, t));
        assert(self.king_steps()[i] == self.step_move(Piece::King, s, t));
        assert(self.attacks_from(self.turn().other(), s, t));
    }

    proof fn lemma_leaper_steps_sound(self, p: Piece, i: int)
        requires
            p == Piece::Wazir || p == Piece::Ferz,
            0 <= i < self.leaper_steps(p).len(),
        ensures
            self.sound_move(self.leaper_steps(p)[i]),
            self.leaper_steps(p)[i].piece == p,
    {
        let outer = |s: int| self.leaper_moves_from(p, s);
        lemma_concat_index(16, outer, i);
        let (s, j) = choose|s: int, j: int|
            0 <= s < 16 && 0 <= j < outer(s).len() && concat_range(16, outer)[i] == #[trigger] outer(s)[j];
        let inner = |t: int| only_if(
            Self::leaper_reach(p, s, t) && !is_set(self.occ(self.turn()), t),
            self.step_move(p, s, t),
        );
        assert(self.leaper_moves_from(p, s) == concat_range(16, inner));
        lemma_concat_index(16, inner, j);
        let (t, j2) = choose|t: int, j2: int|
            0 <= t < 16 && 0 <= j2 < inner(t).len() && concat_range(16, inner)[j] == #[trigger] inner(t)[j2];
        assert(Self::leaper_reach(p, s, t));
        assert(self.leaper_steps(p)[i] == self.step_move(p, s, t));
        assert(self.attacks_from(self.turn().other(), s, t));
    }

    proof fn lemma_ma_jumps_sound(self, i: int)
        requires
            0 <= i < self.ma_jumps().len(),
        ensures
            self.sound_move(self.ma_jumps()[i]),
            self.ma_jumps()[i].piece == Piece::Ma,
    {
        let outer = |s: int| self.ma_moves_from(s);
        lemma_concat_index(16, outer, i);
        let (s, j) = choose|s: int, j: int|
            0 <= s < 16 && 0 <= j < outer(s).len() && concat_range(16, outer)[i] == #[trigger] outer(s)[j];
        let inner = |t: int| only_if(
            ma_attack(s, self.both(), t) && !is_set(self.occ(self.turn()), t),
            self.step_move(Piece::Ma, s, t),
        );
        assert(self.ma_moves_from(s) == concat_range(16, inner));
        lemma_concat_index(16, inner, j);
        let (t, j2) = choose|t: int, j2: int|
            0 <= t < 16 && 0 <= j2 < inner(t).len() && concat_range(16, inner)[j] == #[trigger] inner(t)[j2];
        assert(ma_attack(s, self.both(), t));
        assert(self.ma_jumps()[i] == self.step_move(Piece::Ma, s, t));
        assert(self.attacks_from(self.turn().other(), s, t));
    }

    proof fn lemma_pawn_variants_sound(self, s: int, t: int, capture: bool, j: int)
        requires
            0 <= j < self.pawn_variants(s, t, capture).len(),
            self.own(Piece::Pawn, s),
            0 <= t < 16,
            !is_set(self.occ(self.turn()), t),
            capture == is_set(self.occ(self.turn().other()), t),
            capture ==> self.attacks_from(self.turn().other(), s, t),
            (t == self.pawn_ahead(s) && !is_set(self.both(), t)) || (pawn_attack(self.turn() == Side::White, s, t)
                && capture),
        ensures
            self.sound_move(self.pawn_variants(s, t, capture)[j]),
    {
        let white = self.turn() == Side::White;
        assert(0 <= s < 16);
        assert(self.pawn_promotes(s) <==> row(t) == if white { 0int } else { 3 });
    }

    proof fn lemma_pawn_steps_sound(self, i: int)
        requires
            self.wf(),
            0 <= i < self.pawn_steps().len(),
        ensures
            self.sound_move(self.pawn_steps()[i]),
    {
        let outer = |s: int| self.pawn_moves_from(s);
        lemma_concat_index(16, outer, i);
        let (s, j) = choose|s: int, j: int|
            0 <= s < 16 && 0 <= j < outer(s).len() && concat_range(16, outer)[i] == #[trigger] outer(s)[j];
        let push = if self.pawn_push_ok(s) {
            self.pawn_variants(s, self.pawn_ahead(s), false)
        } else {
            Seq::empty()
        };
        let inner = |t: int| self.pawn_capture_at(s, t);
        assert(self.pawn_moves_from(s) == push + concat_range(16, inner));
        if j < push.len() {
            assert(self.pawn_steps()[i] == push[j]);
            self.lemma_pawn_variants_sound(s, self.pawn_ahead(s), false, j);
        } else {
            let j1 = j - push.len();
            assert(self.pawn_steps()[i] == concat_range(16, inner)[j1]);
            lemma_concat_index(16, inner, j1);
            let (t, j2) = choose|t: int, j2: int|
                0 <= t < 16 && 0 <= j2 < inner(t).len() && concat_range(16, inner)[j1] == #[trigger] inner(t)[j2];
            assert(self.square_consistent(t));
            assert(self.attacks_from(self.turn().other(), s, t));
            self.lemma_pawn_variants_sound(s, t, true, j2);
        }
    }

    /// Every pseudo-legal move of a well-formed position is sound.
    pub proof fn lemma_pseudo_sound(self, i: int)
        requires
            self.wf(),
            0 <= i < self.pseudo_moves().len(),
        ensures
            self.sound_move(self.pseudo_moves()[i]),
    {
        let a = self.placements();
        let b = self.king_steps();
        let c = self.leaper_steps(Piece::Wazir);
        let d = self.leaper_steps(Piece::Ferz);
        let e = self.ma_jumps();
        let f = self.pawn_steps();
        let m = self.pseudo_moves()[i];
        if i < a.len() {
            assert(m == a[i]);
            self.lemma_placements_sound(i);
        } else if i < a.len() + b.len() {
            assert(m == b[i - a.len()]);
            self.lemma_king_steps_sound(i - a.len());
        } else if i < a.len() + b.len() + c.len() {
            assert(m == c[i - a.len() - b.len()]);
            self.lemma_leaper_steps_sound(Piece::Wazir, i - a.len() - b.len());
        } else if i < a.len() + b.len() + c.len() + d.len() {
            assert(m == d[i - a.len() - b.len() - c.len()]);
            self.lemma_leaper_steps_sound(Piece::Ferz, i - a.len() - b.len() - c.len());
        } else if i < a.len() + b.len() + c.len() + d.len() + e.len() {
            assert(m == e[i - a.len() - b.len() - c.len() - d.len()]);
            self.lemma_ma_jumps_sound(i - a.len() - b.len() - c.len() - d.len());
        } else {
            assert(m == f[i - a.len() - b.len() - c.len() - d.len() - e.len()]);
            self.lemma_pawn_steps_sound(i - a.len() - b.len() - c.len() - d.len() - e.len());
        }
    }

    /// In a well-formed position each kind's reserve count is at most its
    /// material less what stands on `u`.
    proof fn lemma_reserve_room(self, p: Piece, u: int)
        requires
            self.wf(),
            p != Piece::King,
            0 <= u < 16,
            self.units_at(p, u) >= 1,
        ensures
            count_of(self.reserve(self.turn()), p) <= 2,
    {
        let f = |v: int| self.units_at(p, v);
        assert forall|v: int| 0 <= v < 16 implies #[trigger] f(v) >= 0 by {}
        lemma_sum_ge_term(16, f, u);
        assert(self.material(p) <= 3);
    }

    /// In a playable position every sound move can be made.
    pub proof fn lemma_sound_can_make(self, m: Move)
        requires
            self.playable(),
            self.sound_move(m),
        ensures
            self.can_make(m),
    {
        if let Some(src) = m.source {
            if m.capture {
                let s = src.idx();
                let t = m.target.idx();
                let side = self.turn();
                let enemy = side.other();
                assert(self.square_consistent(t));
                assert(self.piece_on(t) is Some);
                let p = self.piece_on(t).unwrap();
                if p == Piece::King {
                    assert(self.threatened(enemy, t));
                    assert(is_set(self.board(Piece::King) & self.occ(enemy), t));
                    assert(self.in_check(enemy));
                }
                let spoil = self.spoils(t, p);
                assert(self.units_at(spoil, t) >= 1);
                self.lemma_reserve_room(spoil, t);
                crate::inventory::lemma_increment_counts(self.reserve(side), spoil, spoil);
            }
        }
    }

    /// In a playable position every pseudo-legal move can be made.
    pub proof fn lemma_playable_moves_makeable(self)
        requires
            self.playable(),
        ensures
            self.moves_makeable(),
    {
        assert forall|i: int| 0 <= i < self.pseudo_moves().len() implies #[trigger] self.can_make(
            self.pseudo_moves()[i],
        ) by {
            self.lemma_pseudo_sound(i);
            self.lemma_sound_can_make(self.pseudo_moves()[i]);
        }
    }

    /// What a drop changes.
    pub proof fn lemma_apply_drop(self, m: Move)
        requires
            m.source is None,
        ensures
            ({
                let a = self.apply(m);
                let t = m.target.idx();
                let side = self.turn();
                &&& forall|q: Piece| #[trigger] a.board(q) == if q == m.piece {
                    add_sq(self.board(q), t)
                } else {
                    self.board(q)
                }
                &&& a.occ(side) == add_sq(self.occ(side), t)
                &&& a.occ(side.other()) == self.occ(side.other())
                &&& a.formers() == self.formers()
                &&& a.reserve(side) == (self.reserve(side) - unit(m.piece)) as u8
                &&& a.reserve(side.other()) == self.reserve(side.other())
                &&& a.turn() == side.other()
            }),
    {
        broadcast use Inventory::lemma_from_raw_view;
    }

    /// What taking the piece on `t` changes.
    pub proof fn lemma_captured_on(self, t: int)
        requires
            self.piece_on(t) is Some,
        ensures
            ({
                let c = self.captured_on(t);
                let side = self.turn();
                let cap = self.piece_on(t).unwrap();
                &&& forall|q: Piece| #[trigger] c.board(q) == if q == cap {
                    del_sq(self.board(q), t)
                } else {
                    self.board(q)
                }
                &&& c.occ(side) == self.occ(side)
                &&& c.occ(side.other()) == del_sq(self.occ(side.other()), t)
                &&& c.formers() == if is_set(self.formers(), t) {
                    del_sq(self.formers(), t)
                } else {
                    self.formers()
                }
                &&& c.reserve(side) == (self.reserve(side) + unit(self.spoils(t, cap))) as u8
                &&& c.reserve(side.other()) == self.reserve(side.other())
                &&& c.turn() == side
            }),
    {
        broadcast use Inventory::lemma_from_raw_view;
    }

    /// What moving a piece changes, after any capture.
    #[verifier::spinoff_prover]
    #[verifier::rlimit(40)]
    pub proof fn lemma_apply_step(self, m: Move)
        requires
            m.source is Some,
        ensures
            ({
                let a = self.apply(m);
                let t = m.target.idx();
                let s = m.source.unwrap().idx();
                let side = self.turn();
                let g1 = if m.capture {
                    self.captured_on(t)
                } else {
                    self
                };
                let lands = match m.promoted_piece {
                    Some(q) => q,
                    None => m.piece,
                };
                let f2 = if m.promoted_piece is Some {
                    add_sq(g1.formers(), t)
                } else {
                    g1.formers()
                };
                &&& forall|q: Piece| #[trigger] a.board(q) == {
                    let h = if q == m.piece {
                        del_sq(g1.board(q), s)
                    } else {
                        g1.board(q)
                    };
                    if q == lands {
                        add_sq(h, t)
                    } else {
                        h
                    }
                }
                &&& a.occ(side) == add_sq(del_sq(g1.occ(side), s), t)
                &&& a.occ(side.other()) == g1.occ(side.other())
                &&& a.formers() == if is_set(f2, s) {
                    add_sq(del_sq(f2, s), t)
                } else {
                    f2
                }
                &&& a.reserve(side) == g1.reserve(side)
                &&& a.reserve(side.other()) == g1.reserve(side.other())
                &&& a.turn() == side.other()
                &&& g1.turn() == side
            }),
    {
        let t = m.target.idx();
        let s = m.source.unwrap().idx();
        let side = self.turn();
        let g1 = if m.capture {
            self.captured_on(t)
        } else {
            self
        };
        let h = g1.with_board(m.piece, del_sq(g1.board(m.piece), s));
        assert forall|q: Piece| #[trigger] h.board(q) == if q == m.piece {
            del_sq(g1.board(q), s)
        } else {
            g1.board(q)
        } by {}
        let g2 = match m.promoted_piece {
            Some(q) => h.with_board(q, add_sq(h.board(q), t)).with_formers(add_sq(h.formers(), t)),
            None => h.with_board(m.piece, add_sq(h.board(m.piece), t)),
        };
        let lands = match m.promoted_piece {
            Some(q) => q,
            None => m.piece,
        };
        assert forall|q: Piece| #[trigger] g2.board(q) == if q == lands {
            add_sq(h.board(q), t)
        } else {
            h.board(q)
        } by {}
        assert(g2.occ(side) == g1.occ(side) && g2.occ(side.other()) == g1.occ(side.other()));
        assert(g2.inventory == g1.inventory && g2.side == g1.side);
        let g3 = g2.with_occ(side, add_sq(del_sq(g2.occ(side), s), t));
        assert(g3.bitboards == g2.bitboards && g3.former_pawns == g2.former_pawns);
        assert(g3.inventory == g1.inventory);
        let moved = if is_set(g3.formers(), s) {
            g3.with_formers(add_sq(del_sq(g3.formers(), s), t))
        } else {
            g3
        };
        assert(moved.bitboards == g2.bitboards && moved.occupancies == g3.occupancies);
        assert(moved.inventory == g1.inventory);
        assert(self.apply(m) == moved.with_turn(side.other()));
    }

    /// A sound move keeps every square consistent.
    #[verifier::spinoff_prover]
    #[verifier::rlimit(60)]
    proof fn lemma_apply_square(self, m: Move, u: int)
        requires
            self.wf(),
            self.sound_move(m),
            self.can_make(m),
            0 <= u < 16,
        ensures
            self.apply(m).square_consistent(u),
    {
        let a = self.apply(m);
        let t = m.target.idx();
        let side = self.turn();
        assert(self.square_consistent(u));
        assert(self.square_consistent(t));
        match m.source {
            None => {
                self.lemma_apply_drop(m);
                assert(a.board(Piece::King) == if Piece::King == m.piece { add_sq(self.board(Piece::King), t) } else { self.board(Piece::King) });
                assert(a.board(Piece::Wazir) == if Piece::Wazir == m.piece { add_sq(self.board(Piece::Wazir), t) } else { self.board(Piece::Wazir) });
                assert(a.board(Piece::Ma) == if Piece::Ma == m.piece { add_sq(self.board(Piece::Ma), t) } else { self.board(Piece::Ma) });
                assert(a.board(Piece::Ferz) == if Piece::Ferz == m.piece { add_sq(self.board(Piece::Ferz), t) } else { self.board(Piece::Ferz) });
                assert(a.board(Piece::Pawn) == if Piece::Pawn == m.piece { add_sq(self.board(Piece::Pawn), t) } else { self.board(Piece::Pawn) });
                if side == Side::White {
                    assert(a.occ(Side::White) == add_sq(self.occ(Side::White), t));
                    assert(a.occ(Side::Black) == self.occ(Side::Black));
                } else {
                    assert(a.occ(Side::Black) == add_sq(self.occ(Side::Black), t));
                    assert(a.occ(Side::White) == self.occ(Side::White));
                }
            },
            Some(src) => {
                let s = src.idx();
                assert(self.square_consistent(s));
                self.lemma_apply_step(m);
                let g1 = if m.capture {
                    self.captured_on(t)
                } else {
                    self
                };
                if m.capture {
                    self.lemma_captured_on(t);
                }
                assert(g1.square_consistent(u) || u == t);
                assert(g1.square_consistent(s));
                assert(!is_set(g1.both(), t));
                let lands = match m.promoted_piece {
                    Some(q) => q,
                    None => m.piece,
                };
                assert(is_set(g1.board(m.piece), s));
                let bk = a.board(Piece::King);
                let bw = a.board(Piece::Wazir);
                let bm = a.board(Piece::Ma);
                let bf = a.board(Piece::Ferz);
                let bp = a.board(Piece::Pawn);
                assert(is_set(bk, u) == if u == t { lands == Piece::King } else if u == s { false } else { is_set(g1.board(Piece::King), u) });
                assert(is_set(bw, u) == if u == t { lands == Piece::Wazir } else if u == s { false } else { is_set(g1.board(Piece::Wazir), u) });
                assert(is_set(bm, u) == if u == t { lands == Piece::Ma } else if u == s { false } else { is_set(g1.board(Piece::Ma), u) });
                assert(is_set(bf, u) == if u == t { lands == Piece::Ferz } else if u == s { false } else { is_set(g1.board(Piece::Ferz), u) });
                assert(is_set(bp, u) == if u == t { lands == Piece::Pawn } else if u == s { false } else { is_set(g1.board(Piece::Pawn), u) });
                assert(is_set(a.occ(side), u) == if u == t { true } else if u == s { false } else { is_set(g1.occ(side), u) });
                assert(is_set(a.occ(side.other()), u) == if u == t { false } else if u == s { false } else { is_set(g1.occ(side.other()), u) });
                if side == Side::White {
                    assert(a.both() == a.occ(side) | a.occ(side.other()));
                } else {
                    assert(a.both() == a.occ(side.other()) | a.occ(side));
                }
            },
        }
    }

    /// The counts of the reserves of both sides.
    pub open spec fn reserve_counts(self, p: Piece) -> int {
        count_of(self.reserve(Side::White), p) + count_of(self.reserve(Side::Black), p)
    }

    pub open spec fn board_units(self, p: Piece) -> int {
        sum_upto(16, |u: int| self.units_at(p, u))
    }

    /// Two positions whose units differ only on `a` and `b`.
    proof fn lemma_units_frame(self, other: GameState, p: Piece, a: int, b: int)
        requires
            0 <= a < 16,
            0 <= b < 16,
            a != b,
            forall|u: int| 0 <= u < 16 && u != a && u != b ==> #[trigger] other.units_at(p, u)
                == self.units_at(p, u),
        ensures
            other.board_units(p) - self.board_units(p) == (other.units_at(p, a) - self.units_at(p, a))
                + (other.units_at(p, b) - self.units_at(p, b)),
    {
        let f = |u: int| self.units_at(p, u);
        let g = |u: int| other.units_at(p, u);
        assert forall|u: int| 0 <= u < 16 && u != a && u != b implies #[trigger] f(u) == g(u) by {}
        lemma_sum_frame(16, f, g, a, b);
    }

    /// Two positions whose units differ only on `a`.
    proof fn lemma_units_frame1(self, other: GameState, p: Piece, a: int)
        requires
            0 <= a < 16,
            forall|u: int| 0 <= u < 16 && u != a ==> #[trigger] other.units_at(p, u) == self.units_at(
                p,
                u,
            ),
        ensures
            other.board_units(p) - self.board_units(p) == other.units_at(p, a) - self.units_at(p, a),
    {
        let f = |u: int| self.units_at(p, u);
        let g = |u: int| other.units_at(p, u);
        assert forall|u: int| 0 <= u < 16 && u != a implies #[trigger] f(u) == g(u) by {}
        lemma_sum_same(16, f, g, a);
    }

    /// A drop does not create material.
    proof fn lemma_material_drop(self, m: Move, p: Piece)
        requires
            self.wf(),
            self.sound_move(m),
            m.source is None,
            p != Piece::King,
        ensures
            self.apply(m).material(p) <= self.material(p),
            self.formers_placed() ==> self.apply(m).material(p) == self.material(p)
                && self.apply(m).formers_placed(),
    {
        let a = self.apply(m);
        let t = m.target.idx();
        let side = self.turn();
        self.lemma_apply_drop(m);
        if self.formers_placed() {
            assert(self.square_consistent(t));
            assert(!is_set(self.formers(), t));
            assert(self.units_at(p, t) == 0);
            assert(a.units_at(p, t) == if p == m.piece { 1int } else { 0 });
            assert forall|u: int| #[trigger] is_set(a.formers(), u) implies is_set(a.board(Piece::Wazir), u)
                || is_set(a.board(Piece::Ma), u) || is_set(a.board(Piece::Ferz), u) by {
                assert(is_set(self.formers(), u));
            }
        }
        assert(a.board(p) == if p == m.piece { add_sq(self.board(p), t) } else { self.board(p) });
        assert(a.board(Piece::Pawn) == if Piece::Pawn == m.piece { add_sq(self.board(Piece::Pawn), t) } else { self.board(Piece::Pawn) });
        assert(self.square_consistent(t));
        assert forall|u: int| 0 <= u < 16 && u != t implies #[trigger] a.units_at(p, u) == self.units_at(p, u) by {}
        self.lemma_units_frame1(a, p, t);
        crate::inventory::lemma_decrement_counts(self.reserve(side), m.piece, p);
        if side == Side::White {
            assert(a.reserve_counts(p) == self.reserve_counts(p) - if p == m.piece { 1int } else { 0 });
        } else {
            assert(a.reserve_counts(p) == self.reserve_counts(p) - if p == m.piece { 1int } else { 0 });
        }
    }

    /// Taking a piece moves its material into the reserve.
    proof fn lemma_material_capture(self, t: int, p: Piece)
        requires
            self.wf(),
            0 <= t < 16,
            self.piece_on(t) is Some,
            self.piece_on(t).unwrap() != Piece::King,
            self.reserve(self.turn()) + unit(self.spoils(t, self.piece_on(t).unwrap())) <= 255,
            p != Piece::King,
        ensures
            self.captured_on(t).material(p) <= self.material(p),
            self.formers_placed() ==> self.captured_on(t).material(p) == self.material(p)
                && self.captured_on(t).formers_placed(),
    {
        let c = self.captured_on(t);
        let side = self.turn();
        let cap = self.piece_on(t).unwrap();
        let spoil = self.spoils(t, cap);
        self.lemma_captured_on(t);
        assert(c.board(p) == if p == cap { del_sq(self.board(p), t) } else { self.board(p) });
        assert(c.board(Piece::Pawn) == if Piece::Pawn == cap { del_sq(self.board(Piece::Pawn), t) } else { self.board(Piece::Pawn) });
        assert(c.board(cap) == del_sq(self.board(cap), t));
        assert(self.square_consistent(t));
        assert forall|u: int| 0 <= u < 16 && u != t implies #[trigger] c.units_at(p, u) == self.units_at(p, u) by {}
        self.lemma_units_frame1(c, p, t);
        assert(self.units_at(spoil, t) >= 1);
        self.lemma_reserve_room(spoil, t);
        crate::inventory::lemma_increment_counts(self.reserve(side), spoil, p);
        if side == Side::White {
            assert(c.reserve_counts(p) == self.reserve_counts(p) + if p == spoil { 1int } else { 0 });
        } else {
            assert(c.reserve_counts(p) == self.reserve_counts(p) + if p == spoil { 1int } else { 0 });
        }
        if self.formers_placed() {
            assert(c.units_at(p, t) == 0);
            assert(self.units_at(p, t) == if p == spoil { 1int } else { 0 });
            assert forall|u: int| #[trigger] is_set(c.formers(), u) implies is_set(c.board(Piece::Wazir), u)
                || is_set(c.board(Piece::Ma), u) || is_set(c.board(Piece::Ferz), u) by {
                assert(is_set(self.formers(), u));
            }
        }
    }

    /// The position after the capture part of a move, if any.
    pub open spec fn after_capture(self, m: Move) -> GameState {
        if m.capture {
            self.captured_on(m.target.idx())
        } else {
            self
        }
    }

    /// After any capture, the source holds the moving piece alone and the
    /// target is empty.
    proof fn lemma_after_capture_squares(self, m: Move)
        requires
            self.wf(),
            self.sound_move(m),
            self.can_make(m),
            m.source is Some,
        ensures
            ({
                let g1 = self.after_capture(m);
                let s = m.source.unwrap().idx();
                let t = m.target.idx();
                &&& forall|q: Piece| #[trigger] is_set(g1.board(q), s) == (q == m.piece)
                &&& forall|q: Piece| !is_set(#[trigger] g1.board(q), t)
                &&& g1.turn() == self.turn()
            }),
    {
        let s = m.source.unwrap().idx();
        let t = m.target.idx();
        let g1 = self.after_capture(m);
        assert(self.square_consistent(s));
        assert(self.square_consistent(t));
        if m.capture {
            self.lemma_captured_on(t);
        }
        assert forall|q: Piece| #[trigger] is_set(g1.board(q), s) == (q == m.piece) by {}
        assert forall|q: Piece| !is_set(#[trigger] g1.board(q), t) by {}
    }

    /// Moving a piece does not create material.
    proof fn lemma_material_step(self, m: Move, p: Piece)
        requires
            self.wf(),
            self.sound_move(m),
            self.can_make(m),
            m.source is Some,
            p != Piece::King,
        ensures
            self.apply(m).material(p) <= self.after_capture(m).material(p),
            self.after_capture(m).formers_placed() ==> self.apply(m).material(p)
                == self.after_capture(m).material(p) && self.apply(m).formers_placed(),
    {
        let a = self.apply(m);
        let g1 = self.after_capture(m);
        let s = m.source.unwrap().idx();
        let t = m.target.idx();
        self.lemma_after_capture_squares(m);
        self.lemma_apply_step(m);
        let lands = match m.promoted_piece {
            Some(q) => q,
            None => m.piece,
        };
        assert(a.board(p) == {
            let h = if p == m.piece { del_sq(g1.board(p), s) } else { g1.board(p) };
            if p == lands { add_sq(h, t) } else { h }
        });
        assert(a.board(Piece::Pawn) == {
            let h = if Piece::Pawn == m.piece { del_sq(g1.board(Piece::Pawn), s) } else { g1.board(Piece::Pawn) };
            if Piece::Pawn == lands { add_sq(h, t) } else { h }
        });
        assert(is_set(g1.board(p), s) == (p == m.piece));
        assert(is_set(g1.board(Piece::Pawn), s) == (Piece::Pawn == m.piece));
        assert(!is_set(g1.board(p), t));
        assert(!is_set(g1.board(Piece::Pawn), t));
        assert(!is_set(a.formers(), s));
        assert(is_set(a.formers(), t) == (m.promoted_piece is Some || is_set(g1.formers(), t)
            || is_set(g1.formers(), s)));
        assert forall|u: int| 0 <= u < 16 && u != s && u != t implies #[trigger] a.units_at(p, u)
            == g1.units_at(p, u) by {}
        g1.lemma_units_frame(a, p, s, t);
        assert(a.reserve_counts(p) == g1.reserve_counts(p));
        if g1.formers_placed() {
            assert(!is_set(g1.formers(), t));
            assert(is_set(g1.formers(), s) ==> m.promoted_piece is None && lands != Piece::Pawn);
            assert(a.units_at(p, s) == 0);
            assert(g1.units_at(p, t) == 0);
            assert(a.units_at(p, t) == g1.units_at(p, s));
            assert forall|u: int| #[trigger] is_set(a.formers(), u) implies is_set(a.board(Piece::Wazir), u)
                || is_set(a.board(Piece::Ma), u) || is_set(a.board(Piece::Ferz), u) by {
                if u != t {
                    assert(is_set(g1.formers(), u));
                }
            }
        }
    }

    /// A sound move never creates material.
    proof fn lemma_material_apply(self, m: Move, p: Piece)
        requires
            self.wf(),
            self.sound_move(m),
            self.can_make(m),
            p != Piece::King,
        ensures
            self.apply(m).material(p) <= self.material(p),
            self.formers_placed() ==> self.apply(m).material(p) == self.material(p)
                && self.apply(m).formers_placed(),
    {
        match m.source {
            None => self.lemma_material_drop(m, p),
            Some(_) => {
                self.lemma_material_step(m, p);
                if m.capture {
                    assert(self.square_consistent(m.target.idx()));
                    self.lemma_material_capture(m.target.idx(), p);
                }
            },
        }
    }

    /// A legal move of a playable position is sound.
    proof fn lemma_legal_sound(self, m: Move)
        requires
            self.playable(),
            self.legal_moves().contains(m),
        ensures
            self.sound_move(m),
            self.can_make(m),
    {
        let pred = |x: Move| self.keeps_king_safe(x);
        broadcast use vstd::seq_lib::group_filter_ensures;
        self.pseudo_moves().lemma_filter_contains_rev(pred, m);
        let i = choose|i: int| 0 <= i < self.pseudo_moves().len() && self.pseudo_moves()[i] == m;
        self.lemma_pseudo_sound(i);
        self.lemma_sound_can_make(m);
    }

    /// Every legal move keeps the number of pieces of each kind in the game,
    /// on the board and in both reserves, a promoted piece counting as the
    /// pawn it was; and the promotion marks stay on wazirs, mas and ferzes.
    pub proof fn lemma_legal_move_conserves_material(self, m: Move)
        requires
            self.playable(),
            self.formers_placed(),
            self.legal_moves().contains(m),
        ensures
            self.apply(m).formers_placed(),
            forall|p: Piece| p != Piece::King ==> #[trigger] self.apply(m).material(p) == self.material(p),
    {
        self.lemma_legal_sound(m);
        self.lemma_material_apply(m, Piece::Wazir);
        self.lemma_material_apply(m, Piece::Ma);
        self.lemma_material_apply(m, Piece::Ferz);
        self.lemma_material_apply(m, Piece::Pawn);
    }

    /// A sound move keeps the position well formed.
    pub proof fn lemma_apply_wf(self, m: Move)
        requires
            self.wf(),
            self.sound_move(m),
            self.can_make(m),
        ensures
            self.apply(m).wf(),
    {
        assert forall|u: int| 0 <= u < 16 implies #[trigger] self.apply(m).square_consistent(u) by {
            self.lemma_apply_square(m, u);
        }
        self.lemma_material_apply(m, Piece::Wazir);
        self.lemma_material_apply(m, Piece::Ma);
        self.lemma_material_apply(m, Piece::Ferz);
        self.lemma_material_apply(m, Piece::Pawn);
    }

    /// Playing a legal move from a playable position reaches a playable
    /// position.
    pub proof fn lemma_legal_move_keeps_playable(self, m: Move)
        requires
            self.playable(),
            self.legal_moves().contains(m),
        ensures
            self.apply(m).playable(),
            self.can_make(m),
    {
        let pred = |x: Move| self.keeps_king_safe(x);
        broadcast use vstd::seq_lib::group_filter_ensures;
        let legal = self.pseudo_moves().filter(pred);
        assert(legal.contains(m));
        self.pseudo_moves().lemma_filter_contains_rev(pred, m);
        let k = choose|k: int| 0 <= k < legal.len() && legal[k] == m;
        assert(pred(legal[k]));
        let i = choose|i: int| 0 <= i < self.pseudo_moves().len() && self.pseudo_moves()[i] == m;
        self.lemma_pseudo_sound(i);
        self.lemma_sound_can_make(m);
        self.lemma_apply_wf(m);
        self.lemma_apply_turn(m);
    }

    /// Dropping `p` on square `t` is legal exactly when `p` is not a king,
    /// the reserve of the side to move holds one, the square is empty and not
    /// a pawn's last rank, and the drop leaves the mover's king unattacked.
    pub proof fn lemma_legal_drops(self, p: Piece, t: int)
        requires
            self.playable(),
            0 <= t < 16,
        ensures
            self.legal_moves().contains(
                Move { source: None, target: square_at(t), piece: p, promoted_piece: None, capture: false },
            ) <==> (p != Piece::King && count_of(self.reserve(self.turn()), p) > 0 && !is_set(
                self.occ(Side::White) | self.occ(Side::Black),
                t,
            ) && !(p == Piece::Pawn && row(t) == if self.turn() == Side::White { 0int } else { 3 })
                && !self.apply(
                Move { source: None, target: square_at(t), piece: p, promoted_piece: None, capture: false },
            ).in_check(self.turn())),
    {
        assert(self.can_place(p, t) <==> (!is_set(self.both(), t) && !(p == Piece::Pawn && row(t) == if self.turn()
            == Side::White { 0int } else { 3 })));
        let d = drop_move(p, t);
        let pred = |x: Move| self.keeps_king_safe(x);
        broadcast use vstd::seq_lib::group_filter_ensures;
        if self.legal_moves().contains(d) {
            self.lemma_legal_sound(d);
            self.pseudo_moves().lemma_filter_contains_rev(pred, d);
            assert(d.target.idx() == t);
        }
        if p != Piece::King && count_of(self.reserve(self.turn()), p) > 0 && self.can_place(p, t)
            && self.keeps_king_safe(d) {
            let k: int = if p == Piece::Wazir { 0 } else if p == Piece::Ma { 1 } else if p == Piece::Ferz {
                2
            } else {
                3
            };
            assert(drop_order(k) == p);
            let inner = |u: int| self.placement_at(p, u);
            assert(inner(t) == seq![d]);
            assert(inner(t)[0] == d);
            lemma_concat_contains(16, inner, t, d);
            assert(self.placements_of(p) == concat_range(16, inner));
            let outer = |j: int| self.placements_of(drop_order(j));
            assert(outer(k) == self.placements_of(p));
            lemma_concat_contains(4, outer, k, d);
            assert(self.placements() == concat_range(4, outer));
            let ps = self.pseudo_moves();
            let pl = self.placements();
            let i = choose|i: int| 0 <= i < pl.len() && #[trigger] pl[i] == d;
            assert(ps == pl + (self.king_steps() + self.leaper_steps(Piece::Wazir)
                + self.leaper_steps(Piece::Ferz) + self.ma_jumps() + self.pawn_steps()));
            assert(ps[i] == d);
            assert(ps.contains(d));
            assert(pred(d));
            assert(ps.filter(pred).contains(d));
        }
    }

    /// The pieces other than kings in the game: those on the board and
    /// those in both reserves.
    pub open spec fn pieces_in_game(self) -> int {
        sum_upto(16, |u: int| if is_set(self.both(), u) && !is_set(self.board(Piece::King), u) { 1int } else { 0 })
            + self.reserve_counts(Piece::Wazir) + self.reserve_counts(Piece::Ma) + self.reserve_counts(Piece::Ferz)
            + self.reserve_counts(Piece::Pawn)
    }

    /// With promotion marks on wazirs, mas and ferzes, the pieces in the game
    /// are the material of the four kinds together.
    proof fn lemma_pieces_material(self)
        requires
            self.wf(),
            self.formers_placed(),
        ensures
            self.pieces_in_game() == self.material(Piece::Wazir) + self.material(Piece::Ma) + self.material(
                Piece::Ferz,
            ) + self.material(Piece::Pawn),
    {
        let w = |u: int| self.units_at(Piece::Wazir, u);
        let m = |u: int| self.units_at(Piece::Ma, u);
        let f = |u: int| self.units_at(Piece::Ferz, u);
        let p = |u: int| self.units_at(Piece::Pawn, u);
        let s1 = |u: int| w(u) + m(u);
        let s2 = |u: int| s1(u) + f(u);
        let s3 = |u: int| s2(u) + p(u);
        let nk = |u: int| if is_set(self.both(), u) && !is_set(self.board(Piece::King), u) { 1int } else { 0 };
        lemma_sum_add(16, w, m, s1);
        lemma_sum_add(16, s1, f, s2);
        lemma_sum_add(16, s2, p, s3);
        assert forall|u: int| 0 <= u < 16 implies #[trigger] s3(u) == nk(u) by {
            assert(self.square_consistent(u));
            if is_set(self.formers(), u) {
                assert(is_set(self.board(Piece::Wazir), u) || is_set(self.board(Piece::Ma), u) || is_set(
                    self.board(Piece::Ferz),
                    u,
                ));
            }
        }
        lemma_sum_equal(16, s3, nk);
    }

    /// Every legal move keeps the number of pieces in the game, kings aside:
    /// a drop moves one from a reserve to the board, a capture one from the
    /// board to a reserve, and a promotion turns a pawn into another piece.
    pub proof fn lemma_legal_move_keeps_piece_count(self, m: Move)
        requires
            self.playable(),
            self.formers_placed(),
            self.legal_moves().contains(m),
        ensures
            self.apply(m).pieces_in_game() == self.pieces_in_game(),
    {
        self.lemma_legal_move_conserves_material(m);
        self.lemma_legal_move_keeps_playable(m);
        self.lemma_pieces_material();
        self.apply(m).lemma_pieces_material();
        assert(self.apply(m).material(Piece::Wazir) == self.material(Piece::Wazir));
        assert(self.apply(m).material(Piece::Ma) == self.material(Piece::Ma));
        assert(self.apply(m).material(Piece::Ferz) == self.material(Piece::Ferz));
        assert(self.apply(m).material(Piece::Pawn) == self.material(Piece::Pawn));
    }

    /// A promoting pawn move among the pawn moves comes with all three
    /// promotion choices.
    proof fn lemma_pawn_promotion_variants(self, i: int, q: Piece)
        requires
            0 <= i < self.pawn_steps().len(),
            self.pawn_steps()[i].promoted_piece is Some,
            q == Piece::Wazir || q == Piece::Ferz || q == Piece::Ma,
        ensures
            self.pawn_steps().contains(Move { promoted_piece: Some(q), ..self.pawn_steps()[i] }),
    {
        let m = self.pawn_steps()[i];
        let m2 = Move { promoted_piece: Some(q), ..m };
        let outer = |s: int| self.pawn_moves_from(s);
        lemma_concat_index(16, outer, i);
        let (s, j) = choose|s: int, j: int|
            0 <= s < 16 && 0 <= j < outer(s).len() && concat_range(16, outer)[i] == #[trigger] outer(s)[j];
        assert(self.own(Piece::Pawn, s));
        let push = if self.pawn_push_ok(s) {
            self.pawn_variants(s, self.pawn_ahead(s), false)
        } else {
            Seq::empty()
        };
        let inner = |t: int| self.pawn_capture_at(s, t);
        let caps = concat_range(16, inner);
        assert(self.pawn_moves_from(s) == push + caps);
        let k: int = if q == Piece::Wazir { 0 } else if q == Piece::Ferz { 1 } else { 2 };
        if j < push.len() {
            assert(m == push[j]);
            assert(self.pawn_promotes(s));
            assert(push[k] == m2);
            assert((push + caps)[k] == m2);
        } else {
            let j1 = j - push.len();
            assert(m == caps[j1]);
            lemma_concat_index(16, inner, j1);
            let (t, j2) = choose|t: int, j2: int|
                0 <= t < 16 && 0 <= j2 < inner(t).len() && concat_range(16, inner)[j1] == #[trigger] inner(t)[j2];
            assert(self.pawn_promotes(s));
            assert(inner(t)[k] == m2);
            lemma_concat_contains(16, inner, t, m2);
            let c = choose|c: int| 0 <= c < caps.len() && #[trigger] caps[c] == m2;
            assert((push + caps)[push.len() + c] == m2);
        }
        assert(outer(s).contains(m2));
        lemma_concat_contains(16, outer, s, m2);
    }

    /// Choosing another promotion piece changes nothing the mover's king
    /// safety depends on.
    #[verifier::spinoff_prover]
    #[verifier::rlimit(60)]
    proof fn lemma_promotion_choice_safe(self, m: Move, q: Piece)
        requires
            self.wf(),
            self.sound_move(m),
            self.can_make(m),
            m.source is Some,
            m.promoted_piece is Some,
            q == Piece::Wazir || q == Piece::Ferz || q == Piece::Ma,
        ensures
            self.keeps_king_safe(Move { promoted_piece: Some(q), ..m }) == self.keeps_king_safe(m),
    {
        let m2 = Move { promoted_piece: Some(q), ..m };
        let a = self.apply(m);
        let a2 = self.apply(m2);
        let t = m.target.idx();
        let mover = self.turn();
        let enemy = mover.other();
        self.lemma_apply_step(m);
        self.lemma_apply_step(m2);
        let q0 = m.promoted_piece.unwrap();
        let g1 = self.after_capture(m);
        if m.capture {
            self.lemma_captured_on(t);
        }
        assert(!is_set(g1.occ(enemy), t));
        assert(a.occ(mover) == a2.occ(mover));
        assert(a.occ(enemy) == a2.occ(enemy));
        assert(a.board(Piece::King) == a2.board(Piece::King));
        assert(a.both() == a2.both());
        assert(!is_set(a.occ(enemy), t));
        assert forall|p: Piece, u: int| #[trigger] is_set(a.board(p) & a.occ(enemy), u) == is_set(
            a2.board(p) & a2.occ(enemy),
            u,
        ) by {
            if u != t {
                assert(is_set(a.board(p), u) == is_set(a2.board(p), u));
            }
        }
        assert forall|u: int, v: int| #[trigger] a.attacks_from(mover, u, v) == a2.attacks_from(mover, u, v) by {
            assert(is_set(a.board(Piece::King) & a.occ(enemy), u) == is_set(a2.board(Piece::King) & a2.occ(enemy), u));
            assert(is_set(a.board(Piece::Wazir) & a.occ(enemy), u) == is_set(a2.board(Piece::Wazir) & a2.occ(enemy), u));
            assert(is_set(a.board(Piece::Ferz) & a.occ(enemy), u) == is_set(a2.board(Piece::Ferz) & a2.occ(enemy), u));
            assert(is_set(a.board(Piece::Pawn) & a.occ(enemy), u) == is_set(a2.board(Piece::Pawn) & a2.occ(enemy), u));
            assert(is_set(a.board(Piece::Ma) & a.occ(enemy), u) == is_set(a2.board(Piece::Ma) & a2.occ(enemy), u));
        }
        assert forall|v: int| #[trigger] a.threatened(mover, v) == a2.threatened(mover, v) by {
            if a.threatened(mover, v) {
                let u = choose|u: int| 0 <= u < 16 && #[trigger] a.attacks_from(mover, u, v);
                assert(a2.attacks_from(mover, u, v));
            }
            if a2.threatened(mover, v) {
                let u = choose|u: int| 0 <= u < 16 && #[trigger] a2.attacks_from(mover, u, v);
                assert(a.attacks_from(mover, u, v));
            }
        }
        assert(a.board(Piece::King) & a.occ(mover) == a2.board(Piece::King) & a2.occ(mover));
        if a.in_check(mover) {
            let v = choose|v: int| is_set(a.board(Piece::King) & a.occ(mover), v) && #[trigger] a.threatened(mover, v);
            assert(a2.threatened(mover, v));
        }
        if a2.in_check(mover) {
            let v = choose|v: int| is_set(a2.board(Piece::King) & a2.occ(mover), v) && #[trigger] a2.threatened(mover, v);
            assert(a.threatened(mover, v));
        }
        assert(a.in_check(mover) == a2.in_check(mover));
    }

    /// A legal promotion stays legal whichever of wazir, ferz or ma the pawn
    /// becomes.
    pub proof fn lemma_promotion_choices_legal(self, m: Move, q: Piece)
        requires
            self.playable(),
            self.legal_moves().contains(m),
            m.promoted_piece is Some,
            q == Piece::Wazir || q == Piece::Ferz || q == Piece::Ma,
        ensures
            self.legal_moves().contains(Move { promoted_piece: Some(q), ..m }),
    {
        let m2 = Move { promoted_piece: Some(q), ..m };
        let pred = |x: Move| self.keeps_king_safe(x);
        broadcast use vstd::seq_lib::group_filter_ensures;
        self.lemma_legal_sound(m);
        self.pseudo_moves().lemma_filter_contains_rev(pred, m);
        let i = choose|i: int| 0 <= i < self.pseudo_moves().len() && #[trigger] self.pseudo_moves()[i] == m;
        let a = self.placements();
        let b = self.king_steps();
        let c = self.leaper_steps(Piece::Wazir);
        let d = self.leaper_steps(Piece::Ferz);
        let e = self.ma_jumps();
        let f = self.pawn_steps();
        let ps = self.pseudo_moves();
        assert(ps == a + b + c + d + e + f);
        assert(m.source is Some && m.piece == Piece::Pawn);
        if i < a.len() {
            self.lemma_placements_sound(i);
            assert(false);
        } else if i < a.len() + b.len() {
            self.lemma_king_steps_sound(i - a.len());
            assert(false);
        } else if i < a.len() + b.len() + c.len() {
            self.lemma_leaper_steps_sound(Piece::Wazir, i - a.len() - b.len());
            assert(false);
        } else if i < a.len() + b.len() + c.len() + d.len() {
            self.lemma_leaper_steps_sound(Piece::Ferz, i - a.len() - b.len() - c.len());
            assert(false);
        } else if i < a.len() + b.len() + c.len() + d.len() + e.len() {
            self.lemma_ma_jumps_sound(i - a.len() - b.len() - c.len() - d.len());
            assert(false);
        }
        let k = i - a.len() - b.len() - c.len() - d.len() - e.len();
        assert(f[k] == m);
        self.lemma_pawn_promotion_variants(k, q);
        let k2 = choose|k2: int| 0 <= k2 < f.len() && #[trigger] f[k2] == m2;
        let off = a.len() + b.len() + c.len() + d.len() + e.len();
        assert(ps[off + k2] == m2);
        assert(ps.contains(m2));
        self.lemma_promotion_choice_safe(m, q);
        assert(pred(m2));
        assert(ps.filter(pred).contains(m2));
    }

    /// Whatever one of the move groups holds is a pseudo-legal move.
    proof fn lemma_pseudo_parts(self, x: Move)
        ensures
            (self.placements().contains(x) || self.king_steps().contains(x) || self.leaper_steps(
                Piece::Wazir,
            ).contains(x) || self.leaper_steps(Piece::Ferz).contains(x) || self.ma_jumps().contains(x)
                || self.pawn_steps().contains(x)) ==> self.pseudo_moves().contains(x),
    {
        let a = self.placements();
        let b = self.king_steps();
        let c = self.leaper_steps(Piece::Wazir);
        let d = self.leaper_steps(Piece::Ferz);
        let e = self.ma_jumps();
        let f = self.pawn_steps();
        let ps = self.pseudo_moves();
        assert(ps == a + b + c + d + e + f);
        if a.contains(x) {
            let i = choose|i: int| 0 <= i < a.len() && #[trigger] a[i] == x;
            assert(ps[i] == x);
        } else if b.contains(x) {
            let i = choose|i: int| 0 <= i < b.len() && #[trigger] b[i] == x;
            assert(ps[a.len() + i] == x);
        } else if c.contains(x) {
            let i = choose|i: int| 0 <= i < c.len() && #[trigger] c[i] == x;
            assert(ps[a.len() + b.len() + i] == x);
        } else if d.contains(x) {
            let i = choose|i: int| 0 <= i < d.len() && #[trigger] d[i] == x;
            assert(ps[a.len() + b.len() + c.len() + i] == x);
        } else if e.contains(x) {
            let i = choose|i: int| 0 <= i < e.len() && #[trigger] e[i] == x;
            assert(ps[a.len() + b.len() + c.len() + d.len() + i] == x);
        } else if f.contains(x) {
            let i = choose|i: int| 0 <= i < f.len() && #[trigger] f[i] == x;
            assert(ps[a.len() + b.len() + c.len() + d.len() + e.len() + i] == x);
        }
    }

    /// A pseudo-legal move that leaves the mover's king safe is legal.
    proof fn lemma_safe_pseudo_legal(self, x: Move)
        requires
            self.pseudo_moves().contains(x),
            !self.apply(x).in_check(self.turn()),
        ensures
            self.legal_moves().contains(x),
    {
        let pred = |y: Move| self.keeps_king_safe(y);
        broadcast use vstd::seq_lib::group_filter_ensures;
        assert(pred(x));
        let i = choose|i: int| 0 <= i < self.pseudo_moves().len() && #[trigger] self.pseudo_moves()[i] == x;
        assert(self.pseudo_moves().filter(pred).contains(x));
    }

    /// Where a king steps to, the attacks on that square are the same before
    /// and after the step: the king leaves no piece behind that could have
    /// shielded its new square, and a captured piece never attacked its own
    /// square.
    #[verifier::spinoff_prover]
    #[verifier::rlimit(80)]
    proof fn lemma_king_step_threats(self, s: int, t: int)
        requires
            self.wf(),
            0 <= s < 16,
            0 <= t < 16,
            self.own(Piece::King, s),
            king_adjacent(s, t),
            !is_set(self.occ(self.turn()), t),
            self.can_make(self.step_move(Piece::King, s, t)),
        ensures
            self.apply(self.step_move(Piece::King, s, t)).threatened(self.turn(), t) == self.threatened(
                self.turn(),
                t,
            ),
    {
        let m = self.step_move(Piece::King, s, t);
        let a = self.apply(m);
        let side = self.turn();
        let enemy = side.other();
        assert(m.target.idx() == t && m.source.unwrap().idx() == s);
        self.lemma_apply_step(m);
        let g1 = self.after_capture(m);
        assert(self.square_consistent(t));
        assert(self.square_consistent(s));
        if m.capture {
            self.lemma_captured_on(t);
        }
        let block_a = a.both() & !(a.board(Piece::King) & a.occ(side));
        let block_s = self.both() & !(self.board(Piece::King) & self.occ(side));
        assert forall|v: int| v != t implies #[trigger] is_set(block_a, v) == is_set(block_s, v) by {
            if 0 <= v < 16 {
                assert(is_set(a.occ(side), v) == (if v == s { false } else { is_set(self.occ(side), v) }));
                assert(is_set(a.occ(enemy), v) == is_set(self.occ(enemy), v));
                assert(is_set(a.board(Piece::King), v) == (if v == s { false } else { is_set(
                    self.board(Piece::King),
                    v,
                ) }));
                if side == Side::White {
                    assert(a.both() == a.occ(side) | a.occ(enemy));
                    assert(self.both() == self.occ(side) | self.occ(enemy));
                } else {
                    assert(a.both() == a.occ(enemy) | a.occ(side));
                    assert(self.both() == self.occ(enemy) | self.occ(side));
                }
            }
        }
        assert forall|q: Piece, u: int| u != t implies #[trigger] is_set(a.board(q) & a.occ(enemy), u) == is_set(
            self.board(q) & self.occ(enemy),
            u,
        ) by {
            if 0 <= u < 16 && u != s {
                assert(is_set(a.board(q), u) == is_set(self.board(q), u));
            }
        }
        assert forall|u: int| #[trigger] a.attacks_from(side, u, t) == self.attacks_from(side, u, t) by {
            if u != t {
                assert(is_set(a.board(Piece::King) & a.occ(enemy), u) == is_set(self.board(Piece::King) & self.occ(enemy), u));
                assert(is_set(a.board(Piece::Wazir) & a.occ(enemy), u) == is_set(self.board(Piece::Wazir) & self.occ(enemy), u));
                assert(is_set(a.board(Piece::Ferz) & a.occ(enemy), u) == is_set(self.board(Piece::Ferz) & self.occ(enemy), u));
                assert(is_set(a.board(Piece::Pawn) & a.occ(enemy), u) == is_set(self.board(Piece::Pawn) & self.occ(enemy), u));
                assert(is_set(a.board(Piece::Ma) & a.occ(enemy), u) == is_set(self.board(Piece::Ma) & self.occ(enemy), u));
                if on_board(u) && ma_attack(u, block_s, t) {
                    let leg = if row(t) == row(u) + 2 || row(u) == row(t) + 2 {
                        if row(t) > row(u) { u + 4 } else { u - 4 }
                    } else {
                        if col(t) > col(u) { u + 1 } else { u - 1 }
                    };
                    assert(leg != t);
                }
                if on_board(u) && ma_attack(u, block_a, t) {
                    let leg = if row(t) == row(u) + 2 || row(u) == row(t) + 2 {
                        if row(t) > row(u) { u + 4 } else { u - 4 }
                    } else {
                        if col(t) > col(u) { u + 1 } else { u - 1 }
                    };
                    assert(leg != t);
                }
                assert(ma_attack(u, block_a, t) == ma_attack(u, block_s, t));
            }
        }
        if a.threatened(side, t) {
            let u = choose|u: int| 0 <= u < 16 && #[trigger] a.attacks_from(side, u, t);
            assert(self.attacks_from(side, u, t));
        }
        if self.threatened(side, t) {
            let u = choose|u: int| 0 <= u < 16 && #[trigger] self.attacks_from(side, u, t);
            assert(a.attacks_from(side, u, t));
        }
    }

    /// Every move of a king, wazir, ferz or ma that the rules allow is
    /// generated: from a square `s` holding such a piece of the mover to a
    /// square `t` the mover does not hold — one step in any direction for a
    /// king, one step orthogonally for a wazir,
    /// one step diagonally for a ferz, one orthogonal step onto an empty
    /// square and one diagonal step further for a ma — capturing exactly when
    /// an opposing piece stands on `t`, the move is legal whenever it leaves
    /// the mover's king out of check.
    pub proof fn lemma_piece_moves_complete(self, p: Piece, s: int, t: int)
        requires
            self.playable(),
            0 <= s < 16,
            0 <= t < 16,
            p != Piece::Pawn,
            is_set(self.board(p) & self.occ(self.turn()), s),
            !is_set(self.occ(self.turn()), t),
            p == Piece::King ==> king_adjacent(s, t),
            p == Piece::Wazir ==> orth_adjacent(s, t),
            p == Piece::Ferz ==> diag_adjacent(s, t),
            p == Piece::Ma ==> ma_attack(s, self.occ(Side::White) | self.occ(Side::Black), t),
            !self.apply(
                Move {
                    source: Some(square_at(s)),
                    target: square_at(t),
                    piece: p,
                    promoted_piece: None,
                    capture: is_set(self.occ(self.turn().other()), t),
                },
            ).in_check(self.turn()),
        ensures
            self.legal_moves().contains(
                Move {
                    source: Some(square_at(s)),
                    target: square_at(t),
                    piece: p,
                    promoted_piece: None,
                    capture: is_set(self.occ(self.turn().other()), t),
                },
            ),
    {
        let m = self.step_move(p, s, t);
        if p == Piece::King {
            self.lemma_sound_can_make(m);
            self.lemma_king_step_threats(s, t);
            self.lemma_apply_step(m);
            let a = self.apply(m);
            assert(is_set(a.board(Piece::King) & a.occ(self.turn()), t));
            assert(!a.threatened(self.turn(), t));
            let inner = |u: int| only_if(self.king_target(s, u), self.step_move(Piece::King, s, u));
            assert(inner(t)[0] == m);
            lemma_concat_contains(16, inner, t, m);
            let outer = |u: int| self.king_moves_from(u);
            assert(outer(s) == concat_range(16, inner));
            lemma_concat_contains(16, outer, s, m);
        } else if p == Piece::Ma {
            let inner = |u: int| only_if(
                ma_attack(s, self.both(), u) && !is_set(self.occ(self.turn()), u),
                self.step_move(Piece::Ma, s, u),
            );
            assert(inner(t)[0] == m);
            lemma_concat_contains(16, inner, t, m);
            let outer = |u: int| self.ma_moves_from(u);
            assert(outer(s) == concat_range(16, inner));
            lemma_concat_contains(16, outer, s, m);
        } else {
            let inner = |u: int| only_if(
                Self::leaper_reach(p, s, u) && !is_set(self.occ(self.turn()), u),
                self.step_move(p, s, u),
            );
            assert(inner(t)[0] == m);
            lemma_concat_contains(16, inner, t, m);
            let outer = |u: int| self.leaper_moves_from(p, u);
            assert(outer(s) == concat_range(16, inner));
            lemma_concat_contains(16, outer, s, m);
        }
        self.lemma_pseudo_parts(m);
        self.lemma_safe_pseudo_legal(m);
    }

    /// Every pawn move the rules allow is generated: a pawn of the mover on
    /// `s` going one step forward onto an empty square, or one step diagonally
    /// forward onto an opposing piece (forward is towards rank 4 for White,
    /// rank 1 for Black), promoting to a wazir, ferz or ma exactly when it
    /// reaches its last rank, is legal whenever it leaves the mover's king out
    /// of check.
    pub proof fn lemma_pawn_moves_complete(self, s: int, t: int, promoted: Option<Piece>)
        requires
            self.playable(),
            0 <= s < 16,
            0 <= t < 16,
            is_set(self.board(Piece::Pawn) & self.occ(self.turn()), s),
            (t == (if self.turn() == Side::White { s - 4 } else { s + 4 }) && !is_set(
                self.occ(Side::White) | self.occ(Side::Black),
                t,
            )) || (diag_adjacent(s, t) && (if self.turn() == Side::White { row(t) + 1 == row(s) } else {
                row(s) + 1 == row(t)
            }) && is_set(self.occ(self.turn().other()), t)),
            promoted matches Some(q) ==> (q == Piece::Wazir || q == Piece::Ferz || q == Piece::Ma),
            (promoted is Some) == (row(t) == if self.turn() == Side::White { 0int } else { 3 }),
            !self.apply(
                Move {
                    source: Some(square_at(s)),
                    target: square_at(t),
                    piece: Piece::Pawn,
                    promoted_piece: promoted,
                    capture: is_set(self.occ(self.turn().other()), t),
                },
            ).in_check(self.turn()),
        ensures
            self.legal_moves().contains(
                Move {
                    source: Some(square_at(s)),
                    target: square_at(t),
                    piece: Piece::Pawn,
                    promoted_piece: promoted,
                    capture: is_set(self.occ(self.turn().other()), t),
                },
            ),
    {
        let white = self.turn() == Side::White;
        let cap = is_set(self.occ(self.turn().other()), t);
        let m = Self::pawn_move(s, t, promoted, cap);
        assert(self.pawn_promotes(s) == (promoted is Some));
        let k: int = match promoted {
            None => 0,
            Some(q) => if q == Piece::Wazir { 0 } else if q == Piece::Ferz { 1 } else { 2 },
        };
        let push = if self.pawn_push_ok(s) {
            self.pawn_variants(s, self.pawn_ahead(s), false)
        } else {
            Seq::empty()
        };
        let inner = |u: int| self.pawn_capture_at(s, u);
        let caps = concat_range(16, inner);
        assert(self.pawn_moves_from(s) == push + caps);
        if t == self.pawn_ahead(s) && !is_set(self.both(), t) {
            assert(!cap);
            assert(push[k] == m);
            assert((push + caps)[k] == m);
        } else {
            assert(pawn_attack(white, s, t));
            assert(inner(t)[k] == m);
            lemma_concat_contains(16, inner, t, m);
            let c = choose|c: int| 0 <= c < caps.len() && #[trigger] caps[c] == m;
            assert((push + caps)[push.len() + c] == m);
        }
        let outer = |u: int| self.pawn_moves_from(u);
        assert(outer(s).contains(m));
        lemma_concat_contains(16, outer, s, m);
        self.lemma_pseudo_parts(m);
        self.lemma_safe_pseudo_legal(m);
    }

    /// Every legal move follows the rules. It leaves the mover's king out of
    /// check. A drop puts a piece other than a king from the mover's reserve
    /// on an empty square, never a pawn on its last rank. A move takes a piece
    /// of the mover to a square the mover does not hold, capturing exactly
    /// when an opposing piece stands there: a king one step in any direction,
    /// a wazir one step orthogonally, a ferz one step diagonally, a ma one
    /// orthogonal step onto an empty square and one diagonal step further,
    /// a pawn one step forward onto an empty square or one step diagonally
    /// forward onto an opposing piece (forward is towards rank 4 for White,
    /// rank 1 for Black). A pawn that reaches its last rank, and only such a
    /// pawn, promotes, to a wazir, a ferz or a ma.
    pub proof fn lemma_legal_moves_obey_rules(self, m: Move)
        requires
            self.playable(),
            self.legal_moves().contains(m),
        ensures
            !self.apply(m).in_check(self.turn()),
            ({
                let side = self.turn();
                let white = side == Side::White;
                let t = m.target.idx();
                let last = row(t) == if white { 0int } else { 3 };
                match m.source {
                    None => {
                        &&& m.piece != Piece::King
                        &&& count_of(self.reserve(side), m.piece) > 0
                        &&& !is_set(self.occ(Side::White) | self.occ(Side::Black), t)
                        &&& !(m.piece == Piece::Pawn && last)
                        &&& m.promoted_piece is None
                        &&& !m.capture
                    },
                    Some(src) => {
                        let s = src.idx();
                        &&& is_set(self.board(m.piece) & self.occ(side), s)
                        &&& !is_set(self.occ(side), t)
                        &&& m.capture == is_set(self.occ(side.other()), t)
                        &&& (m.piece == Piece::King ==> king_adjacent(s, t))
                        &&& (m.piece == Piece::Wazir ==> orth_adjacent(s, t))
                        &&& (m.piece == Piece::Ferz ==> diag_adjacent(s, t))
                        &&& (m.piece == Piece::Ma ==> ma_attack(s, self.occ(Side::White) | self.occ(Side::Black), t))
                        &&& (m.piece == Piece::Pawn ==> {
                            ||| (t == (if white { s - 4 } else { s + 4 }) && !is_set(
                                self.occ(Side::White) | self.occ(Side::Black),
                                t,
                            ))
                            ||| (diag_adjacent(s, t) && (if white { row(t) + 1 == row(s) } else {
                                row(s) + 1 == row(t)
                            }) && is_set(self.occ(side.other()), t))
                        })
                        &&& (m.piece == Piece::Pawn ==> (m.promoted_piece is Some <==> last))
                        &&& (m.promoted_piece matches Some(q) ==> m.piece == Piece::Pawn && (q == Piece::Wazir
                            || q == Piece::Ferz || q == Piece::Ma))
                    },
                }
            }),
    {
        self.lemma_legal_sound(m);
        let pred = |x: Move| self.keeps_king_safe(x);
        broadcast use vstd::seq_lib::group_filter_ensures;
        self.pseudo_moves().lemma_filter_contains_rev(pred, m);
        assert(pred(m));
    }

    /// The rules of check: a king of `side` on `k` is in check exactly when
    /// an opposing piece on `u` attacks it — a king or a wazir one step
    /// orthogonally, a king or a ferz one step diagonally, a pawn one step
    /// diagonally towards its own promotion rank (towards rank 4 for a White
    /// pawn, rank 1 for a Black one), a ma one orthogonal step onto an empty
    /// square (the attacked king itself does not block) and one diagonal step
    /// further out.
    pub proof fn lemma_check_rules(self, side: Side)
        ensures
            self.in_check(side) <==> exists|k: int, u: int|
                #![trigger is_set(self.board(Piece::King) & self.occ(side), k), is_set(self.occ(side.other()), u)]
                is_set(self.board(Piece::King) & self.occ(side), k) && is_set(self.occ(side.other()), u) && (
                (is_set(self.board(Piece::King), u) && king_adjacent(u, k))
                || (is_set(self.board(Piece::Wazir), u) && orth_adjacent(u, k))
                || (is_set(self.board(Piece::Ferz), u) && diag_adjacent(u, k))
                || (is_set(self.board(Piece::Pawn), u) && diag_adjacent(u, k) && (if side.other() == Side::White {
                    row(k) + 1 == row(u)
                } else {
                    row(u) + 1 == row(k)
                }))
                || (is_set(self.board(Piece::Ma), u) && ma_attack(
                    u,
                    self.both() & !(self.board(Piece::King) & self.occ(side)),
                    k,
                ))),
    {
        let e = side.other();
        let kings = self.board(Piece::King) & self.occ(side);
        let rule = |k: int, u: int| is_set(kings, k) && is_set(self.occ(e), u) && (
                (is_set(self.board(Piece::King), u) && king_adjacent(u, k))
                || (is_set(self.board(Piece::Wazir), u) && orth_adjacent(u, k))
                || (is_set(self.board(Piece::Ferz), u) && diag_adjacent(u, k))
                || (is_set(self.board(Piece::Pawn), u) && diag_adjacent(u, k) && (if e == Side::White {
                    row(k) + 1 == row(u)
                } else {
                    row(u) + 1 == row(k)
                }))
                || (is_set(self.board(Piece::Ma), u) && ma_attack(
                    u,
                    self.both() & !(self.board(Piece::King) & self.occ(side)),
                    k,
                )));
        if self.in_check(side) {
            let k = choose|k: int| is_set(kings, k) && #[trigger] self.threatened(side, k);
            let u = choose|u: int| 0 <= u < 16 && #[trigger] self.attacks_from(side, u, k);
            assert(rule(k, u));
            assert(is_set(self.board(Piece::King) & self.occ(side), k) && is_set(self.occ(side.other()), u));
        }
        if exists|k: int, u: int|
            #![trigger is_set(self.board(Piece::King) & self.occ(side), k), is_set(self.occ(side.other()), u)]
            rule(k, u) {
            let (k, u) = choose|k: int, u: int|
                #![trigger is_set(self.board(Piece::King) & self.occ(side), k), is_set(self.occ(side.other()), u)]
                rule(k, u);
            assert(0 <= u < 16);
            assert(self.attacks_from(side, u, k));
            assert(self.threatened(side, k));
        }
    }

    /// `k` is the one square holding a king of `side`.
    pub open spec fn king_square(self, side: Side, k: int) -> bool {
        forall|t: int| #[trigger] is_set(self.board(Piece::King) & self.occ(side), t) == (t == k)
    }

    /// Where the kings of `side` stand after the sound move `m`: a king that
    /// moves leaves its square for the target; every other king stays.
    #[verifier::spinoff_prover]
    #[verifier::rlimit(60)]
    proof fn lemma_apply_kings(self, m: Move, side: Side, u: int)
        requires
            self.wf(),
            self.sound_move(m),
            self.can_make(m),
            0 <= u < 16,
        ensures
            is_set(self.apply(m).board(Piece::King) & self.apply(m).occ(side), u) == if m.source is Some
                && m.piece == Piece::King && side == self.turn() {
                if u == m.target.idx() {
                    true
                } else if u == m.source.unwrap().idx() {
                    false
                } else {
                    is_set(self.board(Piece::King) & self.occ(side), u)
                }
            } else {
                is_set(self.board(Piece::King) & self.occ(side), u)
            },
    {
        let a = self.apply(m);
        let t = m.target.idx();
        let mover = self.turn();
        assert(self.square_consistent(u));
        assert(self.square_consistent(t));
        match m.source {
            None => {
                self.lemma_apply_drop(m);
                assert(a.board(Piece::King) == self.board(Piece::King));
                if side == mover {
                    assert(a.occ(side) == add_sq(self.occ(side), t));
                } else {
                    assert(a.occ(side) == self.occ(side));
                }
            },
            Some(src) => {
                let s = src.idx();
                assert(self.square_consistent(s));
                self.lemma_apply_step(m);
                self.lemma_after_capture_squares(m);
                let g1 = self.after_capture(m);
                if m.capture {
                    self.lemma_captured_on(t);
                    assert(self.piece_on(t).unwrap() != Piece::King);
                }
                assert(is_set(g1.board(Piece::King), u) == (is_set(self.board(Piece::King), u) && !(m.capture
                    && u == t)));
                assert(is_set(g1.occ(mover), u) == is_set(self.occ(mover), u));
                assert(is_set(g1.occ(mover.other()), u) == (is_set(self.occ(mover.other()), u) && !(m.capture
                    && u == t)));
                assert(!is_set(g1.occ(mover.other()), t));
                assert(!is_set(self.occ(mover.other()), s));
                let lands = match m.promoted_piece {
                    Some(q) => q,
                    None => m.piece,
                };
                assert(lands == Piece::King <==> m.piece == Piece::King);
                assert(is_set(a.board(Piece::King), u) == if u == t {
                    m.piece == Piece::King
                } else if u == s {
                    false
                } else {
                    is_set(g1.board(Piece::King), u)
                });
                assert(is_set(a.occ(mover), u) == if u == t {
                    true
                } else if u == s {
                    false
                } else {
                    is_set(g1.occ(mover), u)
                });
                assert(is_set(a.occ(mover.other()), u) == is_set(g1.occ(mover.other()), u));
                if side == mover {
                    assert(side.other() == mover.other());
                } else {
                    assert(side == mover.other());
                }
            },
        }
    }

    /// Each side keeps exactly one king through a legal move: the mover's
    /// king goes to the target when it is the piece moved, and every other
    /// king stays where it was.
    pub proof fn lemma_legal_move_keeps_kings(self, m: Move, white_king: int, black_king: int)
        requires
            self.playable(),
            self.legal_moves().contains(m),
            self.king_square(Side::White, white_king),
            self.king_square(Side::Black, black_king),
        ensures
            self.apply(m).king_square(
                Side::White,
                if self.turn() == Side::White && m.piece == Piece::King { m.target.idx() } else { white_king },
            ),
            self.apply(m).king_square(
                Side::Black,
                if self.turn() == Side::Black && m.piece == Piece::King { m.target.idx() } else { black_king },
            ),
    {
        self.lemma_legal_sound(m);
        let a = self.apply(m);
        assert forall|side: Side, t: int| #[trigger] is_set(a.board(Piece::King) & a.occ(side), t)
            == (t == if self.turn() == side && m.piece == Piece::King { m.target.idx() } else {
                if side == Side::White { white_king } else { black_king }
            }) by {
            let k = if side == Side::White { white_king } else { black_king };
            assert(is_set(self.board(Piece::King) & self.occ(side), k));
            assert(is_set(self.board(Piece::King) & self.occ(side), t) == (t == k));
            if 0 <= t < 16 {
                self.lemma_apply_kings(m, side, t);
                if m.source is None {
                    assert(m.piece != Piece::King);
                }
                if m.source is Some && m.piece == Piece::King && side == self.turn() {
                    assert(self.own(Piece::King, m.source.unwrap().idx()));
                }
            }
        }
    }

    /// A move passes the turn to the other side.
    pub proof fn lemma_apply_turn(self, m: Move)
        ensures
            self.apply(m).turn() == self.turn().other(),
    {
    }

    // ------------------------------------------------------------------------
    // Construction and access
    // ------------------------------------------------------------------------

    /// Some entry of `piece_map` puts a piece of kind `p` on square `t`.
    pub open spec fn listed_piece(piece_map: Seq<(Piece, Side, Square)>, p: Piece, t: int) -> bool {
        exists|i: int| 0 <= i < piece_map.len() && (#[trigger] piece_map[i]).0 == p && piece_map[i].2.idx() == t
    }

    /// Some entry of `piece_map` puts a piece of `side` on square `t`.
    pub open spec fn listed_side(piece_map: Seq<(Piece, Side, Square)>, side: Side, t: int) -> bool {
        exists|i: int| 0 <= i < piece_map.len() && (#[trigger] piece_map[i]).1 == side && piece_map[i].2.idx() == t
    }

    /// The packed reserve for counts `(wazirs, mas, ferzes, pawns)`.
    pub open spec fn packed_counts(counts: (u8, u8, u8, u8)) -> int {
        crate::inventory::packed(counts.0 as int, counts.1 as int, counts.2 as int, counts.3 as int)
    }

    /// Adds `n` units of `piece` to `inventory`.
    fn fill(inventory: &mut Inventory, piece: Piece, n: u8)
        requires
            piece != Piece::King,
            old(inventory)@ + n * unit(piece) <= 255,
        ensures
            final(inventory)@ == old(inventory)@ + n * unit(piece),
    {
        let ghost start = inventory@ as int;
        let mut k: u8 = 0;
        while k < n
            invariant
                k <= n,
                piece != Piece::King,
                start + n * unit(piece) <= 255,
                inventory@ == start + k * unit(piece),
            decreases n - k,
        {
            assert(start + (k + 1) * unit(piece) <= start + n * unit(piece)) by (nonlinear_arith)
                requires
                    k < n,
                    unit(piece) >= 0,
            ;
            assert((k + 1) * unit(piece) == k * unit(piece) + unit(piece)) by (nonlinear_arith);
            inventory.increment(piece);
            k = k + 1;
        }
    }

    /// The position with the listed pieces (kind, side, square) on the board,
    /// the listed squares marked as holding promoted pawns, reserves of
    /// `(wazirs, mas, ferzes, pawns)` for White and Black, and `side` to move.
    pub fn new(
        piece_map: Vec<(Piece, Side, Square)>,
        former_pawns_list: Vec<Square>,
        inventory_map: [(u8, u8, u8, u8); 2],
        side: Side,
    ) -> (r: Self)
        requires
            Self::packed_counts(inventory_map@[0]) <= 255,
            Self::packed_counts(inventory_map@[1]) <= 255,
        ensures
            forall|p: Piece, t: int| 0 <= t < 16 ==> #[trigger] is_set(r.board(p), t)
                == Self::listed_piece(piece_map@, p, t),
            forall|q: Side, t: int| 0 <= t < 16 ==> #[trigger] is_set(r.occ(q), t)
                == Self::listed_side(piece_map@, q, t),
            forall|t: int| 0 <= t < 16 ==> #[trigger] is_set(r.formers(), t)
                == exists|i: int| 0 <= i < former_pawns_list@.len() && (#[trigger] former_pawns_list@[i]).idx() == t,
            r.reserve(Side::White) == Self::packed_counts(inventory_map@[0]),
            r.reserve(Side::Black) == Self::packed_counts(inventory_map@[1]),
            r.turn() == side,
    {
        broadcast use PieceBoards::lemma_with_of, Occupancies::lemma_with_of;
        let mut bitboards = PieceBoards::default();
        let mut occupancies = Occupancies::default();
        let mut i: usize = 0;
        while i < piece_map.len()
            invariant
                i <= piece_map.len(),
                forall|p: Piece, t: int| 0 <= t < 16 ==> #[trigger] is_set(bitboards.of(p), t)
                    == exists|j: int| 0 <= j < i && (#[trigger] piece_map@[j]).0 == p && piece_map@[j].2.idx() == t,
                forall|q: Side, t: int| 0 <= t < 16 ==> #[trigger] is_set(occupancies.of(q), t)
                    == exists|j: int| 0 <= j < i && (#[trigger] piece_map@[j]).1 == q && piece_map@[j].2.idx() == t,
            decreases piece_map.len() - i,
        {
            let (piece, piece_side, square) = piece_map[i];
            let ghost old_boards = bitboards;
            let ghost old_occ = occupancies;
            let mut board = bitboards.get(piece);
            board.set_bit(square.index());
            bitboards.set(piece, board);
            let mut occupancy = occupancies.get(piece_side);
            occupancy.set_bit(square.index());
            occupancies.set(piece_side, occupancy);
            assert(piece_map@[i as int] == (piece, piece_side, square));
            assert forall|p: Piece, t: int| #[trigger] is_set(bitboards.of(p), t) == (is_set(old_boards.of(p), t)
                || (p == piece && t == square.idx())) by {}
            assert forall|q: Side, t: int| #[trigger] is_set(occupancies.of(q), t) == (is_set(old_occ.of(q), t)
                || (q == piece_side && t == square.idx())) by {}
            assert forall|p: Piece, t: int| 0 <= t < 16 implies #[trigger] is_set(bitboards.of(p), t)
                == exists|j: int| 0 <= j < i + 1 && (#[trigger] piece_map@[j]).0 == p && piece_map@[j].2.idx() == t by {
                if p == piece && t == square.idx() {
                    assert(piece_map@[i as int].0 == p && piece_map@[i as int].2.idx() == t);
                }
                if exists|j: int| 0 <= j < i + 1 && (#[trigger] piece_map@[j]).0 == p && piece_map@[j].2.idx() == t {
                    let j = choose|j: int| 0 <= j < i + 1 && (#[trigger] piece_map@[j]).0 == p && piece_map@[j].2.idx() == t;
                    if j < i {
                        assert(is_set(old_boards.of(p), t));
                    }
                }
            }
            assert forall|q: Side, t: int| 0 <= t < 16 implies #[trigger] is_set(occupancies.of(q), t)
                == exists|j: int| 0 <= j < i + 1 && (#[trigger] piece_map@[j]).1 == q && piece_map@[j].2.idx() == t by {
                if q == piece_side && t == square.idx() {
                    assert(piece_map@[i as int].1 == q && piece_map@[i as int].2.idx() == t);
                }
                if exists|j: int| 0 <= j < i + 1 && (#[trigger] piece_map@[j]).1 == q && piece_map@[j].2.idx() == t {
                    let j = choose|j: int| 0 <= j < i + 1 && (#[trigger] piece_map@[j]).1 == q && piece_map@[j].2.idx() == t;
                    if j < i {
                        assert(is_set(old_occ.of(q), t));
                    }
                }
            }
            i = i + 1;
        }
        let mut former_pawns = BitBoard(0);
        let mut i: usize = 0;
        while i < former_pawns_list.len()
            invariant
                i <= former_pawns_list.len(),
                forall|t: int| 0 <= t < 16 ==> #[trigger] is_set(former_pawns.0, t)
                    == exists|j: int| 0 <= j < i && (#[trigger] former_pawns_list@[j]).idx() == t,
            decreases former_pawns_list.len() - i,
        {
            let square = former_pawns_list[i];
            let ghost old_formers = former_pawns.0;
            former_pawns.set_bit(square.index());
            assert forall|t: int| 0 <= t < 16 implies #[trigger] is_set(former_pawns.0, t)
                == exists|j: int| 0 <= j < i + 1 && (#[trigger] former_pawns_list@[j]).idx() == t by {
                if t == square.idx() {
                    assert(former_pawns_list@[i as int].idx() == t);
                }
                if exists|j: int| 0 <= j < i + 1 && (#[trigger] former_pawns_list@[j]).idx() == t {
                    let j = choose|j: int| 0 <= j < i + 1 && (#[trigger] former_pawns_list@[j]).idx() == t;
                    if j < i {
                        assert(is_set(old_formers, t));
                    }
                }
            }
            i = i + 1;
        }
        let mut white = Inventory::from_raw(0);
        let mut black = Inventory::from_raw(0);
        let (w, m, f, p) = inventory_map[0];
        assert(64 * w + 16 * m + 4 * f + p <= 255);
        assert(w * unit(Piece::Wazir) == 64 * w) by (nonlinear_arith)
            requires
                unit(Piece::Wazir) == 64,
        ;
        Self::fill(&mut white, Piece::Wazir, w);
        assert(white@ == 64 * w);
        assert(m * unit(Piece::Ma) == 16 * m) by (nonlinear_arith)
            requires
                unit(Piece::Ma) == 16,
        ;
        Self::fill(&mut white, Piece::Ma, m);
        assert(white@ == 64 * w + 16 * m);
        assert(f * unit(Piece::Ferz) == 4 * f) by (nonlinear_arith)
            requires
                unit(Piece::Ferz) == 4,
        ;
        Self::fill(&mut white, Piece::Ferz, f);
        assert(white@ == 64 * w + 16 * m + 4 * f);
        assert(p * unit(Piece::Pawn) == p) by (nonlinear_arith)
            requires
                unit(Piece::Pawn) == 1,
        ;
        Self::fill(&mut white, Piece::Pawn, p);
        let (w, m, f, p) = inventory_map[1];
        assert(64 * w + 16 * m + 4 * f + p <= 255);
        assert(w * unit(Piece::Wazir) == 64 * w) by (nonlinear_arith)
            requires
                unit(Piece::Wazir) == 64,
        ;
        Self::fill(&mut black, Piece::Wazir, w);
        assert(black@ == 64 * w);
        assert(m * unit(Piece::Ma) == 16 * m) by (nonlinear_arith)
            requires
                unit(Piece::Ma) == 16,
        ;
        Self::fill(&mut black, Piece::Ma, m);
        assert(black@ == 64 * w + 16 * m);
        assert(f * unit(Piece::Ferz) == 4 * f) by (nonlinear_arith)
            requires
                unit(Piece::Ferz) == 4,
        ;
        Self::fill(&mut black, Piece::Ferz, f);
        assert(black@ == 64 * w + 16 * m + 4 * f);
        assert(p * unit(Piece::Pawn) == p) by (nonlinear_arith)
            requires
                unit(Piece::Pawn) == 1,
        ;
        Self::fill(&mut black, Piece::Pawn, p);
        let inventory = [white, black];
        GameState { bitboards, occupancies, former_pawns, inventory, side }
    }

    /// The bitboards of each kind of piece.
    pub fn bitboards(&self) -> (r: &PieceBoards)
        ensures
            forall|p: Piece| #[trigger] r.of(p) == self.board(p),
    {
        &self.bitboards
    }

    /// The squares of each side.
    pub fn occupancies(&self) -> (r: &Occupancies)
        ensures
            forall|q: Side| #[trigger] r.of(q) == self.occ(q),
    {
        &self.occupancies
    }

    /// The reserves of White and Black.
    pub fn inventory(&self) -> (r: &[Inventory; 2])
        ensures
            r@[0]@ == self.reserve(Side::White),
            r@[1]@ == self.reserve(Side::Black),
    {
        &self.inventory
    }

    /// The side to move.
    pub fn side(&self) -> (r: &Side)
        ensures
            *r == self.turn(),
    {
        &self.side
    }

    /// The starting position: White king a1, wazir b1, ma c1, ferz d1, pawn a2;
    /// Black king d4, wazir c4, ma b4, ferz a4, pawn d3; empty reserves; White
    /// to move.
    pub open spec fn is_starting_position(self) -> bool {
        &&& forall|t: int| #[trigger] is_set(self.board(Piece::King), t) == (t == Square::a1.idx() || t == Square::d4.idx())
        &&& forall|t: int| #[trigger] is_set(self.board(Piece::Wazir), t) == (t == Square::b1.idx() || t == Square::c4.idx())
        &&& forall|t: int| #[trigger] is_set(self.board(Piece::Ma), t) == (t == Square::c1.idx() || t == Square::b4.idx())
        &&& forall|t: int| #[trigger] is_set(self.board(Piece::Ferz), t) == (t == Square::d1.idx() || t == Square::a4.idx())
        &&& forall|t: int| #[trigger] is_set(self.board(Piece::Pawn), t) == (t == Square::a2.idx() || t == Square::d3.idx())
        &&& forall|t: int| #[trigger] is_set(self.occ(Side::White), t) == (t == Square::a2.idx() || t == Square::a1.idx()
            || t == Square::b1.idx() || t == Square::c1.idx() || t == Square::d1.idx())
        &&& forall|t: int| #[trigger] is_set(self.occ(Side::Black), t) == (t == Square::a4.idx() || t == Square::b4.idx()
            || t == Square::c4.idx() || t == Square::d4.idx() || t == Square::d3.idx())
        &&& self.formers() == 0
        &&& self.reserve(Side::White) == 0
        &&& self.reserve(Side::Black) == 0
        &&& self.turn() == Side::White
    }

    /// The starting position is playable.
    pub proof fn lemma_starting_position_playable(self)
        requires
            self.is_starting_position(),
        ensures
            self.playable(),
            self.formers_placed(),
            forall|p: Piece| p != Piece::King ==> #[trigger] self.material(p) == 2,
            self.king_square(Side::White, Square::a1.idx()),
            self.king_square(Side::Black, Square::d4.idx()),
    {
        assert forall|t: int| 0 <= t < 16 implies #[trigger] self.square_consistent(t) by {}
        reveal_with_fuel(sum_upto, 17);
        assert forall|p: Piece| p != Piece::King implies self.board_units(p) == 2 by {
            assert(self.units_at(p, 0) + self.units_at(p, 1) + self.units_at(p, 2) + self.units_at(p, 3)
                + self.units_at(p, 4) + self.units_at(p, 5) + self.units_at(p, 6) + self.units_at(p, 7)
                + self.units_at(p, 8) + self.units_at(p, 9) + self.units_at(p, 10) + self.units_at(p, 11)
                + self.units_at(p, 12) + self.units_at(p, 13) + self.units_at(p, 14) + self.units_at(p, 15) == 2);
        }
        assert(count_of(0u8, Piece::Wazir) == 0 && count_of(0u8, Piece::Ma) == 0
            && count_of(0u8, Piece::Ferz) == 0 && count_of(0u8, Piece::Pawn) == 0) by (bit_vector);
        assert(self.material(Piece::Wazir) == 2);
        assert(self.material(Piece::Ma) == 2);
        assert(self.material(Piece::Ferz) == 2);
        assert(self.material(Piece::Pawn) == 2);
        assert forall|t: int| !(is_set(self.board(Piece::King) & self.occ(Side::Black), t)
            && #[trigger] self.threatened(Side::Black, t)) by {
            if is_set(self.board(Piece::King) & self.occ(Side::Black), t) {
                assert(t == 3);
                assert forall|s: int| 0 <= s < 16 implies !#[trigger] self.attacks_from(Side::Black, s, 3) by {}
            }
        }
    }

    /// Whether a king of `side` is attacked.
    pub fn detect_check(&self, side: Side) -> (r: bool)
        ensures
            r == self.in_check(side),
    {
        let attack_mask = self.enemy_attack_mask(side);
        let own_kings = self.bitboards.king.0 & self.occupancies.get(side).0;
        let kings = attack_mask.0 & own_kings;
        proof {
            lemma_nonzero(kings);
            if kings != 0 {
                let t = choose|t: int| is_set(kings, t);
                assert(self.threatened(side, t));
            } else {
                assert forall|t: int| !(is_set(own_kings, t) && #[trigger] self.threatened(side, t)) by {
                    assert(!is_set(kings, t));
                }
            }
        }
        kings != 0
    }
}

} // verus!

verus! {

impl Default for GameState {
    /// The starting position: White king a1, wazir b1, ma c1, ferz d1, pawn a2;
    /// Black king d4, wazir c4, ma b4, ferz a4, pawn d3; empty reserves; White
    /// to move.
    fn default() -> (r: GameState)
        ensures
            r.is_starting_position(),
    {
        let white: u16 = 0b1111_0001_0000_0000u16;
        let black: u16 = 0b0000_0000_1000_1111u16;
        assert(white == (1u16 << 8u16) | (1u16 << 12u16) | (1u16 << 13u16) | (1u16 << 14u16) | (1u16 << 15u16))
            by (bit_vector)
            requires
                white == 0b1111_0001_0000_0000u16,
        ;
        assert(black == (1u16 << 0u16) | (1u16 << 1u16) | (1u16 << 2u16) | (1u16 << 3u16) | (1u16 << 7u16))
            by (bit_vector)
            requires
                black == 0b0000_0000_1000_1111u16,
        ;
        GameState {
            bitboards: PieceBoards {
                king: BitBoard((1u16 << Square::a1.index()) | (1u16 << Square::d4.index())),
                wazir: BitBoard((1u16 << Square::b1.index()) | (1u16 << Square::c4.index())),
                ma: BitBoard((1u16 << Square::c1.index()) | (1u16 << Square::b4.index())),
                ferz: BitBoard((1u16 << Square::d1.index()) | (1u16 << Square::a4.index())),
                pawn: BitBoard((1u16 << Square::a2.index()) | (1u16 << Square::d3.index())),
            },
            occupancies: Occupancies { white: BitBoard(white), black: BitBoard(black) },
            former_pawns: BitBoard(0),
            inventory: [Inventory::from_raw(0), Inventory::from_raw(0)],
            side: Side::White,
        }
    }
}

} // verus!
