//! Sixteen-square bitboards, board geometry, and the precomputed attack tables.
//!
//! Square `i` (0..16) is bit `i` of a `u16`; `i / 4` is the row counted from the
//! top (rank 4) and `i % 4` the file (a..d).
use vstd::prelude::*;

verus! {

/// A set of squares: bit `i` stands for square `i`.
#[derive(Clone, Copy)]
pub struct BitBoard(pub u16);

/// Bit `i` of `b` is one.
pub open spec fn bit(b: u16, i: u16) -> bool {
    (b >> i) & 1u16 == 1u16
}

/// The board `b` contains square `i`.
pub open spec fn is_set(b: u16, i: int) -> bool {
    0 <= i < 16 && bit(b, i as u16)
}

/// Row of a square, 0 being rank 4 and 3 being rank 1.
pub open spec fn row(s: int) -> int {
    s / 4
}

/// File of a square, 0 being file a.
pub open spec fn col(s: int) -> int {
    s % 4
}

pub open spec fn on_board(s: int) -> bool {
    0 <= s < 16
}

/// `t` is one orthogonal step from `s` (the wazir's move).
pub open spec fn orth_adjacent(s: int, t: int) -> bool {
    on_board(s) && on_board(t) && (
    (row(s) == row(t) && (col(s) == col(t) + 1 || col(t) == col(s) + 1))
    || (col(s) == col(t) && (row(s) == row(t) + 1 || row(t) == row(s) + 1)))
}

/// `t` is one diagonal step from `s` (the ferz's move).
pub open spec fn diag_adjacent(s: int, t: int) -> bool {
    on_board(s) && on_board(t)
    && (row(s) == row(t) + 1 || row(t) == row(s) + 1)
    && (col(s) == col(t) + 1 || col(t) == col(s) + 1)
}

/// `t` is one of the king's neighbours of `s`.
pub open spec fn king_adjacent(s: int, t: int) -> bool {
    orth_adjacent(s, t) || diag_adjacent(s, t)
}

/// A pawn on `s` attacks `t`: one step diagonally forward. White moves towards
/// row 0 (rank 4), Black towards row 3.
pub open spec fn pawn_attack(white: bool, s: int, t: int) -> bool {
    diag_adjacent(s, t) && (if white { row(t) + 1 == row(s) } else { row(s) + 1 == row(t) })
}

/// A ma on `s` attacks `t` given the occupied squares `block`: one orthogonal
/// step onto an empty square, then one diagonal step further out.
pub open spec fn ma_attack(s: int, block: u16, t: int) -> bool {
    on_board(s) && on_board(t) && (
    ((row(t) == row(s) + 2 || row(s) == row(t) + 2) && (col(t) == col(s) + 1 || col(s) == col(t) + 1)
        && !is_set(block, if row(t) > row(s) { s + 4 } else { s - 4 }))
    || ((col(t) == col(s) + 2 || col(s) == col(t) + 2) && (row(t) == row(s) + 1 || row(s) == row(t) + 1)
        && !is_set(block, if col(t) > col(s) { s + 1 } else { s - 1 })))
}

// ----------------------------------------------------------------------------
// Bit lemmas
// ----------------------------------------------------------------------------

/// The squares of `a & b` are those of both.
pub broadcast proof fn lemma_is_set_and(a: u16, b: u16, t: int)
    ensures
        #[trigger] is_set(a & b, t) == (is_set(a, t) && is_set(b, t)),
{
    if 0 <= t < 16 {
        let u = t as u16;
        assert(bit(a & b, u) == (bit(a, u) && bit(b, u))) by (bit_vector);
    }
}

/// The squares of `a | b` are those of either.
pub broadcast proof fn lemma_is_set_or(a: u16, b: u16, t: int)
    ensures
        #[trigger] is_set(a | b, t) == (is_set(a, t) || is_set(b, t)),
{
    if 0 <= t < 16 {
        let u = t as u16;
        assert(bit(a | b, u) == (bit(a, u) || bit(b, u))) by (bit_vector);
    }
}

/// The squares of `!a` are those not in `a`.
pub broadcast proof fn lemma_is_set_not(a: u16, t: int)
    ensures
        #[trigger] is_set(!a, t) == (on_board(t) && !is_set(a, t)),
{
    if 0 <= t < 16 {
        let u = t as u16;
        assert(bit(!a, u) == !bit(a, u)) by (bit_vector)
            requires
                u < 16,
        ;
    }
}

/// `1 << s` holds square `s` alone.
pub broadcast proof fn lemma_is_set_single(s: u16, t: int)
    requires
        s < 16,
    ensures
        #[trigger] is_set(1u16 << s, t) == (t == s as int),
{
    if 0 <= t < 16 {
        let u = t as u16;
        assert(bit(1u16 << s, u) == (u == s)) by (bit_vector)
            requires
                s < 16,
                u < 16,
        ;
    }
}

/// The empty board holds no square.
pub broadcast proof fn lemma_is_set_zero(t: int)
    ensures
        !#[trigger] is_set(0u16, t),
{
    if 0 <= t < 16 {
        let u = t as u16;
        assert(!bit(0u16, u)) by (bit_vector);
    }
}

pub broadcast group group_bit_lemmas {
    lemma_is_set_and,
    lemma_is_set_or,
    lemma_is_set_not,
    lemma_is_set_single,
    lemma_is_set_zero,
}

/// A board is empty exactly when it contains no square.
pub proof fn lemma_nonzero(a: u16)
    ensures
        (a != 0) == (exists|t: int| is_set(a, t)),
{
    if a != 0 {
        assert(bit(a, 0) || bit(a, 1) || bit(a, 2) || bit(a, 3) || bit(a, 4) || bit(a, 5)
            || bit(a, 6) || bit(a, 7) || bit(a, 8) || bit(a, 9) || bit(a, 10) || bit(a, 11)
            || bit(a, 12) || bit(a, 13) || bit(a, 14) || bit(a, 15)) by (bit_vector)
            requires
                a != 0,
        ;
        let mut k: int = 0;
        if bit(a, 0) { k = 0 } else if bit(a, 1) { k = 1 } else if bit(a, 2) { k = 2 }
        else if bit(a, 3) { k = 3 } else if bit(a, 4) { k = 4 } else if bit(a, 5) { k = 5 }
        else if bit(a, 6) { k = 6 } else if bit(a, 7) { k = 7 } else if bit(a, 8) { k = 8 }
        else if bit(a, 9) { k = 9 } else if bit(a, 10) { k = 10 } else if bit(a, 11) { k = 11 }
        else if bit(a, 12) { k = 12 } else if bit(a, 13) { k = 13 } else if bit(a, 14) { k = 14 }
        else { k = 15 }
        assert(is_set(a, k));
    } else {
        assert forall|t: int| !is_set(a, t) by {
            lemma_is_set_zero(t);
        }
    }
}

// ----------------------------------------------------------------------------
// Bitboard operations
// ----------------------------------------------------------------------------

impl Default for BitBoard {
    /// The empty board.
    fn default() -> (r: BitBoard)
        ensures
            r.0 == 0,
    {
        BitBoard(0)
    }
}

impl core::ops::BitOr for BitBoard {
    type Output = BitBoard;

    /// The squares of either board.
    fn bitor(self, rhs: BitBoard) -> (r: BitBoard) {
        BitBoard(self.0 | rhs.0)
    }
}

impl vstd::std_specs::ops::BitOrSpecImpl for BitBoard {
    open spec fn obeys_bitor_spec() -> bool {
        true
    }

    open spec fn bitor_req(self, rhs: BitBoard) -> bool {
        true
    }

    open spec fn bitor_spec(self, rhs: BitBoard) -> BitBoard {
        BitBoard(self.0 | rhs.0)
    }
}

impl core::ops::BitAnd for BitBoard {
    type Output = BitBoard;

    /// The squares of both boards.
    fn bitand(self, rhs: BitBoard) -> (r: BitBoard) {
        BitBoard(self.0 & rhs.0)
    }
}

impl vstd::std_specs::ops::BitAndSpecImpl for BitBoard {
    open spec fn obeys_bitand_spec() -> bool {
        true
    }

    open spec fn bitand_req(self, rhs: BitBoard) -> bool {
        true
    }

    open spec fn bitand_spec(self, rhs: BitBoard) -> BitBoard {
        BitBoard(self.0 & rhs.0)
    }
}

impl core::ops::BitXor for BitBoard {
    type Output = BitBoard;

    /// The squares of exactly one of the boards.
    fn bitxor(self, rhs: BitBoard) -> (r: BitBoard) {
        BitBoard(self.0 ^ rhs.0)
    }
}

impl vstd::std_specs::ops::BitXorSpecImpl for BitBoard {
    open spec fn obeys_bitxor_spec() -> bool {
        true
    }

    open spec fn bitxor_req(self, rhs: BitBoard) -> bool {
        true
    }

    open spec fn bitxor_spec(self, rhs: BitBoard) -> BitBoard {
        BitBoard(self.0 ^ rhs.0)
    }
}

impl core::ops::Mul for BitBoard {
    type Output = BitBoard;

    /// The wrapping product of the two boards' bit patterns.
    fn mul(self, rhs: BitBoard) -> (r: BitBoard) {
        BitBoard(self.0.wrapping_mul(rhs.0))
    }
}

impl vstd::std_specs::ops::MulSpecImpl for BitBoard {
    open spec fn obeys_mul_spec() -> bool {
        true
    }

    open spec fn mul_req(self, rhs: BitBoard) -> bool {
        true
    }

    open spec fn mul_spec(self, rhs: BitBoard) -> BitBoard {
        BitBoard(self.0.wrapping_mul(rhs.0))
    }
}

impl core::ops::Not for BitBoard {
    type Output = BitBoard;

    /// The squares not on the board.
    fn not(self) -> (r: BitBoard) {
        BitBoard(!self.0)
    }
}

impl vstd::std_specs::ops::NotSpecImpl for BitBoard {
    open spec fn obeys_not_spec() -> bool {
        true
    }

    open spec fn not_req(self) -> bool {
        true
    }

    open spec fn not_spec(self) -> BitBoard {
        BitBoard(!self.0)
    }
}

impl BitBoard {
    /// The square `i` is in the board.
    pub fn get_bit(self, i: u16) -> (r: bool)
        requires
            i < 16,
        ensures
            r == is_set(self.0, i as int),
    {
        let b = self.0;
        assert((b & (1u16 << i) != 0) == bit(b, i)) by (bit_vector)
            requires
                i < 16,
        ;
        b & (1u16 << i) != 0
    }

    /// Adds square `i`.
    pub fn set_bit(&mut self, i: u16)
        requires
            i < 16,
        ensures
            final(self).0 == old(self).0 | (1u16 << i),
            forall|t: int| #[trigger] is_set(final(self).0, t) == (is_set(old(self).0, t) || t == i),
    {
        broadcast use group_bit_lemmas;
        self.0 = self.0 | (1u16 << i);
    }

    /// Removes square `i`.
    pub fn pop_bit(&mut self, i: u16)
        requires
            i < 16,
        ensures
            final(self).0 == old(self).0 & !(1u16 << i),
            forall|t: int| #[trigger] is_set(final(self).0, t) == (is_set(old(self).0, t) && t != i),
    {
        broadcast use group_bit_lemmas;
        self.0 = self.0 & !(1u16 << i);
    }
}

// ----------------------------------------------------------------------------
// Attack tables
// ----------------------------------------------------------------------------

/// The wazir table, row by row: orthogonal neighbours of each square.
pub open spec fn wazir_row(s: u16) -> u16 {
    if s == 0 { 0b0000000000010010 }
    else if s == 1 { 0b0000000000100101 }
    else if s == 2 { 0b0000000001001010 }
    else if s == 3 { 0b0000000010000100 }
    else if s == 4 { 0b0000000100100001 }
    else if s == 5 { 0b0000001001010010 }
    else if s == 6 { 0b0000010010100100 }
    else if s == 7 { 0b0000100001001000 }
    else if s == 8 { 0b0001001000010000 }
    else if s == 9 { 0b0010010100100000 }
    else if s == 10 { 0b0100101001000000 }
    else if s == 11 { 0b1000010010000000 }
    else if s == 12 { 0b0010000100000000 }
    else if s == 13 { 0b0101001000000000 }
    else if s == 14 { 0b1010010000000000 }
    else { 0b0100100000000000 }
}

/// The ferz table, row by row: diagonal neighbours of each square.
pub open spec fn ferz_row(s: u16) -> u16 {
    if s == 0 { 0b0000000000100000 }
    else if s == 1 { 0b0000000001010000 }
    else if s == 2 { 0b0000000010100000 }
    else if s == 3 { 0b0000000001000000 }
    else if s == 4 { 0b0000001000000010 }
    else if s == 5 { 0b0000010100000101 }
    else if s == 6 { 0b0000101000001010 }
    else if s == 7 { 0b0000010000000100 }
    else if s == 8 { 0b0010000000100000 }
    else if s == 9 { 0b0101000001010000 }
    else if s == 10 { 0b1010000010100000 }
    else if s == 11 { 0b0100000001000000 }
    else if s == 12 { 0b0000001000000000 }
    else if s == 13 { 0b0000010100000000 }
    else if s == 14 { 0b0000101000000000 }
    else { 0b0000010000000000 }
}

/// The pawn table for White (attacks towards rank 4).
pub open spec fn white_pawn_row(s: u16) -> u16 {
    if s == 4 { 0b0000000000000010 }
    else if s == 5 { 0b0000000000000101 }
    else if s == 6 { 0b0000000000001010 }
    else if s == 7 { 0b0000000000000100 }
    else if s == 8 { 0b0000000000100000 }
    else if s == 9 { 0b0000000001010000 }
    else if s == 10 { 0b0000000010100000 }
    else if s == 11 { 0b0000000001000000 }
    else if s == 12 { 0b0000001000000000 }
    else if s == 13 { 0b0000010100000000 }
    else if s == 14 { 0b0000101000000000 }
    else if s == 15 { 0b0000010000000000 }
    else { 0 }
}

/// The pawn table for Black (attacks towards rank 1).
pub open spec fn black_pawn_row(s: u16) -> u16 {
    if s == 0 { 0b0000000000100000 }
    else if s == 1 { 0b0000000001010000 }
    else if s == 2 { 0b0000000010100000 }
    else if s == 3 { 0b0000000001000000 }
    else if s == 4 { 0b0000001000000000 }
    else if s == 5 { 0b0000010100000000 }
    else if s == 6 { 0b0000101000000000 }
    else if s == 7 { 0b0000010000000000 }
    else if s == 8 { 0b0010000000000000 }
    else if s == 9 { 0b0101000000000000 }
    else if s == 10 { 0b1010000000000000 }
    else if s == 11 { 0b0100000000000000 }
    else { 0 }
}

/// Magic multipliers of the ma lookup.
pub open spec fn magic(s: u16) -> u16 {
    if s == 0 { 17424 } else if s == 1 { 8768 } else if s == 2 { 8724 } else if s == 3 { 8320 }
    else if s == 4 { 4736 } else if s == 5 { 544 } else if s == 6 { 1042 } else if s == 7 { 521 }
    else if s == 8 { 2080 } else if s == 9 { 1040 } else if s == 10 { 544 } else if s == 11 { 160 }
    else if s == 12 { 130 } else if s == 13 { 65 } else if s == 14 { 20 } else { 8202 }
}

pub open spec fn pick(k: u16, a: u16, b: u16, c: u16) -> u16 {
    if k == 0 { a } else if k == 1 { b } else if k == 2 { c } else { 0 }
}

/// The ma attack table: entry `k` of square `s`.
pub open spec fn ma_table(s: u16, k: u16) -> u16 {
    if s == 0 { pick(k, 576, 64, 512) }
    else if s == 1 { pick(k, 1408, 128, 1280) }
    else if s == 2 { pick(k, 2576, 2560, 16) }
    else if s == 3 { pick(k, 1056, 32, 1024) }
    else if s == 4 { pick(k, 9220, 8192, 1028) }
    else if s == 5 { pick(k, 22536, 2056, 20480) }
    else if s == 6 { pick(k, 41217, 257, 40960) }
    else if s == 7 { pick(k, 16898, 514, 16384) }
    else if s == 8 { pick(k, 16450, 2, 16448) }
    else if s == 9 { pick(k, 32901, 5, 32896) }
    else if s == 10 { pick(k, 4122, 10, 4112) }
    else if s == 11 { pick(k, 8228, 8224, 4) }
    else if s == 12 { pick(k, 1056, 32, 1024) }
    else if s == 13 { pick(k, 2128, 80, 2048) }
    else if s == 14 { pick(k, 416, 256, 160) }
    else { pick(k, 576, 512, 64) }
}

/// The table index the magic multiplication gives for `block` around `s`.
pub open spec fn magic_index(s: u16, block: u16) -> u16 {
    ((((block & wazir_row(s)) as u32 * magic(s) as u32) as u32 & 0xffffu32) >> 14u32) as u16
}

pub proof fn lemma_wazir_row(s: u16, t: int)
    requires
        s < 16,
    ensures
        is_set(wazir_row(s), t) == orth_adjacent(s as int, t),
{
    if 0 <= t < 16 {
        let u = t as u16;
        assert(bit(wazir_row(s), u) == (
        (s / 4 == u / 4 && (s % 4 == u % 4 + 1 || u % 4 == s % 4 + 1))
        || (s % 4 == u % 4 && (s / 4 == u / 4 + 1 || u / 4 == s / 4 + 1)))) by (bit_vector)
            requires
                s < 16,
                u < 16,
        ;
    }
}

pub proof fn lemma_ferz_row(s: u16, t: int)
    requires
        s < 16,
    ensures
        is_set(ferz_row(s), t) == diag_adjacent(s as int, t),
{
    if 0 <= t < 16 {
        let u = t as u16;
        assert(bit(ferz_row(s), u) == (
        (s / 4 == u / 4 + 1 || u / 4 == s / 4 + 1) && (s % 4 == u % 4 + 1 || u % 4 == s % 4 + 1)))
            by (bit_vector)
            requires
                s < 16,
                u < 16,
        ;
    }
}

pub proof fn lemma_pawn_rows(s: u16, t: int)
    requires
        s < 16,
    ensures
        is_set(white_pawn_row(s), t) == pawn_attack(true, s as int, t),
        is_set(black_pawn_row(s), t) == pawn_attack(false, s as int, t),
{
    if 0 <= t < 16 {
        let u = t as u16;
        assert(bit(white_pawn_row(s), u) == (
        u / 4 + 1 == s / 4 && (s % 4 == u % 4 + 1 || u % 4 == s % 4 + 1))) by (bit_vector)
            requires
                s < 16,
                u < 16,
        ;
        assert(bit(black_pawn_row(s), u) == (
        s / 4 + 1 == u / 4 && (s % 4 == u % 4 + 1 || u % 4 == s % 4 + 1))) by (bit_vector)
            requires
                s < 16,
                u < 16,
        ;
    }
}

/// The magic lookup finds, for every occupancy, exactly the ma's attacks.
pub proof fn lemma_ma_table(s: u16, block: u16, t: int)
    requires
        s < 16,
    ensures
        is_set(ma_table(s, magic_index(s, block)), t) == ma_attack(s as int, block, t),
{
    if 0 <= t < 16 {
        let u = t as u16;
        assert(bit(ma_table(s, magic_index(s, block)), u) == (
        (((u / 4 == s / 4 + 2 || s / 4 == u / 4 + 2) && (u % 4 == s % 4 + 1 || s % 4 == u % 4 + 1))
            && !bit(block, if u / 4 > s / 4 { (s + 4) as u16 } else { (s - 4) as u16 }))
        || (((u % 4 == s % 4 + 2 || s % 4 == u % 4 + 2) && (u / 4 == s / 4 + 1 || s / 4 == u / 4 + 1))
            && !bit(block, if u % 4 > s % 4 { (s + 1) as u16 } else { (s - 1) as u16 }))))
            by (bit_vector)
            requires
                s < 16,
                u < 16,
        ;
    }
}

const WAZIR_ATTACKS: [u16; 16] = [
    0b0000000000010010, 0b0000000000100101, 0b0000000001001010, 0b0000000010000100,
    0b0000000100100001, 0b0000001001010010, 0b0000010010100100, 0b0000100001001000,
    0b0001001000010000, 0b0010010100100000, 0b0100101001000000, 0b1000010010000000,
    0b0010000100000000, 0b0101001000000000, 0b1010010000000000, 0b0100100000000000,
];

const FERZ_ATTACKS: [u16; 16] = [
    0b0000000000100000, 0b0000000001010000, 0b0000000010100000, 0b0000000001000000,
    0b0000001000000010, 0b0000010100000101, 0b0000101000001010, 0b0000010000000100,
    0b0010000000100000, 0b0101000001010000, 0b1010000010100000, 0b0100000001000000,
    0b0000001000000000, 0b0000010100000000, 0b0000101000000000, 0b0000010000000000,
];

const WHITE_PAWN_ATTACKS: [u16; 16] = [
    0b0000000000000000, 0b0000000000000000, 0b0000000000000000, 0b0000000000000000,
    0b0000000000000010, 0b0000000000000101, 0b0000000000001010, 0b0000000000000100,
    0b0000000000100000, 0b0000000001010000, 0b0000000010100000, 0b0000000001000000,
    0b0000001000000000, 0b0000010100000000, 0b0000101000000000, 0b0000010000000000,
];

const BLACK_PAWN_ATTACKS: [u16; 16] = [
    0b0000000000100000, 0b0000000001010000, 0b0000000010100000, 0b0000000001000000,
    0b0000001000000000, 0b0000010100000000, 0b0000101000000000, 0b0000010000000000,
    0b0010000000000000, 0b0101000000000000, 0b1010000000000000, 0b0100000000000000,
    0b0000000000000000, 0b0000000000000000, 0b0000000000000000, 0b0000000000000000,
];

const MAGICS: [u16; 16] = [
    17424, 8768, 8724, 8320, 4736, 544, 1042, 521, 2080, 1040, 544, 160, 130, 65, 20, 8202,
];

const MA_ATTACKS: [[u16; 4]; 16] = [
    [576, 64, 512, 0],
    [1408, 128, 1280, 0],
    [2576, 2560, 16, 0],
    [1056, 32, 1024, 0],
    [9220, 8192, 1028, 0],
    [22536, 2056, 20480, 0],
    [41217, 257, 40960, 0],
    [16898, 514, 16384, 0],
    [16450, 2, 16448, 0],
    [32901, 5, 32896, 0],
    [4122, 10, 4112, 0],
    [8228, 8224, 4, 0],
    [1056, 32, 1024, 0],
    [2128, 80, 2048, 0],
    [416, 256, 160, 0],
    [576, 512, 64, 0],
];

/// Squares a wazir on `s` attacks.
pub fn wazir_attacks(s: u16) -> (r: BitBoard)
    requires
        s < 16,
    ensures
        forall|t: int| #[trigger] is_set(r.0, t) == orth_adjacent(s as int, t),
{
    let r = BitBoard(WAZIR_ATTACKS[s as usize]);
    assert(r.0 == wazir_row(s));
    proof {
        assert forall|t: int| #[trigger] is_set(r.0, t) == orth_adjacent(s as int, t) by {
            lemma_wazir_row(s, t);
        }
    }
    r
}

/// Squares a ferz on `s` attacks.
pub fn ferz_attacks(s: u16) -> (r: BitBoard)
    requires
        s < 16,
    ensures
        forall|t: int| #[trigger] is_set(r.0, t) == diag_adjacent(s as int, t),
{
    let r = BitBoard(FERZ_ATTACKS[s as usize]);
    assert(r.0 == ferz_row(s));
    proof {
        assert forall|t: int| #[trigger] is_set(r.0, t) == diag_adjacent(s as int, t) by {
            lemma_ferz_row(s, t);
        }
    }
    r
}

/// Squares a pawn of the given colour on `s` attacks.
pub fn pawn_attacks(white: bool, s: u16) -> (r: BitBoard)
    requires
        s < 16,
    ensures
        forall|t: int| #[trigger] is_set(r.0, t) == pawn_attack(white, s as int, t),
{
    let r = if white {
        BitBoard(WHITE_PAWN_ATTACKS[s as usize])
    } else {
        BitBoard(BLACK_PAWN_ATTACKS[s as usize])
    };
    assert(r.0 == if white { white_pawn_row(s) } else { black_pawn_row(s) });
    proof {
        assert forall|t: int| #[trigger] is_set(r.0, t) == pawn_attack(white, s as int, t) by {
            lemma_pawn_rows(s, t);
        }
    }
    r
}

/// Squares a ma on `s` attacks when the squares of `block_mask` are occupied,
/// found by the magic multiplication into the ma table.
pub fn lookup_ma_attacks(s: u16, block_mask: BitBoard) -> (r: BitBoard)
    requires
        s < 16,
    ensures
        forall|t: int| #[trigger] is_set(r.0, t) == ma_attack(s as int, block_mask.0, t),
{
    let neighbours = WAZIR_ATTACKS[s as usize];
    let multiplier = MAGICS[s as usize];
    assert(neighbours == wazir_row(s));
    assert(multiplier == magic(s));
    let blockers: u32 = (block_mask.0 & neighbours) as u32;
    let factor: u32 = multiplier as u32;
    assert(blockers * factor <= u32::MAX) by (nonlinear_arith)
        requires
            blockers < 65536,
            factor < 65536,
    ;
    let product: u32 = blockers * factor;
    assert(product == (blockers * factor) as u32);
    let index: u32 = (product & 0xffff) >> 14;
    assert(index < 4) by (bit_vector)
        requires
            index == (product & 0xffff) >> 14,
    ;
    assert(blockers == (block_mask.0 & wazir_row(s)) as u32);
    assert(factor == magic(s) as u32);
    assert(magic_index(s, block_mask.0) == index as u16);
    let r = BitBoard(MA_ATTACKS[s as usize][index as usize]);
    assert(r.0 == ma_table(s, index as u16));
    proof {
        assert forall|t: int| #[trigger] is_set(r.0, t) == ma_attack(s as int, block_mask.0, t) by {
            lemma_ma_table(s, block_mask.0, t);
        }
    }
    r
}

} // verus!
