//! A player's reserve of captured pieces, packed two bits per kind of piece.
use vstd::prelude::*;
use crate::pieces::Piece;

verus! {

/// Counts of wazirs (bits 6-7), mas (bits 4-5), ferzes (bits 2-3) and pawns
/// (bits 0-1) held in reserve.
#[derive(Clone, Copy)]
pub struct Inventory {
    inventory: u8,
}

impl View for Inventory {
    type V = u8;

    closed spec fn view(&self) -> u8 {
        self.inventory
    }
}

/// Position of a piece's two-bit counter.
pub open spec fn shift(p: Piece) -> u8 {
    match p {
        Piece::Wazir => 6,
        Piece::Ma => 4,
        Piece::Ferz => 2,
        _ => 0,
    }
}

/// One unit of a piece's counter.
pub open spec fn unit(p: Piece) -> u8 {
    match p {
        Piece::Wazir => 64,
        Piece::Ma => 16,
        Piece::Ferz => 4,
        _ => 1,
    }
}

/// How many pieces of kind `p` the packed reserve `raw` holds.
pub open spec fn count_of(raw: u8, p: Piece) -> u8 {
    (raw >> shift(p)) & 3u8
}

/// The packed reserve holding `w` wazirs, `m` mas, `f` ferzes and `p` pawns.
pub open spec fn packed(w: int, m: int, f: int, p: int) -> int {
    64 * w + 16 * m + 4 * f + p
}

impl Inventory {
    /// The reserve whose packed byte is `raw`.
    pub closed spec fn spec_from_raw(raw: u8) -> Inventory {
        Inventory { inventory: raw }
    }

    pub broadcast proof fn lemma_from_raw_view(raw: u8)
        ensures
            #[trigger] Inventory::spec_from_raw(raw)@ == raw,
    {
    }

    /// Reserves with the same packed byte are the same.
    pub broadcast proof fn lemma_view_injective(a: Inventory, b: Inventory)
        ensures
            #[trigger] a@ == #[trigger] b@ ==> a == b,
    {
    }

    /// The reserve whose packed byte is `item`.
    pub fn from_raw(item: u8) -> (r: Inventory)
        ensures
            r@ == item,
    {
        Inventory { inventory: item }
    }

    /// How many pieces of kind `piece` are held. The king is never held.
    pub fn get(&self, piece: Piece) -> (r: u8)
        requires
            piece != Piece::King,
        ensures
            r == count_of(self@, piece),
            r <= 3,
    {
        let raw = self.inventory;
        let r = match piece {
            Piece::Wazir => (raw >> 6u8) & 0b11,
            Piece::Ma => (raw >> 4u8) & 0b11,
            Piece::Ferz => (raw >> 2u8) & 0b11,
            _ => raw & 0b11,
        };
        assert(raw >> 0u8 == raw) by (bit_vector);
        let ghost sh = shift(piece);
        assert(r == (raw >> sh) & 3u8);
        assert(r <= 3) by (bit_vector)
            requires
                r == (raw >> sh) & 3u8,
        ;
        r
    }

    /// Adds one unit to the counter of `piece`.
    pub fn increment(&mut self, piece: Piece)
        requires
            piece != Piece::King,
            old(self)@ + unit(piece) <= 255,
        ensures
            final(self)@ == old(self)@ + unit(piece),
    {
        match piece {
            Piece::Wazir => self.inventory = self.inventory + 64,
            Piece::Ma => self.inventory = self.inventory + 16,
            Piece::Ferz => self.inventory = self.inventory + 4,
            _ => self.inventory = self.inventory + 1,
        }
    }

    /// Removes one unit from the counter of `piece`.
    pub fn decrement(&mut self, piece: Piece)
        requires
            piece != Piece::King,
            old(self)@ >= unit(piece),
        ensures
            final(self)@ == old(self)@ - unit(piece),
    {
        match piece {
            Piece::Wazir => self.inventory = self.inventory - 64,
            Piece::Ma => self.inventory = self.inventory - 16,
            Piece::Ferz => self.inventory = self.inventory - 4,
            _ => self.inventory = self.inventory - 1,
        }
    }
}

impl From<u8> for Inventory {
    fn from(item: u8) -> (r: Inventory) {
        Inventory { inventory: item }
    }
}

impl vstd::std_specs::convert::FromSpecImpl<u8> for Inventory {
    open spec fn obeys_from_spec() -> bool {
        true
    }

    open spec fn from_spec(v: u8) -> Inventory {
        Inventory::spec_from_raw(v)
    }
}

/// Adding a unit to a counter below three raises that count by one and leaves
/// the other counters alone.
pub proof fn lemma_increment_counts(raw: u8, p: Piece, q: Piece)
    requires
        p != Piece::King,
        q != Piece::King,
        count_of(raw, p) < 3,
    ensures
        raw + unit(p) <= 255,
        count_of((raw + unit(p)) as u8, q) == if q == p { count_of(raw, q) + 1 } else {
            count_of(raw, q) as int
        },
{
    let sp = shift(p);
    let sq = shift(q);
    let u = unit(p);
    assert((raw >> sp) & 3u8 < 3 && ((sp == 0 && u == 1) || (sp == 2 && u == 4) || (sp == 4 && u == 16) || (sp == 6 && u == 64))
        ==> raw + u <= 255) by (bit_vector);
    assert((raw >> sp) & 3u8 < 3 && ((sp == 0 && u == 1) || (sp == 2 && u == 4) || (sp == 4 && u == 16) || (sp == 6 && u == 64))
        && (sq == 0 || sq == 2 || sq == 4 || sq == 6)
        ==> ((((raw + u) as u8) >> sq) & 3u8) == if sq == sp { ((raw >> sq) & 3u8) + 1 } else {
            ((raw >> sq) & 3u8) as int
        }) by (bit_vector);
    assert(sq == sp <==> q == p);
}

/// Taking a unit from a non-zero counter lowers that count by one and leaves
/// the other counters alone.
pub proof fn lemma_decrement_counts(raw: u8, p: Piece, q: Piece)
    requires
        p != Piece::King,
        q != Piece::King,
        count_of(raw, p) > 0,
    ensures
        raw >= unit(p),
        count_of((raw - unit(p)) as u8, q) == if q == p { count_of(raw, q) - 1 } else {
            count_of(raw, q) as int
        },
{
    let sp = shift(p);
    let sq = shift(q);
    let u = unit(p);
    assert((raw >> sp) & 3u8 > 0 && ((sp == 0 && u == 1) || (sp == 2 && u == 4) || (sp == 4 && u == 16) || (sp == 6 && u == 64))
        ==> raw >= u) by (bit_vector);
    assert((raw >> sp) & 3u8 > 0 && ((sp == 0 && u == 1) || (sp == 2 && u == 4) || (sp == 4 && u == 16) || (sp == 6 && u == 64))
        && (sq == 0 || sq == 2 || sq == 4 || sq == 6)
        ==> ((((raw - u) as u8) >> sq) & 3u8) == if sq == sp { ((raw >> sq) & 3u8) - 1 } else {
            ((raw >> sq) & 3u8) as int
        }) by (bit_vector);
    assert(sq == sp <==> q == p);
}

/// The counts of a packed reserve are its four digits in base four.
pub proof fn lemma_packed_counts(w: u8, m: u8, f: u8, p: u8)
    requires
        w <= 3,
        m <= 3,
        f <= 3,
        p <= 3,
    ensures
        packed(w as int, m as int, f as int, p as int) <= 255,
        count_of(packed(w as int, m as int, f as int, p as int) as u8, Piece::Wazir) == w,
        count_of(packed(w as int, m as int, f as int, p as int) as u8, Piece::Ma) == m,
        count_of(packed(w as int, m as int, f as int, p as int) as u8, Piece::Ferz) == f,
        count_of(packed(w as int, m as int, f as int, p as int) as u8, Piece::Pawn) == p,
{
    let x = packed(w as int, m as int, f as int, p as int);
    assert(x <= 255);
    let b = x as u8;
    assert(b == 64 * w + 16 * m + 4 * f + p);
    assert(w <= 3 && m <= 3 && f <= 3 && p <= 3 && b == 64 * w + 16 * m + 4 * f + p ==> (
        (b >> 6u8) & 3u8 == w && (b >> 4u8) & 3u8 == m && (b >> 2u8) & 3u8 == f
        && (b >> 0u8) & 3u8 == p)) by (bit_vector);
}

} // verus!
