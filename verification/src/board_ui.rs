//! The decisions of the play screens: what a click selects, which move a
//! selection makes, when the game is over, and whose turn the board faces.
//! Drawing and pointer handling stay with the user interface.
use vstd::prelude::*;
use crate::pieces::{Square, Piece, Side, Move, square_at, square_from_index, group_square_lemmas};
use crate::position::GameState;
use crate::search::{alphabeta_best_move, best_move};

verus! {

broadcast use group_square_lemmas;

/// The two ways to play.
#[derive(Debug, Clone, Copy, PartialEq, Eq, Structural)]
pub enum PlayMode {
    PassAndPlay,
    Computer,
}

impl PlayMode {
    /// The mode's label in the menu.
    pub fn as_str(&self) -> (r: &'static str)
        ensures
            r@ == match self {
                PlayMode::PassAndPlay => "Pass and Play"@,
                PlayMode::Computer => "Computer"@,
            },
    {
        match self {
            PlayMode::PassAndPlay => "Pass and Play",
            PlayMode::Computer => "Computer",
        }
    }
}

/// Position of a kind of piece in `Piece::ALL`.
pub open spec fn piece_slot(p: Piece) -> int {
    match p {
        Piece::King => 0,
        Piece::Wazir => 1,
        Piece::Ma => 2,
        Piece::Ferz => 3,
        Piece::Pawn => 4,
    }
}

fn piece_index(p: Piece) -> (r: usize)
    ensures
        r as int == piece_slot(p),
        r < 5,
{
    match p {
        Piece::King => 0,
        Piece::Wazir => 1,
        Piece::Ma => 2,
        Piece::Ferz => 3,
        Piece::Pawn => 4,
    }
}

/// The moves of `moves` from square `s`, in order.
pub open spec fn moves_from(moves: Seq<Move>, s: int) -> Seq<Move> {
    moves.filter(|m: Move| m.source == Some(square_at(s)))
}

/// The drops of `p` among `moves`, in order.
pub open spec fn drops_of(moves: Seq<Move>, p: Piece) -> Seq<Move> {
    moves.filter(|m: Move| m.source is None && m.piece == p)
}

/// The board widget's state: what is selected, the legal moves grouped by
/// source square and by dropped piece, which side faces the player, and the
/// result once the game is over (`true` for checkmate, `false` for
/// stalemate, with the winner).
pub struct ChessBoardWidget {
    pub flip_board: bool,
    pub selected_square: Option<Square>,
    pub selected_piece: Option<Square>,
    pub promotion_pending: Option<Move>,
    pub promotion_selected: Option<Piece>,
    pub selected_inventory_piece: Option<Piece>,
    /// Legal moves by source square index.
    pub available_piece_moves: Vec<Vec<Move>>,
    /// Legal drops by piece, in the order of `Piece::ALL`.
    pub available_placement_moves: Vec<Vec<Move>>,
    pub player_side: Side,
    pub result: Option<(Side, bool)>,
}

impl ChessBoardWidget {
    /// No square, piece, reserve piece or promotion is selected.
    pub open spec fn nothing_selected(self) -> bool {
        &&& self.selected_square is None
        &&& self.selected_piece is None
        &&& self.selected_inventory_piece is None
        &&& self.promotion_pending is None
        &&& self.promotion_selected is None
    }

    /// The widget is consistent with the position `g`: its move lists hold
    /// the legal moves of `g`, a pending promotion is a legal promotion of
    /// `g`, and a chosen promotion piece is a wazir, a ferz or a ma.
    pub open spec fn widget_wf(self, g: GameState) -> bool {
        &&& self.lists_match(g)
        &&& (self.promotion_pending matches Some(m) ==> g.legal_moves().contains(m) && m.promoted_piece is Some)
        &&& (self.promotion_selected matches Some(q) ==> promotion_choice(q))
    }

    /// Under a consistent widget, what a selection parses to is a legal move,
    /// and what it leaves pending is a legal promotion.
    pub proof fn lemma_parse_outcome_legal(self, g: GameState)
        requires
            self.widget_wf(g),
            g.playable(),
        ensures
            self.parse_outcome().1 matches Some(m) ==> g.legal_moves().contains(m),
            self.parse_outcome().0 matches Some(m) ==> g.legal_moves().contains(m) && m.promoted_piece is Some,
    {
        broadcast use vstd::seq_lib::group_filter_ensures;
        let legal = g.legal_moves();
        if let (Some(target), Some(source)) = (self.selected_square, self.selected_piece) {
            let list = self.available_piece_moves@[source.idx()]@;
            lemma_first_to_in(list, target, 0);
            if let Some(m) = first_to(list, target, 0) {
                let pred = |x: Move| x.source == Some(square_at(source.idx()));
                assert(list == legal.filter(pred));
                legal.lemma_filter_contains_rev(pred, m);
            }
        }
        if let (Some(target), Some(piece)) = (self.selected_square, self.selected_inventory_piece) {
            let list = self.available_placement_moves@[piece_slot(piece)]@;
            lemma_first_to_in(list, target, 0);
            if let Some(m) = first_to(list, target, 0) {
                let pred = |x: Move| x.source is None && x.piece == piece;
                assert(list == legal.filter(pred));
                legal.lemma_filter_contains_rev(pred, m);
            }
        }
        if let (Some(m), Some(q)) = (self.parse_outcome_pending(), self.promotion_selected) {
            g.lemma_promotion_choices_legal(m, q);
        }
    }

    /// What the selection leaves pending before a promotion choice applies.
    pub open spec fn parse_outcome_pending(self) -> Option<Move> {
        match (self.selected_square, self.selected_piece) {
            (Some(target), Some(source)) => match first_to(
                self.available_piece_moves@[source.idx()]@,
                target,
                0,
            ) {
                Some(m) => if m.promoted_piece is None {
                    self.promotion_pending
                } else {
                    Some(m)
                },
                None => self.promotion_pending,
            },
            _ => self.promotion_pending,
        }
    }

    /// The move lists hold exactly the legal moves of `g`, grouped.
    pub open spec fn lists_match(self, g: GameState) -> bool {
        &&& self.available_piece_moves@.len() == 16
        &&& self.available_placement_moves@.len() == 5
        &&& forall|s: int| 0 <= s < 16 ==> (#[trigger] self.available_piece_moves@[s])@ == moves_from(
            g.legal_moves(),
            s,
        )
        &&& forall|p: Piece| (#[trigger] self.available_placement_moves@[piece_slot(p)])@ == drops_of(
            g.legal_moves(),
            p,
        )
    }

    /// Groups the legal moves of `game_state` by source square and by dropped
    /// piece.
    pub fn compute_available_moves(&mut self, game_state: &GameState)
        requires
            game_state.moves_makeable(),
        ensures
            final(self).lists_match(*game_state),
            final(self).flip_board == old(self).flip_board,
            final(self).selected_square == old(self).selected_square,
            final(self).selected_piece == old(self).selected_piece,
            final(self).promotion_pending == old(self).promotion_pending,
            final(self).promotion_selected == old(self).promotion_selected,
            final(self).selected_inventory_piece == old(self).selected_inventory_piece,
            final(self).player_side == old(self).player_side,
            final(self).result == old(self).result,
    {
        let legal = game_state.generate_legal_moves();
        let mut piece_moves: Vec<Vec<Move>> = Vec::new();
        let mut k: usize = 0;
        while k < 16
            invariant
                k <= 16,
                piece_moves@.len() == k,
                forall|s: int| 0 <= s < k ==> (#[trigger] piece_moves@[s])@ == Seq::<Move>::empty(),
            decreases 16 - k,
        {
            piece_moves.push(Vec::new());
            k = k + 1;
        }
        let mut placement_moves: Vec<Vec<Move>> = Vec::new();
        let mut k: usize = 0;
        while k < 5
            invariant
                k <= 5,
                placement_moves@.len() == k,
                forall|s: int| 0 <= s < k ==> (#[trigger] placement_moves@[s])@ == Seq::<Move>::empty(),
            decreases 5 - k,
        {
            placement_moves.push(Vec::new());
            k = k + 1;
        }
        let mut i: usize = 0;
        while i < legal.len()
            invariant
                i <= legal.len(),
                legal@ == game_state.legal_moves(),
                piece_moves@.len() == 16,
                placement_moves@.len() == 5,
                forall|s: int| 0 <= s < 16 ==> (#[trigger] piece_moves@[s])@ == moves_from(
                    legal@.take(i as int),
                    s,
                ),
                forall|p: Piece| (#[trigger] placement_moves@[piece_slot(p)])@ == drops_of(
                    legal@.take(i as int),
                    p,
                ),
            decreases legal.len() - i,
        {
            let candidate = legal[i];
            proof {
                reveal_with_fuel(Seq::<_>::filter, 1);
                assert(legal@.take(i + 1).drop_last() =~= legal@.take(i as int));
            }
            match candidate.source {
                Some(source) => {
                    let k = source.index() as usize;
                    piece_moves[k].push(candidate);
                },
                None => {
                    let k = piece_index(candidate.piece);
                    placement_moves[k].push(candidate);
                },
            }
            i = i + 1;
        }
        assert(legal@.take(legal.len() as int) =~= legal@);
        self.available_piece_moves = piece_moves;
        self.available_placement_moves = placement_moves;
    }
}

/// The first of `moves[i..]` going to `target`.
pub open spec fn first_to(moves: Seq<Move>, target: Square, i: int) -> Option<Move>
    decreases moves.len() - i,
{
    if i < 0 || i >= moves.len() {
        None
    } else if moves[i].target == target {
        Some(moves[i])
    } else {
        first_to(moves, target, i + 1)
    }
}

/// What `first_to` finds is one of the moves.
pub proof fn lemma_first_to_in(moves: Seq<Move>, target: Square, i: int)
    ensures
        first_to(moves, target, i) matches Some(m) ==> moves.contains(m) && m.target == target,
    decreases moves.len() - i,
{
    if 0 <= i < moves.len() && moves[i].target != target {
        lemma_first_to_in(moves, target, i + 1);
    }
}

/// A piece a pawn may become: a wazir, a ferz or a ma.
pub open spec fn promotion_choice(q: Piece) -> bool {
    q == Piece::Wazir || q == Piece::Ferz || q == Piece::Ma
}

/// The first move of `moves` going to `target`.
fn find_to(moves: &Vec<Move>, target: Square) -> (r: Option<Move>)
    ensures
        r == first_to(moves@, target, 0),
{
    let mut i: usize = 0;
    while i < moves.len()
        invariant
            i <= moves.len(),
            first_to(moves@, target, 0) == first_to(moves@, target, i as int),
        decreases moves.len() - i,
    {
        if moves[i].target == target {
            return Some(moves[i]);
        }
        i = i + 1;
    }
    None
}

/// The reserve pieces in the order the inventory column lists them.
pub open spec fn inventory_order(k: int) -> Piece {
    crate::position::drop_order(k)
}

impl ChessBoardWidget {
    /// A widget for `game_state` with nothing selected, White facing the
    /// player, and the board turned towards the side to move after each move.
    pub fn new(game_state: &GameState) -> (r: Self)
        requires
            game_state.moves_makeable(),
        ensures
            r.lists_match(*game_state),
            r.widget_wf(*game_state),
            r.flip_board,
            r.selected_square is None,
            r.selected_piece is None,
            r.promotion_pending is None,
            r.promotion_selected is None,
            r.selected_inventory_piece is None,
            r.player_side == Side::White,
            r.result is None,
    {
        let mut widget = Self {
            flip_board: true,
            selected_square: None,
            selected_piece: None,
            promotion_pending: None,
            promotion_selected: None,
            selected_inventory_piece: None,
            available_piece_moves: Vec::new(),
            available_placement_moves: Vec::new(),
            player_side: Side::White,
            result: None,
        };
        widget.compute_available_moves(game_state);
        widget
    }

    /// Where row `rank` and file `file` of the board are drawn: unchanged for
    /// White, turned half round for Black.
    pub fn map_square(&self, rank: u8, file: u8) -> (r: (u8, u8))
        requires
            self.player_side == Side::Black ==> rank <= 3 && file <= 3,
        ensures
            r == match self.player_side {
                Side::White => (rank, file),
                Side::Black => ((3 - rank) as u8, (3 - file) as u8),
            },
    {
        match self.player_side {
            Side::White => (rank, file),
            Side::Black => (3 - rank, 3 - file),
        }
    }

    /// The selected square and piece after a click on drawn file
    /// `clicked_file` and row `clicked_rank`.
    pub open spec fn board_click_outcome(self, clicked_file: int, clicked_rank: int) -> (
        Option<Square>,
        Option<Square>,
    ) {
        let (file, rank) = match self.player_side {
            Side::White => (clicked_file, clicked_rank),
            Side::Black => (3 - clicked_file, 3 - clicked_rank),
        };
        let s = 4 * rank + file;
        if 0 <= file < 4 && 0 <= rank < 4 {
            (
                Some(square_at(s)),
                if self.available_piece_moves@[s]@.len() > 0 {
                    Some(square_at(s))
                } else {
                    self.selected_piece
                },
            )
        } else {
            (self.selected_square, self.selected_piece)
        }
    }

    /// A click on drawn file `clicked_file` and row `clicked_rank`: selects
    /// that square, and the piece on it too when it has a legal move.
    pub fn click_board(&mut self, clicked_file: u32, clicked_rank: u32)
        requires
            old(self).available_piece_moves@.len() == 16,
            old(self).player_side == Side::Black ==> clicked_file <= 3 && clicked_rank <= 3,
        ensures
            (final(self).selected_square, final(self).selected_piece) == old(self).board_click_outcome(
                clicked_file as int,
                clicked_rank as int,
            ),
            final(self).available_piece_moves == old(self).available_piece_moves,
            final(self).available_placement_moves == old(self).available_placement_moves,
            final(self).flip_board == old(self).flip_board,
            final(self).promotion_pending == old(self).promotion_pending,
            final(self).promotion_selected == old(self).promotion_selected,
            final(self).selected_inventory_piece == old(self).selected_inventory_piece,
            final(self).player_side == old(self).player_side,
            final(self).result == old(self).result,
    {
        let (clicked_file, clicked_rank) = match self.player_side {
            Side::White => (clicked_file, clicked_rank),
            Side::Black => (3 - clicked_file, 3 - clicked_rank),
        };
        if clicked_file < 4 && clicked_rank < 4 {
            let index = (4 * clicked_rank + clicked_file) as u16;
            let clicked_square = square_from_index(index);
            self.selected_square = Some(clicked_square);
            if self.available_piece_moves[index as usize].len() > 0 {
                self.selected_piece = Some(clicked_square);
            }
        }
    }

    pub fn deselect_board(&mut self)
        ensures
            final(self).selected_square is None,
            final(self).selected_piece is None,
            final(self).available_piece_moves == old(self).available_piece_moves,
            final(self).available_placement_moves == old(self).available_placement_moves,
            final(self).flip_board == old(self).flip_board,
            final(self).promotion_pending == old(self).promotion_pending,
            final(self).promotion_selected == old(self).promotion_selected,
            final(self).selected_inventory_piece == old(self).selected_inventory_piece,
            final(self).player_side == old(self).player_side,
            final(self).result == old(self).result,
    {
        self.selected_square = None;
        self.selected_piece = None;
    }

    pub fn deselect_inventory(&mut self)
        ensures
            final(self).selected_inventory_piece is None,
            final(self).selected_square == old(self).selected_square,
            final(self).selected_piece == old(self).selected_piece,
            final(self).available_piece_moves == old(self).available_piece_moves,
            final(self).available_placement_moves == old(self).available_placement_moves,
            final(self).flip_board == old(self).flip_board,
            final(self).promotion_pending == old(self).promotion_pending,
            final(self).promotion_selected == old(self).promotion_selected,
            final(self).player_side == old(self).player_side,
            final(self).result == old(self).result,
    {
        self.selected_inventory_piece = None;
    }

    /// Chooses the piece a pending promotion becomes; only a wazir, a ferz or
    /// a ma can be chosen.
    pub fn select_promotion(&mut self, piece: Piece)
        ensures
            final(self).promotion_selected == if promotion_choice(piece) {
                Some(piece)
            } else {
                old(self).promotion_selected
            },
            final(self).promotion_pending == old(self).promotion_pending,
            final(self).selected_square == old(self).selected_square,
            final(self).selected_piece == old(self).selected_piece,
            final(self).available_piece_moves == old(self).available_piece_moves,
            final(self).available_placement_moves == old(self).available_placement_moves,
            final(self).flip_board == old(self).flip_board,
            final(self).selected_inventory_piece == old(self).selected_inventory_piece,
            final(self).player_side == old(self).player_side,
            final(self).result == old(self).result,
    {
        match piece {
            Piece::Wazir | Piece::Ferz | Piece::Ma => self.promotion_selected = Some(piece),
            _ => {},
        }
    }

    pub fn deselect_promotion(&mut self)
        ensures
            final(self).promotion_pending is None,
            final(self).promotion_selected is None,
            final(self).selected_square == old(self).selected_square,
            final(self).selected_piece == old(self).selected_piece,
            final(self).available_piece_moves == old(self).available_piece_moves,
            final(self).available_placement_moves == old(self).available_placement_moves,
            final(self).flip_board == old(self).flip_board,
            final(self).selected_inventory_piece == old(self).selected_inventory_piece,
            final(self).player_side == old(self).player_side,
            final(self).result == old(self).result,
    {
        self.promotion_pending = None;
        self.promotion_selected = None;
    }

    /// A click on entry `clicked_piece` of an inventory column (counted from
    /// the top, or from the bottom for the right-hand column): selects that
    /// reserve piece.
    pub fn click_inventory(&mut self, clicked_piece: usize, left: bool)
        ensures
            final(self).selected_inventory_piece == if clicked_piece < 4 {
                Some(inventory_order(if left { clicked_piece as int } else { 3 - clicked_piece }))
            } else {
                old(self).selected_inventory_piece
            },
            final(self).selected_square == old(self).selected_square,
            final(self).selected_piece == old(self).selected_piece,
            final(self).available_piece_moves == old(self).available_piece_moves,
            final(self).available_placement_moves == old(self).available_placement_moves,
            final(self).flip_board == old(self).flip_board,
            final(self).promotion_pending == old(self).promotion_pending,
            final(self).promotion_selected == old(self).promotion_selected,
            final(self).player_side == old(self).player_side,
            final(self).result == old(self).result,
    {
        if clicked_piece < 4 {
            let clicked_piece = if left { clicked_piece } else { 3 - clicked_piece };
            let pieces = [Piece::Wazir, Piece::Ma, Piece::Ferz, Piece::Pawn];
            self.selected_inventory_piece = Some(pieces[clicked_piece]);
        }
    }

    /// A click on the board widget: `inventory_entry` is the entry of the
    /// player's inventory column that was hit, if any, and `board_cell` the
    /// drawn file and row of the board that was hit, if any. A click on either
    /// drops a pending promotion; a click off the board clears the board
    /// selection; selecting a piece on the board clears the inventory
    /// selection.
    pub fn click(&mut self, inventory_entry: Option<usize>, board_cell: Option<(u32, u32)>)
        requires
            old(self).available_piece_moves@.len() == 16,
            old(self).player_side == Side::Black ==> (board_cell matches Some((f, r)) ==> f <= 3 && r <= 3),
        ensures
            ({
                let inventory_selected = match inventory_entry {
                    Some(k) => if k < 4 {
                        Some(inventory_order(k as int))
                    } else {
                        old(self).selected_inventory_piece
                    },
                    None => old(self).selected_inventory_piece,
                };
                let (square, piece) = match board_cell {
                    Some((f, r)) => old(self).board_click_outcome(f as int, r as int),
                    None => (None, None),
                };
                &&& final(self).selected_square == square
                &&& final(self).selected_piece == piece
                &&& final(self).selected_inventory_piece == if piece is Some {
                    None
                } else {
                    inventory_selected
                }
                &&& final(self).promotion_pending == if inventory_entry is Some || board_cell is Some {
                    None
                } else {
                    old(self).promotion_pending
                }
                &&& final(self).promotion_selected == if inventory_entry is Some || board_cell is Some {
                    None
                } else {
                    old(self).promotion_selected
                }
            }),
            final(self).available_piece_moves == old(self).available_piece_moves,
            final(self).available_placement_moves == old(self).available_placement_moves,
            final(self).flip_board == old(self).flip_board,
            final(self).player_side == old(self).player_side,
            final(self).result == old(self).result,
    {
        if let Some(k) = inventory_entry {
            self.click_inventory(k, true);
            self.deselect_promotion();
        }
        match board_cell {
            Some((f, r)) => {
                self.click_board(f, r);
                self.deselect_promotion();
            },
            None => self.deselect_board(),
        }
        if self.selected_piece.is_some() {
            self.deselect_inventory();
        }
    }

    /// What `try_parse_move` leaves pending and returns, in that order.
    pub open spec fn parse_outcome(self) -> (Option<Move>, Option<Move>) {
        let (selected, pending) = match (self.selected_square, self.selected_piece) {
            (Some(target), Some(source)) => match first_to(
                self.available_piece_moves@[source.idx()]@,
                target,
                0,
            ) {
                Some(m) => if m.promoted_piece is None {
                    (Some(m), self.promotion_pending)
                } else {
                    (None, Some(m))
                },
                None => (None, self.promotion_pending),
            },
            _ => (None, self.promotion_pending),
        };
        let selected = match (self.selected_square, self.selected_inventory_piece) {
            (Some(target), Some(piece)) => match first_to(
                self.available_placement_moves@[piece_slot(piece)]@,
                target,
                0,
            ) {
                Some(m) => Some(m),
                None => selected,
            },
            _ => selected,
        };
        match (pending, self.promotion_selected) {
            (Some(m), Some(piece)) => {
                let promoted = Move { promoted_piece: Some(piece), ..m };
                (Some(promoted), Some(promoted))
            },
            _ => (pending, selected),
        }
    }

    /// The move the current selection makes, if any: a move of the selected
    /// piece to the selected square, or a drop of the selected reserve piece
    /// there. A promotion waits, pending, until its piece is chosen.
    pub fn try_parse_move(&mut self, game_state: &GameState) -> (r: Option<Move>)
        requires
            old(self).available_piece_moves@.len() == 16,
            old(self).available_placement_moves@.len() == 5,
        ensures
            final(self).promotion_pending == old(self).parse_outcome().0,
            r == old(self).parse_outcome().1,
            final(self).selected_square == old(self).selected_square,
            final(self).selected_piece == old(self).selected_piece,
            final(self).available_piece_moves == old(self).available_piece_moves,
            final(self).available_placement_moves == old(self).available_placement_moves,
            final(self).flip_board == old(self).flip_board,
            final(self).promotion_selected == old(self).promotion_selected,
            final(self).selected_inventory_piece == old(self).selected_inventory_piece,
            final(self).player_side == old(self).player_side,
            final(self).result == old(self).result,
            old(self).widget_wf(*game_state) && game_state.playable() ==> final(self).widget_wf(*game_state)
                && (r matches Some(m) ==> game_state.legal_moves().contains(m)),
    {
        proof {
            if old(self).widget_wf(*game_state) && game_state.playable() {
                old(self).lemma_parse_outcome_legal(*game_state);
            }
        }
        let mut selected_move = None;
        if let Some(target_square) = self.selected_square {
            if let Some(source_square) = self.selected_piece {
                let moves = &self.available_piece_moves[source_square.index() as usize];
                if let Some(found) = find_to(moves, target_square) {
                    if found.promoted_piece.is_none() {
                        selected_move = Some(found);
                    } else {
                        self.promotion_pending = Some(found);
                    }
                }
            }
            if let Some(piece) = self.selected_inventory_piece {
                let moves = &self.available_placement_moves[piece_index(piece)];
                if let Some(found) = find_to(moves, target_square) {
                    selected_move = Some(found);
                }
            }
        }
        if let (Some(pending), Some(piece)) = (self.promotion_pending, self.promotion_selected) {
            let promoted = Move { promoted_piece: Some(piece), ..pending };
            self.promotion_pending = Some(promoted);
            selected_move = Some(promoted);
        }
        selected_move
    }

    /// Records the result once the side to move has no legal move: the
    /// opponent wins by checkmate (`true`), or the side to move wins by
    /// stalemate (`false`).
    pub fn check_result(&mut self, game_state: &GameState)
        requires
            game_state.first_legal_makeable(),
        ensures
            final(self).result == if game_state.legal_moves().len() == 0 {
                if game_state.in_check(game_state.turn()) {
                    Some((game_state.turn().other(), true))
                } else {
                    Some((game_state.turn(), false))
                }
            } else {
                None::<(Side, bool)>
            },
            final(self).selected_square == old(self).selected_square,
            final(self).selected_piece == old(self).selected_piece,
            final(self).available_piece_moves == old(self).available_piece_moves,
            final(self).available_placement_moves == old(self).available_placement_moves,
            final(self).flip_board == old(self).flip_board,
            final(self).promotion_pending == old(self).promotion_pending,
            final(self).promotion_selected == old(self).promotion_selected,
            final(self).selected_inventory_piece == old(self).selected_inventory_piece,
            final(self).player_side == old(self).player_side,
    {
        let side = *game_state.side();
        self.result = match game_state.detect_mate() {
            Some(true) => Some((side.opponent(), true)),
            Some(false) => Some((side, false)),
            None => None,
        };
    }
}

/// The main menu: the chosen mode, and the side the player takes against the
/// computer.
pub struct MainMenuState {
    pub mode: PlayMode,
    pub side: Side,
}

impl MainMenuState {
    pub fn new() -> (r: Self)
        ensures
            r.mode == PlayMode::PassAndPlay,
            r.side == Side::White,
    {
        Self { mode: PlayMode::PassAndPlay, side: Side::White }
    }

    /// The screen the Play button opens.
    pub fn play(&self) -> (r: Screen)
        ensures
            match self.mode {
                PlayMode::PassAndPlay => r matches Screen::PassAndPlay(state) && state.game_state.is_starting_position()
                    && state.chess_board.flip_board && state.chess_board.player_side == Side::White
                    && state.chess_board.nothing_selected() && state.chess_board.result is None,
                PlayMode::Computer => r matches Screen::PlayComputer(state) && state.game_state.is_starting_position()
                    && !state.chess_board.flip_board && state.chess_board.player_side == self.side
                    && state.chess_board.nothing_selected() && state.chess_board.result is None,
            },
            r.wf(),
    {
        match self.mode {
            PlayMode::PassAndPlay => Screen::PassAndPlay(PassAndPlayState::new()),
            PlayMode::Computer => Screen::PlayComputer(PlayComputerState::new(self.side)),
        }
    }
}

/// Two players sharing one board.
pub struct PassAndPlayState {
    pub game_state: GameState,
    pub chess_board: ChessBoardWidget,
}

/// The state of a game session: a playable position and the widget's move
/// lists for it.
pub open spec fn session_wf(game_state: GameState, chess_board: ChessBoardWidget) -> bool {
    game_state.playable() && chess_board.widget_wf(game_state)
}

impl PassAndPlayState {
    /// A game from the starting position.
    pub fn new() -> (r: Self)
        ensures
            r.game_state.is_starting_position(),
            session_wf(r.game_state, r.chess_board),
            r.chess_board.nothing_selected(),
            r.chess_board.flip_board,
            r.chess_board.player_side == Side::White,
            r.chess_board.result is None,
    {
        let game_state = GameState::default();
        proof {
            game_state.lemma_starting_position_playable();
            game_state.lemma_playable_moves_makeable();
        }
        let chess_board = ChessBoardWidget::new(&game_state);
        Self { game_state, chess_board }
    }

    /// Plays the legal move `selected_move`: the widget's lists follow the new
    /// position, the board turns to the side to move, and the inventory and
    /// promotion selections are cleared.
    pub fn play(&mut self, selected_move: Move)
        requires
            session_wf(old(self).game_state, old(self).chess_board),
            old(self).game_state.legal_moves().contains(selected_move),
        ensures
            final(self).game_state == old(self).game_state.apply(selected_move),
            session_wf(final(self).game_state, final(self).chess_board),
            final(self).chess_board.player_side == if old(self).chess_board.flip_board {
                final(self).game_state.turn()
            } else {
                old(self).chess_board.player_side
            },
            final(self).chess_board.selected_inventory_piece is None,
            final(self).chess_board.promotion_pending is None,
            final(self).chess_board.promotion_selected is None,
            final(self).chess_board.selected_square == old(self).chess_board.selected_square,
            final(self).chess_board.selected_piece == old(self).chess_board.selected_piece,
            final(self).chess_board.flip_board == old(self).chess_board.flip_board,
            final(self).chess_board.result == old(self).chess_board.result,
    {
        proof {
            self.game_state.lemma_legal_move_keeps_playable(selected_move);
        }
        self.game_state = self.game_state.make_move(&selected_move);
        proof {
            self.game_state.lemma_playable_moves_makeable();
        }
        self.chess_board.compute_available_moves(&self.game_state);
        if self.chess_board.flip_board {
            self.chess_board.player_side = *self.game_state.side();  // board-flipping
        }
        self.chess_board.deselect_inventory();
        self.chess_board.deselect_promotion();
    }
}

impl PassAndPlayState {
    /// Plays the move the board selection parses to, if any. Without one,
    /// only the pending promotion follows the selection.
    pub fn play_selection(&mut self) -> (r: Option<Move>)
        requires
            session_wf(old(self).game_state, old(self).chess_board),
        ensures
            r == old(self).chess_board.parse_outcome().1,
            session_wf(final(self).game_state, final(self).chess_board),
            r matches Some(m) ==> ({
                &&& old(self).game_state.legal_moves().contains(m)
                &&& final(self).game_state == old(self).game_state.apply(m)
                &&& final(self).chess_board.player_side == if old(self).chess_board.flip_board {
                    final(self).game_state.turn()
                } else {
                    old(self).chess_board.player_side
                }
                &&& final(self).chess_board.selected_inventory_piece is None
                &&& final(self).chess_board.promotion_pending is None
                &&& final(self).chess_board.promotion_selected is None
                &&& final(self).chess_board.selected_square == old(self).chess_board.selected_square
                &&& final(self).chess_board.selected_piece == old(self).chess_board.selected_piece
                &&& final(self).chess_board.flip_board == old(self).chess_board.flip_board
                &&& final(self).chess_board.result == old(self).chess_board.result
            }),
            r is None ==> ({
                &&& final(self).game_state == old(self).game_state
                &&& final(self).chess_board == (ChessBoardWidget {
                    promotion_pending: old(self).chess_board.parse_outcome().0,
                    ..old(self).chess_board
                })
            }),
    {
        match self.chess_board.try_parse_move(&self.game_state) {
            Some(selected_move) => {
                self.play(selected_move);
                Some(selected_move)
            },
            None => None,
        }
    }
}

/// A game against the computer.
pub struct PlayComputerState {
    pub game_state: GameState,
    pub chess_board: ChessBoardWidget,
}

impl PlayComputerState {
    /// A game from the starting position with the player on `player_side`
    /// and the board fixed towards that side.
    pub fn new(player_side: Side) -> (r: Self)
        ensures
            r.game_state.is_starting_position(),
            session_wf(r.game_state, r.chess_board),
            r.chess_board.nothing_selected(),
            !r.chess_board.flip_board,
            r.chess_board.player_side == player_side,
            r.chess_board.result is None,
    {
        let game_state = GameState::default();
        proof {
            game_state.lemma_starting_position_playable();
            game_state.lemma_playable_moves_makeable();
        }
        let mut chess_board = ChessBoardWidget::new(&game_state);
        chess_board.flip_board = false;
        chess_board.player_side = player_side;
        Self { game_state, chess_board }
    }

    /// The computer's reply: the alpha-beta choice searching each reply seven
    /// plies deep.
    pub fn computer_move(&self) -> (r: Option<Move>)
        requires
            session_wf(self.game_state, self.chess_board),
        ensures
            r == best_move(self.game_state, 7),
    {
        alphabeta_best_move(&self.game_state, 7)
    }

    /// Plays the legal move `selected_move`, then clears every selection.
    pub fn play(&mut self, selected_move: Move)
        requires
            session_wf(old(self).game_state, old(self).chess_board),
            old(self).game_state.legal_moves().contains(selected_move),
        ensures
            final(self).game_state == old(self).game_state.apply(selected_move),
            session_wf(final(self).game_state, final(self).chess_board),
            final(self).chess_board.player_side == if old(self).chess_board.flip_board {
                final(self).game_state.turn()
            } else {
                old(self).chess_board.player_side
            },
            final(self).chess_board.selected_inventory_piece is None,
            final(self).chess_board.promotion_pending is None,
            final(self).chess_board.promotion_selected is None,
            final(self).chess_board.selected_square is None,
            final(self).chess_board.selected_piece is None,
            final(self).chess_board.flip_board == old(self).chess_board.flip_board,
            final(self).chess_board.result == old(self).chess_board.result,
    {
        proof {
            self.game_state.lemma_legal_move_keeps_playable(selected_move);
        }
        self.game_state = self.game_state.make_move(&selected_move);
        proof {
            self.game_state.lemma_playable_moves_makeable();
        }
        self.chess_board.compute_available_moves(&self.game_state);
        if self.chess_board.flip_board {
            self.chess_board.player_side = *self.game_state.side();  // board-flipping
        }
        self.chess_board.deselect_inventory();
        self.chess_board.deselect_promotion();
        self.chess_board.deselect_board();
    }
}

impl PlayComputerState {
    /// It is the player's turn, not the computer's.
    pub fn players_turn(&self) -> (r: bool)
        ensures
            r == (self.chess_board.player_side == self.game_state.turn()),
    {
        self.chess_board.player_side == *self.game_state.side()
    }

    /// Plays the next move: on the player's turn the move the board
    /// selection parses to, if any; on the computer's turn its search reply.
    /// Without a move, only the pending promotion follows the selection.
    pub fn take_turn(&mut self) -> (r: Option<Move>)
        requires
            session_wf(old(self).game_state, old(self).chess_board),
        ensures
            r == if old(self).chess_board.player_side == old(self).game_state.turn() {
                old(self).chess_board.parse_outcome().1
            } else {
                best_move(old(self).game_state, 7)
            },
            session_wf(final(self).game_state, final(self).chess_board),
            r matches Some(m) ==> ({
                &&& old(self).game_state.legal_moves().contains(m)
                &&& final(self).game_state == old(self).game_state.apply(m)
                &&& final(self).chess_board.player_side == if old(self).chess_board.flip_board {
                    final(self).game_state.turn()
                } else {
                    old(self).chess_board.player_side
                }
                &&& final(self).chess_board.nothing_selected()
                &&& final(self).chess_board.flip_board == old(self).chess_board.flip_board
                &&& final(self).chess_board.result == old(self).chess_board.result
            }),
            r is None ==> ({
                &&& final(self).game_state == old(self).game_state
                &&& final(self).chess_board == if old(self).chess_board.player_side == old(
                    self,
                ).game_state.turn() {
                    (ChessBoardWidget { promotion_pending: old(self).chess_board.parse_outcome().0, ..old(self).chess_board })
                } else {
                    old(self).chess_board
                }
            }),
    {
        let chosen = if self.players_turn() {
            self.chess_board.try_parse_move(&self.game_state)
        } else {
            let reply = self.computer_move();
            proof {
                crate::search::lemma_best_move_legal(self.game_state, 7);
            }
            reply
        };
        match chosen {
            Some(selected_move) => {
                self.play(selected_move);
                Some(selected_move)
            },
            None => None,
        }
    }
}

/// The menu a finished game returns to: the main menu once there is a
/// result, else none.
pub fn menu_after(result: Option<(Side, bool)>) -> (r: Option<Screen>)
    ensures
        r is Some <==> result is Some,
        r matches Some(screen) ==> screen matches Screen::MainMenu(menu) && menu.mode == PlayMode::PassAndPlay
            && menu.side == Side::White,
{
    match result {
        Some(_) => Some(Screen::MainMenu(MainMenuState::new())),
        None => None,
    }
}

/// The screen shown.
pub enum Screen {
    MainMenu(MainMenuState),
    PassAndPlay(PassAndPlayState),
    PlayComputer(PlayComputerState),
}

impl Screen {
    /// Each game screen holds a consistent session.
    pub open spec fn wf(self) -> bool {
        match self {
            Screen::MainMenu(_) => true,
            Screen::PassAndPlay(state) => session_wf(state.game_state, state.chess_board),
            Screen::PlayComputer(state) => session_wf(state.game_state, state.chess_board),
        }
    }
}

/// The application: the screen it shows.
pub struct TinyhouseApp {
    pub screen: Screen,
}

impl TinyhouseApp {
    /// The application opens on the main menu.
    pub fn new() -> (r: Self)
        ensures
            r.screen matches Screen::MainMenu(menu) && menu.mode == PlayMode::PassAndPlay && menu.side
                == Side::White,
    {
        Self { screen: Screen::MainMenu(MainMenuState::new()) }
    }

    /// Moves to the screen a frame asked for, if any.
    pub fn switch_screen(&mut self, next_screen: Option<Screen>)
        ensures
            match next_screen {
                Some(screen) => final(self).screen == screen,
                None => final(self).screen == old(self).screen,
            },
    {
        if let Some(screen) = next_screen {
            self.screen = screen;
        }
    }
}

} // verus!
