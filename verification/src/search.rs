//! Game-tree search: a material evaluation, minimax, and alpha-beta pruning.
//!
//! Scores are exact integers; `NEG_INF` and `POS_INF` stand for a won game for
//! Black and for White.
//!
//! The searches take positions reachable in play (`GameState::playable`):
//! every square holds at most one piece of one side, no kind of piece has
//! more than three in the game (what the two-bit reserve counters can hold,
//! so a capture never overflows them), and the side that just moved is not
//! in check (so no move captures a king). The starting position is playable
//! and every legal move keeps a position playable.
use vstd::prelude::*;
use crate::bitboard::{BitBoard, is_set, group_bit_lemmas};
use crate::pieces::{Piece, Side, Move};
use crate::inventory::count_of;
use crate::position::{GameState, sum_upto};

verus! {

broadcast use group_bit_lemmas;

/// Score of a position White has won.
pub const POS_INF: i32 = 2147483647i32;

/// Score of a position Black has won.
pub const NEG_INF: i32 = -2147483648i32;

/// Number of squares in `b`.
pub open spec fn square_count(b: u16) -> int {
    sum_upto(16, |u: int| if is_set(b, u) { 1int } else { 0 })
}

/// Points of a kind of piece.
pub open spec fn piece_value(p: Piece) -> int {
    match p {
        Piece::Wazir => 3,
        Piece::Ma => 2,
        Piece::Ferz => 2,
        Piece::Pawn => 1,
        Piece::King => 0,
    }
}

/// Pieces of kind `p` that `side` has on the board or in reserve.
pub open spec fn holding(g: GameState, side: Side, p: Piece) -> int {
    square_count(g.board(p) & g.occ(side)) + count_of(g.reserve(side), p)
}

/// The points of everything `side` holds, kings excepted.
pub open spec fn side_points(g: GameState, side: Side) -> int {
    3 * holding(g, side, Piece::Wazir) + 2 * holding(g, side, Piece::Ma) + 2 * holding(g, side, Piece::Ferz)
        + holding(g, side, Piece::Pawn)
}

/// The material balance, White's points less Black's.
pub open spec fn heuristic_value(g: GameState) -> int {
    side_points(g, Side::White) - side_points(g, Side::Black)
}

/// The score of a position without legal moves. Being mated loses; being
/// stalemated wins.
pub open spec fn terminal_value(g: GameState) -> int {
    if g.turn() == Side::White {
        if g.in_check(Side::White) { NEG_INF as int } else { POS_INF as int }
    } else {
        if g.in_check(Side::Black) { POS_INF as int } else { NEG_INF as int }
    }
}

pub open spec fn max_int(a: int, b: int) -> int {
    if a >= b { a } else { b }
}

pub open spec fn min_int(a: int, b: int) -> int {
    if a <= b { a } else { b }
}

/// The minimax value of `g` searched `depth` plies deep, the maximizing side
/// to move when `max` holds.
pub open spec fn minimax_value(g: GameState, depth: int, max: bool) -> int
    decreases depth, 1int, 0int,
{
    let moves = g.legal_moves();
    if moves.len() == 0 {
        terminal_value(g)
    } else if depth <= 0 {
        heuristic_value(g)
    } else {
        best_of(g, moves, moves.len() as int, depth, max)
    }
}

/// The best minimax value over the first `n` of `moves` from `g`: the largest
/// when `max` holds (starting from `NEG_INF`), else the smallest (from
/// `POS_INF`).
pub open spec fn best_of(g: GameState, moves: Seq<Move>, n: int, depth: int, max: bool) -> int
    decreases depth, 0int, n,
{
    if n <= 0 || depth <= 0 {
        if max { NEG_INF as int } else { POS_INF as int }
    } else {
        let v = minimax_value(g.apply(moves[n - 1]), depth - 1, !max);
        let rest = best_of(g, moves, n - 1, depth, max);
        if max { max_int(rest, v) } else { min_int(rest, v) }
    }
}

/// What a fail-soft alpha-beta search promises about its result `v` for the
/// window `(alpha, beta)` and the true value `m`.
pub open spec fn within_window(v: int, alpha: int, beta: int, m: int) -> bool {
    &&& v <= alpha ==> m <= v
    &&& v >= beta ==> m >= v
    &&& alpha < v < beta ==> m == v
}

/// What a fail-soft alpha-beta search of `g`, `depth` plies deep within the
/// window `(alpha, beta)`, returns: the terminal or material score where the
/// search stops, else the outcome of scanning the legal moves in order.
pub open spec fn alphabeta_value(g: GameState, depth: int, alpha: int, beta: int, max: bool) -> int
    decreases depth, 1int, 0int,
{
    let moves = g.legal_moves();
    if moves.len() == 0 {
        terminal_value(g)
    } else if depth <= 0 {
        heuristic_value(g)
    } else {
        alphabeta_scan(g, moves, 0, depth, alpha, beta, if max { NEG_INF as int } else { POS_INF as int }, max)
    }
}

/// The scan of `moves` from index `i` on, with the window `(alpha, beta)`
/// and the best score `value` found so far: each reply is searched one ply
/// less deep within the current window; the scan stops as soon as the best
/// score reaches `beta` (for the maximizing side) or falls to `alpha` (for
/// the minimizing side), and otherwise narrows the window to it.
pub open spec fn alphabeta_scan(
    g: GameState,
    moves: Seq<Move>,
    i: int,
    depth: int,
    alpha: int,
    beta: int,
    value: int,
    max: bool,
) -> int
    decreases depth, 0int, moves.len() - i,
{
    if i < 0 || i >= moves.len() || depth <= 0 {
        value
    } else {
        let v = alphabeta_value(g.apply(moves[i]), depth - 1, alpha, beta, !max);
        if max {
            let best = max_int(value, v);
            if best >= beta {
                best
            } else {
                alphabeta_scan(g, moves, i + 1, depth, max_int(alpha, best), beta, best, max)
            }
        } else {
            let best = min_int(value, v);
            if best <= alpha {
                best
            } else {
                alphabeta_scan(g, moves, i + 1, depth, alpha, min_int(beta, best), best, max)
            }
        }
    }
}

/// Over the full window `(NEG_INF, POS_INF)` a fail-soft alpha-beta result is
/// exactly the minimax value.
pub proof fn lemma_full_window(g: GameState, depth: int, max: bool, v: i32)
    requires
        within_window(v as int, NEG_INF as int, POS_INF as int, minimax_value(g, depth, max)),
    ensures
        v as int == minimax_value(g, depth, max),
{
    lemma_value_range(g, depth, max);
}

/// Taking more moves into account can only improve the best value for the
/// side to move.
pub proof fn lemma_best_of_monotone(g: GameState, moves: Seq<Move>, k: int, n: int, depth: int, max: bool)
    requires
        0 <= k <= n,
        depth > 0,
    ensures
        max ==> best_of(g, moves, k, depth, max) <= best_of(g, moves, n, depth, max),
        !max ==> best_of(g, moves, k, depth, max) >= best_of(g, moves, n, depth, max),
    decreases n - k,
{
    if k < n {
        lemma_best_of_monotone(g, moves, k, n - 1, depth, max);
    }
}

/// Scores stay between `NEG_INF` and `POS_INF`.
pub proof fn lemma_value_range(g: GameState, depth: int, max: bool)
    ensures
        NEG_INF <= minimax_value(g, depth, max) <= POS_INF,
    decreases depth, 1int, 0int,
{
    let moves = g.legal_moves();
    if moves.len() != 0 && depth > 0 {
        lemma_best_of_range(g, moves, moves.len() as int, depth, max);
    } else if moves.len() != 0 {
        lemma_heuristic_range(g);
    }
}

/// The best value over some moves lies between `NEG_INF` and `POS_INF`.
pub proof fn lemma_best_of_range(g: GameState, moves: Seq<Move>, n: int, depth: int, max: bool)
    ensures
        NEG_INF <= best_of(g, moves, n, depth, max) <= POS_INF,
    decreases depth, 0int, n,
{
    if n > 0 && depth > 0 {
        lemma_value_range(g.apply(moves[n - 1]), depth - 1, !max);
        lemma_best_of_range(g, moves, n - 1, depth, max);
    }
}

/// A board holds between 0 and 16 squares.
pub proof fn lemma_square_count_range(b: u16)
    ensures
        0 <= square_count(b) <= 16,
{
    let f = |u: int| if is_set(b, u) { 1int } else { 0 };
    lemma_sum_bounded(16, f);
}

proof fn lemma_sum_bounded(n: int, f: spec_fn(int) -> int)
    requires
        n >= 0,
        forall|u: int| 0 <= u < n ==> 0 <= #[trigger] f(u) <= 1,
    ensures
        0 <= sum_upto(n, f) <= n,
    decreases n,
{
    if n > 0 {
        lemma_sum_bounded(n - 1, f);
    }
}

/// The material balance lies between -1000 and 1000.
pub proof fn lemma_heuristic_range(g: GameState)
    ensures
        -1000 <= heuristic_value(g) <= 1000,
{
    lemma_square_count_range(g.board(Piece::Wazir) & g.occ(Side::White));
    lemma_square_count_range(g.board(Piece::Ma) & g.occ(Side::White));
    lemma_square_count_range(g.board(Piece::Ferz) & g.occ(Side::White));
    lemma_square_count_range(g.board(Piece::Pawn) & g.occ(Side::White));
    lemma_square_count_range(g.board(Piece::Wazir) & g.occ(Side::Black));
    lemma_square_count_range(g.board(Piece::Ma) & g.occ(Side::Black));
    lemma_square_count_range(g.board(Piece::Ferz) & g.occ(Side::Black));
    lemma_square_count_range(g.board(Piece::Pawn) & g.occ(Side::Black));
    assert forall|raw: u8, p: Piece| #[trigger] count_of(raw, p) <= 3 by {
        let sh = crate::inventory::shift(p);
        assert((raw >> sh) & 3u8 <= 3) by (bit_vector);
    }
}

/// Number of squares in `bitboard`.
fn count_ones(bitboard: BitBoard) -> (r: u32)
    ensures
        r as int == square_count(bitboard.0),
        r <= 16,
{
    let ghost f = |u: int| if is_set(bitboard.0, u) { 1int } else { 0 };
    let mut count: u32 = 0;
    let mut i: u16 = 0;
    while i < 16
        invariant
            i <= 16,
            count <= i,
            count as int == sum_upto(i as int, f),
            f == (|u: int| if is_set(bitboard.0, u) { 1int } else { 0 }),
        decreases 16 - i,
    {
        if bitboard.get_bit(i) {
            count = count + 1;
        }
        i = i + 1;
    }
    count
}

/// White's material points less Black's, reserves included.
fn heuristic_eval(game_state: &GameState) -> (r: i32)
    ensures
        r as int == heuristic_value(*game_state),
{
    let boards = game_state.bitboards();
    let occupancies = game_state.occupancies();
    let inventory = game_state.inventory();
    let white = occupancies.white;
    let black = occupancies.black;
    proof {
        assert(occupancies.of(Side::White) == game_state.occ(Side::White));
        assert(occupancies.of(Side::Black) == game_state.occ(Side::Black));
    }
    let ww = count_ones(BitBoard(boards.wazir.0 & white.0)) as i32 + inventory[0].get(Piece::Wazir) as i32;
    let wm = count_ones(BitBoard(boards.ma.0 & white.0)) as i32 + inventory[0].get(Piece::Ma) as i32;
    let wf = count_ones(BitBoard(boards.ferz.0 & white.0)) as i32 + inventory[0].get(Piece::Ferz) as i32;
    let wp = count_ones(BitBoard(boards.pawn.0 & white.0)) as i32 + inventory[0].get(Piece::Pawn) as i32;
    let bw = count_ones(BitBoard(boards.wazir.0 & black.0)) as i32 + inventory[1].get(Piece::Wazir) as i32;
    let bm = count_ones(BitBoard(boards.ma.0 & black.0)) as i32 + inventory[1].get(Piece::Ma) as i32;
    let bf = count_ones(BitBoard(boards.ferz.0 & black.0)) as i32 + inventory[1].get(Piece::Ferz) as i32;
    let bp = count_ones(BitBoard(boards.pawn.0 & black.0)) as i32 + inventory[1].get(Piece::Pawn) as i32;
    assert(boards.of(Piece::Wazir) == game_state.board(Piece::Wazir));
    assert(boards.of(Piece::Ma) == game_state.board(Piece::Ma));
    assert(boards.of(Piece::Ferz) == game_state.board(Piece::Ferz));
    assert(boards.of(Piece::Pawn) == game_state.board(Piece::Pawn));
    // White
    let mut eval: i32 = 3 * ww + 2 * wm + 2 * wf + wp;
    // Black
    eval = eval - (3 * bw + 2 * bm + 2 * bf + bp);
    eval
}

/// The score of a position without legal moves, for the side to move.
fn terminal_eval(game_state: &GameState) -> (r: i32)
    ensures
        r as int == terminal_value(*game_state),
{
    let side = *game_state.side();
    let in_check = game_state.detect_check(side);
    match side {
        Side::White => if in_check { NEG_INF } else { POS_INF },  // White got checkmated => -inf. White got stalemated => inf
        Side::Black => if in_check { POS_INF } else { NEG_INF },  // Black got checkmated => inf. Black got stalemated => -inf
    }
}

/// The minimax value of `state` searched `depth` plies deep.
pub fn minimax(state: &GameState, depth: i8, max: bool) -> (r: i32)
    requires
        state.playable(),
        depth >= 0,
    ensures
        r as int == minimax_value(*state, depth as int, max),
    decreases depth,
{
    proof {
        state.lemma_playable_moves_makeable();
        state.lemma_makeable_first_legal();
    }
    if depth == 0 {
        // only whether a legal move exists matters here
        return match state.detect_mate() {
            Some(_) => terminal_eval(state),
            None => heuristic_eval(state),
        };
    }
    let (moves, children) = state.legal_successors();
    if moves.len() == 0 {
        return terminal_eval(state);
    }
    let mut value: i32 = if max { NEG_INF } else { POS_INF };
    let mut i: usize = 0;
    while i < moves.len()
        invariant
            i <= moves.len(),
            moves@ == state.legal_moves(),
            children@.len() == moves@.len(),
            forall|j: int| 0 <= j < moves@.len() ==> #[trigger] children@[j] == state.apply(moves@[j]),
            moves.len() > 0,
            depth > 0,
            state.playable(),
            value as int == best_of(*state, moves@, i as int, depth as int, max),
        decreases moves.len() - i,
    {
        let candidate = moves[i];
        proof {
            assert(moves@.contains(candidate));
            state.lemma_legal_move_keeps_playable(candidate);
        }
        let v = minimax(&children[i], depth - 1, !max);
        if max {
            if v > value {
                value = v;
            }
        } else {
            if v < value {
                value = v;
            }
        }
        i = i + 1;
    }
    value
}

/// Alpha-beta search of `state`, `depth` plies deep, within the window
/// `(alpha, beta)`.
pub fn alphabeta(state: &GameState, depth: i8, alpha: i32, beta: i32, max: bool) -> (r: i32)
    requires
        state.playable(),
        depth >= 0,
        alpha < beta,
    ensures
        r as int == alphabeta_value(*state, depth as int, alpha as int, beta as int, max),
        within_window(r as int, alpha as int, beta as int, minimax_value(*state, depth as int, max)),
    decreases depth,
{
    proof {
        state.lemma_playable_moves_makeable();
        state.lemma_makeable_first_legal();
    }
    if depth == 0 {
        // only whether a legal move exists matters here
        return match state.detect_mate() {
            Some(_) => terminal_eval(state),
            None => heuristic_eval(state),
        };
    }
    let (moves, children) = state.legal_successors();
    if moves.len() == 0 {
        return terminal_eval(state);
    }
    let ghost g = *state;
    let ghost n = moves.len() as int;
    let ghost d = depth as int;
    let ghost total = minimax_value(g, d, max);
    assert(total == best_of(g, moves@, n, d, max));
    if max {
        let mut alpha = alpha;
        let ghost alpha0 = alpha as int;
        let mut value: i32 = NEG_INF;
        let mut i: usize = 0;
        let ghost ab = alphabeta_value(g, d, alpha0, beta as int, true);
        while i < moves.len()
            invariant_except_break
                i <= moves.len(),
                ab == alphabeta_scan(g, moves@, i as int, d, alpha as int, beta as int, value as int, true),
                moves@ == g.legal_moves(),
                children@.len() == moves@.len(),
                forall|j: int| 0 <= j < moves@.len() ==> #[trigger] children@[j] == g.apply(moves@[j]),
                moves.len() as int == n,
                total == best_of(g, moves@, n, d, max),
                d == depth,
                depth > 0,
                max,
                g == *state,
                state.playable(),
                value < beta,
                alpha as int == max_int(alpha0, value as int),
                alpha0 < beta,
                value <= alpha0 ==> best_of(g, moves@, i as int, d, true) <= value,
                value > alpha0 ==> best_of(g, moves@, i as int, d, true) == value,
            ensures
                within_window(value as int, alpha0, beta as int, total),
                value as int == ab,
            decreases moves.len() - i,
        {
            let candidate = moves[i];
            proof {
                assert(moves@.contains(candidate));
                state.lemma_legal_move_keeps_playable(candidate);
            }
            let ghost before = best_of(g, moves@, i as int, d, true);
            let ghost child = minimax_value(g.apply(candidate), d - 1, false);
            let v = alphabeta(&children[i], depth - 1, alpha, beta, false);
            assert(best_of(g, moves@, i + 1, d, true) == max_int(before, child));
            if v > value {
                value = v;
            }
            if value >= beta {
                proof {
                    lemma_best_of_monotone(g, moves@, i + 1, n, d, true);
                }
                break;
            }
            if value > alpha {
                alpha = value;
            }
            i = i + 1;
        }
        value
    } else {
        let mut beta = beta;
        let ghost beta0 = beta as int;
        let mut value: i32 = POS_INF;
        let mut i: usize = 0;
        let ghost ab = alphabeta_value(g, d, alpha as int, beta0, false);
        while i < moves.len()
            invariant_except_break
                i <= moves.len(),
                ab == alphabeta_scan(g, moves@, i as int, d, alpha as int, beta as int, value as int, false),
                moves@ == g.legal_moves(),
                children@.len() == moves@.len(),
                forall|j: int| 0 <= j < moves@.len() ==> #[trigger] children@[j] == g.apply(moves@[j]),
                moves.len() as int == n,
                total == best_of(g, moves@, n, d, max),
                d == depth,
                depth > 0,
                !max,
                g == *state,
                state.playable(),
                value > alpha,
                beta as int == min_int(beta0, value as int),
                alpha < beta0,
                value >= beta0 ==> best_of(g, moves@, i as int, d, false) >= value,
                value < beta0 ==> best_of(g, moves@, i as int, d, false) == value,
            ensures
                within_window(value as int, alpha as int, beta0, total),
                value as int == ab,
            decreases moves.len() - i,
        {
            let candidate = moves[i];
            proof {
                assert(moves@.contains(candidate));
                state.lemma_legal_move_keeps_playable(candidate);
            }
            let ghost before = best_of(g, moves@, i as int, d, false);
            let ghost child = minimax_value(g.apply(candidate), d - 1, true);
            let v = alphabeta(&children[i], depth - 1, alpha, beta, true);
            assert(best_of(g, moves@, i + 1, d, false) == min_int(before, child));
            if v < value {
                value = v;
            }
            if value <= alpha {
                proof {
                    lemma_best_of_monotone(g, moves@, i + 1, n, d, false);
                }
                break;
            }
            if value < beta {
                beta = value;
            }
            i = i + 1;
        }
        value
    }
}

/// Score `a` is better than `b` for the side to move: higher for White,
/// lower for Black.
pub open spec fn beats(a: int, b: int, white: bool) -> bool {
    if white {
        a > b
    } else {
        a < b
    }
}

/// The value of playing `moves[i]` from `g`: the minimax value of the result,
/// searched `depth` plies deep with the opponent to move.
pub open spec fn move_score(g: GameState, moves: Seq<Move>, i: int, depth: int) -> int {
    minimax_value(g.apply(moves[i]), depth, g.turn() == Side::Black)
}

/// The first of the best-scoring moves among the first `n` of `moves`.
pub open spec fn first_best(g: GameState, moves: Seq<Move>, n: int, depth: int) -> int
    decreases n,
{
    if n <= 1 {
        0
    } else {
        let b = first_best(g, moves, n - 1, depth);
        if beats(
            move_score(g, moves, n - 1, depth),
            move_score(g, moves, b, depth),
            g.turn() == Side::White,
        ) {
            n - 1
        } else {
            b
        }
    }
}

/// The move the search picks: the first legal move of best value, or `None`
/// when there is no legal move.
pub open spec fn best_move(g: GameState, depth: int) -> Option<Move> {
    let moves = g.legal_moves();
    if moves.len() == 0 {
        None
    } else {
        Some(moves[first_best(g, moves, moves.len() as int, depth)])
    }
}

/// The move the search picks scores at least as well as every move
/// considered, and strictly better than each move before it.
pub proof fn lemma_first_best_optimal(g: GameState, moves: Seq<Move>, n: int, depth: int)
    requires
        n >= 1,
    ensures
        ({
            let b = first_best(g, moves, n, depth);
            let white = g.turn() == Side::White;
            &&& 0 <= b < n
            &&& forall|j: int| 0 <= j < n ==> !beats(
                #[trigger] move_score(g, moves, j, depth),
                move_score(g, moves, b, depth),
                white,
            )
            &&& forall|j: int| 0 <= j < b ==> beats(
                move_score(g, moves, b, depth),
                #[trigger] move_score(g, moves, j, depth),
                white,
            )
        }),
    decreases n,
{
    if n > 1 {
        lemma_first_best_optimal(g, moves, n - 1, depth);
    }
}

/// The move the search picks is legal, and there is one exactly when a legal
/// move exists.
pub proof fn lemma_best_move_legal(g: GameState, depth: int)
    ensures
        best_move(g, depth) is Some <==> g.legal_moves().len() > 0,
        best_move(g, depth) matches Some(m) ==> g.legal_moves().contains(m),
{
    let moves = g.legal_moves();
    if moves.len() > 0 {
        lemma_first_best_range(g, moves, moves.len() as int, depth);
        let b = first_best(g, moves, moves.len() as int, depth);
        assert(moves[b] == best_move(g, depth).unwrap());
    }
}

/// The best move's index lies among the moves considered.
pub proof fn lemma_first_best_range(g: GameState, moves: Seq<Move>, n: int, depth: int)
    requires
        n >= 1,
    ensures
        0 <= first_best(g, moves, n, depth) < n,
    decreases n,
{
    if n > 1 {
        lemma_first_best_range(g, moves, n - 1, depth);
    }
}

/// The best move by minimax, searching each reply `depth` plies deep.
pub fn minimax_best_move(state: &GameState, depth: i8) -> (r: Option<Move>)
    requires
        state.playable(),
        depth >= 0,
    ensures
        r == best_move(*state, depth as int),
{
    proof {
        state.lemma_playable_moves_makeable();
    }
    let (moves, children) = state.legal_successors();
    let white = *state.side() == Side::White;
    let mut best_move_idx: Option<usize> = None;
    let mut best_score: Option<i32> = None;
    let mut idx: usize = 0;
    while idx < moves.len()
        invariant
            idx <= moves.len(),
            moves@ == state.legal_moves(),
            children@.len() == moves@.len(),
            forall|j: int| 0 <= j < moves@.len() ==> #[trigger] children@[j] == state.apply(moves@[j]),
            state.playable(),
            depth >= 0,
            white == (state.turn() == Side::White),
            idx == 0 ==> best_move_idx is None && best_score is None,
            idx > 0 ==> best_move_idx is Some && best_score is Some,
            idx > 0 ==> best_move_idx.unwrap() as int == first_best(*state, moves@, idx as int, depth as int),
            idx > 0 ==> best_score.unwrap() as int == move_score(
                *state,
                moves@,
                best_move_idx.unwrap() as int,
                depth as int,
            ),
        decreases moves.len() - idx,
    {
        let candidate = moves[idx];
        proof {
            assert(moves@.contains(candidate));
            state.lemma_legal_move_keeps_playable(candidate);
            if idx > 0 {
                lemma_first_best_range(*state, moves@, idx as int, depth as int);
            }
        }
        let score = minimax(&children[idx], depth, !white);
        let better = match best_score {
            None => true,
            Some(b) => if white {
                score > b
            } else {
                score < b
            },
        };
        if better {
            best_move_idx = Some(idx);
            best_score = Some(score);
        }
        idx = idx + 1;
    }
    match best_move_idx {
        Some(i) => {
            proof {
                lemma_first_best_range(*state, moves@, moves.len() as int, depth as int);
            }
            Some(moves[i])
        },
        None => None,
    }
}

/// The best move by alpha-beta search, searching each reply `depth` plies
/// deep; the same move as minimax picks.
pub fn alphabeta_best_move(state: &GameState, depth: i8) -> (r: Option<Move>)
    requires
        state.playable(),
        depth >= 0,
    ensures
        r == best_move(*state, depth as int),
{
    proof {
        state.lemma_playable_moves_makeable();
    }
    let (moves, children) = state.legal_successors();
    let white = *state.side() == Side::White;
    let mut best_move_idx: Option<usize> = None;
    let mut best_score: Option<i32> = None;
    let mut idx: usize = 0;
    while idx < moves.len()
        invariant
            idx <= moves.len(),
            moves@ == state.legal_moves(),
            children@.len() == moves@.len(),
            forall|j: int| 0 <= j < moves@.len() ==> #[trigger] children@[j] == state.apply(moves@[j]),
            state.playable(),
            depth >= 0,
            white == (state.turn() == Side::White),
            idx == 0 ==> best_move_idx is None && best_score is None,
            idx > 0 ==> best_move_idx is Some && best_score is Some,
            idx > 0 ==> best_move_idx.unwrap() as int == first_best(*state, moves@, idx as int, depth as int),
            idx > 0 ==> best_score.unwrap() as int == move_score(
                *state,
                moves@,
                best_move_idx.unwrap() as int,
                depth as int,
            ),
        decreases moves.len() - idx,
    {
        let candidate = moves[idx];
        proof {
            assert(moves@.contains(candidate));
            state.lemma_legal_move_keeps_playable(candidate);
            if idx > 0 {
                lemma_first_best_range(*state, moves@, idx as int, depth as int);
            }
        }
        let score = alphabeta(&children[idx], depth, NEG_INF, POS_INF, !white);
        proof {
            lemma_full_window(state.apply(candidate), depth as int, !white, score);
        }
        let better = match best_score {
            None => true,
            Some(b) => if white {
                score > b
            } else {
                score < b
            },
        };
        if better {
            best_move_idx = Some(idx);
            best_score = Some(score);
        }
        idx = idx + 1;
    }
    match best_move_idx {
        Some(i) => {
            proof {
                lemma_first_best_range(*state, moves@, moves.len() as int, depth as int);
            }
            Some(moves[i])
        },
        None => None,
    }
}

} // verus!
