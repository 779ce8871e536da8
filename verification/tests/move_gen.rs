use tinyhouse::pieces::{Move, Piece, Side, Square};
use tinyhouse::position::GameState;

fn perft(game_state: GameState, depth: i32) -> usize {
    if depth == 0 {
        return 1;
    }
    let mut count = 0;
    let mut moves: Vec<Move> = game_state.generate_legal_moves();

    moves.sort_by_key(|m| m.to_string());
    for move_ in moves {
        let temp_count = perft(game_state.make_move(&move_), depth - 1);
        count += temp_count;
    }
    return count;
}

fn recursive(game_state: GameState, total_depth: i32, remaining_depth: i32) {
    if remaining_depth == -1 {
        return;
    }
    for move_ in game_state.generate_legal_moves() {
        let new_state = game_state.make_move(&move_);
        println!(
            "{}move: {} {}",
            "\t".repeat((total_depth - remaining_depth).try_into().unwrap()),
            move_.to_string(),
            perft(new_state, remaining_depth)
        );
        recursive(new_state, total_depth, remaining_depth - 1);
    }
}

#[test]
fn detailed_test() {
    let game_state = GameState::default();
    recursive(game_state, 3, 3);
}

#[test]
fn performance_test() {
    let game_state = GameState::default();
    for depth in 0..=7 {
        let count = perft(game_state, depth);
        println!("{} moves at depth {}", count, depth);
    }
}

#[test]
fn test_1() {
    let mut game_state = GameState::default();
    println!("{}", game_state.to_string());
    println!("{}", game_state.occupancies().get(Side::White).to_string());
    println!("{}", game_state.occupancies().get(Side::Black).to_string());

    // 1. Kb2 Fb3
    let chosen = Move {
        source: Some(Square::a1),
        target: Square::b2,
        piece: Piece::King,
        promoted_piece: None,
        capture: false,
    };
    game_state = game_state.make_move(&chosen);
    println!("{}", game_state.to_string());
    println!("{}", game_state.occupancies().get(Side::White).to_string());
    println!("{}", game_state.occupancies().get(Side::Black).to_string());
    let chosen = Move {
        source: Some(Square::a4),
        target: Square::b3,
        piece: Piece::Ferz,
        promoted_piece: None,
        capture: false,
    };
    game_state = game_state.make_move(&chosen);
    println!("{}", game_state.to_string());
    println!("{}", game_state.occupancies().get(Side::White).to_string());
    println!("{}", game_state.occupancies().get(Side::Black).to_string());

    // 2.
    for chosen in game_state.generate_legal_moves() {
        println!("{}", chosen.to_string());
    }
}
