use tinyhouse::pieces::{Move, Piece, Side, Square};
use tinyhouse::position::GameState;
use tinyhouse::search::{alphabeta, alphabeta_best_move, minimax, minimax_best_move, NEG_INF, POS_INF};

#[test]
fn starting_position() {
    let game_state = GameState::default();

    println!("{}", game_state.to_string());
    let best_move = alphabeta_best_move(&game_state, 8).unwrap();
    println!("{:?}", &best_move);
}

#[test]
fn mate_in_one_1() {
    let game_state = GameState::new(
        vec![
            (Piece::King, Side::Black, Square::d2),
            (Piece::Ma, Side::Black, Square::c3),
            (Piece::King, Side::White, Square::a1),
        ],
        Vec::new(),
        [[0, 0, 0, 0].into(), [1, 0, 0, 0].into()],
        Side::Black,
    );

    println!("{}", game_state.to_string());
    let best_move = minimax_best_move(&game_state, 1).unwrap();
    println!("{:?}", &best_move);
    assert_eq!(best_move.source, None);
    assert_eq!(best_move.target, Square::a2);
    assert_eq!(best_move.piece, Piece::Wazir);
}

#[test]
fn mate_in_two_1() {
    let game_state = GameState::new(
        vec![
            (Piece::King, Side::White, Square::a1),
            (Piece::Pawn, Side::White, Square::a2),
            (Piece::Wazir, Side::White, Square::c3),
            (Piece::Pawn, Side::Black, Square::d2),
            (Piece::King, Side::Black, Square::c1),
            (Piece::Ferz, Side::Black, Square::d4),
            (Piece::Ferz, Side::Black, Square::a4),
        ],
        Vec::new(),
        [[1, 2, 0, 0].into(), [0, 0, 0, 0].into()],
        Side::White,
    );

    minimax(&game_state, 4, true);
    println!("{}", game_state.to_string());
    let best_move = minimax_best_move(&game_state, 2).unwrap();
    assert_eq!(
        best_move,
        Move { source: None, target: Square::b1, piece: Piece::Wazir, promoted_piece: None, capture: false }
    );

    let game_state = game_state.make_move(&best_move);

    let best_move = minimax_best_move(&game_state, 2).unwrap();
    assert_eq!(
        best_move,
        Move {
            source: Some(Square::c1),
            target: Square::d1,
            piece: Piece::King,
            promoted_piece: None,
            capture: false
        }
    );

    let game_state = game_state.make_move(&best_move);

    let best_move = minimax_best_move(&game_state, 2).unwrap();
    assert_eq!(
        best_move,
        Move { source: None, target: Square::b2, piece: Piece::Ma, promoted_piece: None, capture: false }
    );
}

#[test]
fn mate_in_two_2() {
    let game_state = GameState::new(
        vec![
            (Piece::King, Side::White, Square::b2),
            (Piece::Ma, Side::White, Square::a3),
            (Piece::King, Side::Black, Square::d3),
            (Piece::Pawn, Side::Black, Square::d2),
        ],
        Vec::new(),
        [[1, 0, 0, 1].into(), [1, 1, 2, 1].into()],
        Side::White,
    ); // many mate in 2's here e.g.
       // 1. P@c2+ Kd4
       // 2. W@d3#

    // Some mate in 3's here e.g.
    // 1. W@c3+ Kd4
    // 2. Wc4+ Kd3
    // 3. P@c2#
    let minimax_eval = minimax(&game_state, 3, false);
    println!("{}", minimax_eval);
    let alphabeta_eval = alphabeta(&game_state, 7, NEG_INF, POS_INF, false);
    println!("{}", alphabeta_eval);

    assert_eq!(minimax_eval, alphabeta_eval);

    let best_move = minimax_best_move(&game_state, 3).unwrap();
    println!("{:?}", &best_move);
    let game_state = game_state.make_move(&best_move);

    let best_move = minimax_best_move(&game_state, 3).unwrap();
    println!("{:?}", &best_move);
    let game_state = game_state.make_move(&best_move);

    let best_move = minimax_best_move(&game_state, 3).unwrap();
    println!("{:?}", &best_move);
    let _game_state = game_state.make_move(&best_move);
}

fn mate_in_four_position() -> GameState {
    GameState::new(
        vec![
            (Piece::King, Side::White, Square::b1),
            (Piece::Ferz, Side::White, Square::d1),
            (Piece::Pawn, Side::White, Square::b3),
            (Piece::Ma, Side::Black, Square::b4),
            (Piece::Ma, Side::Black, Square::c1),
            (Piece::Wazir, Side::Black, Square::c2),
            (Piece::King, Side::Black, Square::d3),
        ],
        Vec::new(),
        [[1, 0, 0, 0].into(), [1, 0, 1, 0].into()],
        Side::Black,
    )
}

#[test]
fn mate_in_four_alphabeta() {
    let game_state = mate_in_four_position();
    // 1. ... W@b2+
    // 2. Ka1 Wa2+
    // 3. Kb1 Wcb2+
    // 4. Kxc1 F@d2#

    let alphabeta_eval = alphabeta(&game_state, 7, NEG_INF, POS_INF, false);
    println!("{}", alphabeta_eval);

    println!("{}", game_state.to_string());
    let mut game_state = game_state;
    for depth in (0..=6).rev() {
        let best_move = alphabeta_best_move(&game_state, depth).unwrap();
        println!("{:?}", &best_move);
        game_state = game_state.make_move(&best_move);
        println!("{}", game_state.to_string());
    }
}
