use tinyhouse::board_ui::{menu_after, ChessBoardWidget, MainMenuState, PassAndPlayState, PlayComputerState, PlayMode, Screen, TinyhouseApp};
use tinyhouse::pieces::{Move, Piece, Side, Square};
use tinyhouse::position::GameState;
use tinyhouse::search::{alphabeta, alphabeta_best_move, minimax, minimax_best_move, NEG_INF, POS_INF};

fn mv(source: Option<Square>, target: Square, piece: Piece, promoted_piece: Option<Piece>, capture: bool) -> Move {
    Move { source, target, piece, promoted_piece, capture }
}

fn stalemated_white() -> GameState {
    GameState::new(
        vec![
            (Piece::King, Side::White, Square::a1),
            (Piece::King, Side::Black, Square::c2),
            (Piece::Ferz, Side::Black, Square::b3),
        ],
        Vec::new(),
        [[0, 0, 0, 0].into(), [0, 0, 0, 0].into()],
        Side::White,
    )
}

fn mated_white() -> GameState {
    GameState::new(
        vec![
            (Piece::King, Side::Black, Square::d2),
            (Piece::Ma, Side::Black, Square::c3),
            (Piece::Wazir, Side::Black, Square::a2),
            (Piece::King, Side::White, Square::a1),
        ],
        Vec::new(),
        [[0, 0, 0, 0].into(), [0, 0, 0, 0].into()],
        Side::White,
    )
}

fn promotion_position() -> GameState {
    GameState::new(
        vec![
            (Piece::King, Side::White, Square::d1),
            (Piece::Pawn, Side::White, Square::a3),
            (Piece::King, Side::Black, Square::c4),
        ],
        Vec::new(),
        [[0, 0, 0, 0].into(), [0, 0, 0, 0].into()],
        Side::White,
    )
}

#[test]
fn material_evaluation() {
    let game_state = GameState::default();
    assert_eq!(minimax(&game_state, 0, true), 0);
    assert_eq!(minimax(&game_state, 1, true), 2);
    assert_eq!(alphabeta(&game_state, 1, NEG_INF, POS_INF, true), 2);
    assert_eq!(
        minimax_best_move(&game_state, 0),
        Some(mv(Some(Square::c1), Square::d3, Piece::Ma, None, true))
    );
    assert_eq!(
        alphabeta_best_move(&game_state, 0),
        Some(mv(Some(Square::c1), Square::d3, Piece::Ma, None, true))
    );
}

#[test]
fn terminal_scores() {
    // being stalemated wins, being mated loses
    let stalemate = stalemated_white();
    assert_eq!(minimax(&stalemate, 3, true), POS_INF);
    assert_eq!(alphabeta(&stalemate, 3, NEG_INF, POS_INF, true), POS_INF);
    // fail-soft: the terminal score comes back whole, not clipped to the window
    assert_eq!(alphabeta(&stalemate, 3, 0, 1, true), POS_INF);
    assert_eq!(minimax_best_move(&stalemate, 2), None);
    assert_eq!(alphabeta_best_move(&stalemate, 2), None);
    let mate = mated_white();
    assert_eq!(mate.detect_mate(), Some(true));
    assert_eq!(minimax(&mate, 3, true), NEG_INF);
    assert_eq!(alphabeta(&mate, 3, NEG_INF, POS_INF, true), NEG_INF);
}

#[test]
fn alphabeta_agrees_with_minimax() {
    let mut positions = vec![GameState::default(), promotion_position()];
    let start = GameState::default();
    for m in start.generate_legal_moves() {
        positions.push(start.make_move(&m));
    }
    for state in positions {
        let max = *state.side() == Side::White;
        for depth in 0..=3 {
            let exact = minimax(&state, depth, max);
            assert_eq!(alphabeta(&state, depth, NEG_INF, POS_INF, max), exact);
            // the window (exact, exact + 1) pins a fail-soft result to the exact value
            if exact < POS_INF {
                assert_eq!(alphabeta(&state, depth, exact, exact + 1, max), exact);
            }
            // a window above the value fails low with an upper bound on it
            if exact < POS_INF - 10 {
                let v = alphabeta(&state, depth, exact + 5, exact + 10, max);
                assert!(v <= exact + 5 && exact <= v);
            }
        }
        for depth in 1..=3 {
            assert_eq!(alphabeta_best_move(&state, depth), minimax_best_move(&state, depth));
        }
    }
}

#[test]
fn widget_selects_and_parses_moves() {
    let game_state = GameState::default();
    let mut board = ChessBoardWidget::new(&game_state);
    assert_eq!(board.available_piece_moves.len(), 16);
    assert_eq!(board.available_placement_moves.len(), 5);
    assert_eq!(board.available_piece_moves[Square::c1.index() as usize].len(), 2);
    assert_eq!(board.available_piece_moves[Square::d3.index() as usize].len(), 0);
    assert!(board.available_placement_moves.iter().all(|v| v.is_empty()));
    board.check_result(&game_state);
    assert_eq!(board.result, None);

    // c1 is file 2 of row 3; d3 is file 3 of row 1
    board.click_board(2, 3);
    assert_eq!(board.selected_square, Some(Square::c1));
    assert_eq!(board.selected_piece, Some(Square::c1));
    board.click_board(3, 1);
    assert_eq!(board.selected_square, Some(Square::d3));
    assert_eq!(board.selected_piece, Some(Square::c1));
    assert_eq!(board.try_parse_move(&game_state), Some(mv(Some(Square::c1), Square::d3, Piece::Ma, None, true)));

    // off the board nothing changes
    board.click_board(7, 1);
    assert_eq!(board.selected_square, Some(Square::d3));
    board.deselect_board();
    assert_eq!(board.selected_square, None);
    assert_eq!(board.selected_piece, None);
    assert_eq!(board.try_parse_move(&game_state), None);

    board.click_inventory(0, true);
    assert_eq!(board.selected_inventory_piece, Some(Piece::Wazir));
    board.click_inventory(0, false);
    assert_eq!(board.selected_inventory_piece, Some(Piece::Pawn));
    board.click_inventory(4, true);
    assert_eq!(board.selected_inventory_piece, Some(Piece::Pawn));
    board.deselect_inventory();
    assert_eq!(board.selected_inventory_piece, None);

    board.player_side = Side::Black;
    assert_eq!(board.map_square(0, 1), (3, 2));
    board.click_board(0, 0);
    assert_eq!(board.selected_square, Some(Square::d1));
    board.player_side = Side::White;
    assert_eq!(board.map_square(0, 1), (0, 1));
}

#[test]
fn widget_handles_clicks() {
    let game_state = GameState::default();
    let mut board = ChessBoardWidget::new(&game_state);
    board.promotion_selected = Some(Piece::Ma);
    board.click(Some(1), None);
    assert_eq!(board.selected_inventory_piece, Some(Piece::Ma));
    assert_eq!(board.selected_square, None);
    assert_eq!(board.promotion_selected, None);
    // an empty square keeps the inventory selection
    board.click(None, Some((1, 2)));
    assert_eq!(board.selected_square, Some(Square::b2));
    assert_eq!(board.selected_piece, None);
    assert_eq!(board.selected_inventory_piece, Some(Piece::Ma));
    // a piece with moves takes over from the inventory
    board.click(None, Some((0, 2)));
    assert_eq!(board.selected_square, Some(Square::a2));
    assert_eq!(board.selected_piece, Some(Square::a2));
    assert_eq!(board.selected_inventory_piece, None);
    board.click(None, Some((0, 1)));
    assert_eq!(board.try_parse_move(&game_state), Some(mv(Some(Square::a2), Square::a3, Piece::Pawn, None, false)));
    // a click beside the board clears the board selection
    board.click(None, None);
    assert_eq!(board.selected_square, None);
    assert_eq!(board.selected_piece, None);
}

#[test]
fn widget_waits_for_promotion_choice() {
    let game_state = promotion_position();
    let mut board = ChessBoardWidget::new(&game_state);
    board.click_board(0, 1);
    assert_eq!(board.selected_piece, Some(Square::a3));
    board.click_board(0, 0);
    assert_eq!(board.selected_square, Some(Square::a4));
    assert_eq!(board.try_parse_move(&game_state), None);
    assert_eq!(
        board.promotion_pending,
        Some(mv(Some(Square::a3), Square::a4, Piece::Pawn, Some(Piece::Wazir), false))
    );
    board.promotion_selected = Some(Piece::Ferz);
    let chosen = mv(Some(Square::a3), Square::a4, Piece::Pawn, Some(Piece::Ferz), false);
    assert_eq!(board.try_parse_move(&game_state), Some(chosen));
    board.deselect_promotion();
    assert_eq!(board.promotion_pending, None);
    assert_eq!(board.promotion_selected, None);
}

#[test]
fn widget_records_results() {
    let mut board = ChessBoardWidget::new(&GameState::default());
    board.check_result(&mated_white());
    assert_eq!(board.result, Some((Side::Black, true)));
    board.check_result(&stalemated_white());
    assert_eq!(board.result, Some((Side::White, false)));
}

#[test]
fn sessions_follow_the_game() {
    assert_eq!(PlayMode::PassAndPlay.as_str(), "Pass and Play");
    assert_eq!(PlayMode::Computer.as_str(), "Computer");

    let mut app = TinyhouseApp::new();
    let menu = match &app.screen {
        Screen::MainMenu(menu) => MainMenuState { mode: menu.mode, side: menu.side },
        _ => panic!("the application opens on the main menu"),
    };
    assert_eq!(menu.mode, PlayMode::PassAndPlay);
    assert_eq!(menu.side, Side::White);
    app.switch_screen(Some(menu.play()));
    assert!(matches!(app.screen, Screen::PassAndPlay(_)));
    app.switch_screen(None);
    assert!(matches!(app.screen, Screen::PassAndPlay(_)));
    let computer_menu = MainMenuState { mode: PlayMode::Computer, side: Side::Black };
    match computer_menu.play() {
        Screen::PlayComputer(state) => assert_eq!(state.chess_board.player_side, Side::Black),
        _ => panic!("the computer mode opens a game against the computer"),
    }

    let mut session = PassAndPlayState::new();
    let first = mv(Some(Square::c1), Square::d3, Piece::Ma, None, true);
    session.play(first);
    assert_eq!(*session.game_state.side(), Side::Black);
    assert_eq!(session.chess_board.player_side, Side::Black);
    assert_eq!(session.game_state.inventory()[0].get(Piece::Pawn), 1);
    let replies: usize = session.chess_board.available_piece_moves.iter().map(|v| v.len()).sum::<usize>()
        + session.chess_board.available_placement_moves.iter().map(|v| v.len()).sum::<usize>();
    assert_eq!(replies, session.game_state.generate_legal_moves().len());

    let mut game = PlayComputerState::new(Side::White);
    assert!(!game.chess_board.flip_board);
    game.chess_board.click_board(0, 3);
    game.play(mv(Some(Square::a1), Square::b2, Piece::King, None, false));
    assert_eq!(game.chess_board.player_side, Side::White);
    assert_eq!(game.chess_board.selected_square, None);
    assert_eq!(game.chess_board.selected_piece, None);
    assert_eq!(*game.game_state.side(), Side::Black);
}

#[test]
fn selection_steps_play_legal_moves() {
    let mut session = PassAndPlayState::new();
    // nothing selected: nothing is played
    assert_eq!(session.play_selection(), None);
    assert_eq!(*session.game_state.side(), Side::White);
    session.chess_board.click(None, Some((2, 3)));
    session.chess_board.click(None, Some((3, 1)));
    let played = session.play_selection();
    assert_eq!(played, Some(mv(Some(Square::c1), Square::d3, Piece::Ma, None, true)));
    assert_eq!(*session.game_state.side(), Side::Black);
    assert_eq!(session.chess_board.player_side, Side::Black);
    assert_eq!(session.game_state.inventory()[0].get(Piece::Pawn), 1);

    // a king is never a promotion choice
    let mut board = ChessBoardWidget::new(&promotion_position());
    board.select_promotion(Piece::King);
    assert_eq!(board.promotion_selected, None);
    board.select_promotion(Piece::Ma);
    assert_eq!(board.promotion_selected, Some(Piece::Ma));
    board.select_promotion(Piece::Pawn);
    assert_eq!(board.promotion_selected, Some(Piece::Ma));
}

#[test]
fn computer_takes_its_turn() {
    let mut game = PlayComputerState::new(Side::Black);
    assert!(!game.players_turn());
    let reply = game.take_turn().unwrap();
    assert!(GameState::default().generate_legal_moves().contains(&reply));
    assert_eq!(*game.game_state.side(), Side::Black);
    assert!(game.players_turn());
    // the player has selected nothing yet
    assert_eq!(game.take_turn(), None);
    assert_eq!(*game.game_state.side(), Side::Black);
    assert!(menu_after(None).is_none());
    assert!(matches!(menu_after(Some((Side::White, true))), Some(Screen::MainMenu(_))));
}
