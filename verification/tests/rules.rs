use tinyhouse::bitboard::{ferz_attacks, lookup_ma_attacks, pawn_attacks, wazir_attacks, BitBoard};
use tinyhouse::inventory::Inventory;
use tinyhouse::pieces::{square_from_index, Move, Piece, Side, Square};
use tinyhouse::position::{get_ls1b_index, GameState};

fn bits(squares: &[Square]) -> u16 {
    let mut b: u16 = 0;
    for s in squares {
        b |= 1 << s.index();
    }
    b
}

fn mv(source: Option<Square>, target: Square, piece: Piece, promoted_piece: Option<Piece>, capture: bool) -> Move {
    Move { source, target, piece, promoted_piece, capture }
}

/// Every legal move of every position up to `depth` plies from `state`
/// hands the turn over and leaves the mover's king out of check.
fn check_legal_moves_safe(state: GameState, depth: i32) -> usize {
    if depth == 0 {
        return 1;
    }
    let mut count = 0;
    let mover = *state.side();
    for m in state.generate_legal_moves() {
        let next = state.make_move(&m);
        assert_eq!(*next.side(), mover.opponent());
        assert!(!next.detect_check(mover), "{} leaves the king in check", m.to_string());
        count += check_legal_moves_safe(next, depth - 1);
    }
    count
}

#[test]
fn square_from_u32_wraps() {
    assert_eq!(Square::from(12u32), Square::a1);
    assert_eq!(Square::from(17u32), Square::b4);
    assert_eq!(Square::from(31u32), Square::d1);
    assert_eq!(Square::from_u32(7), Square::d3);
    assert_eq!(square_from_index(9), Square::b2);
    assert_eq!(Square::c2.index(), 10);
}

#[test]
fn opponent_twice_is_identity() {
    assert_eq!(Side::White.opponent(), Side::Black);
    assert_eq!(Side::Black.opponent(), Side::White);
    assert_eq!(Side::White.opponent().opponent(), Side::White);
    assert_eq!(Side::White.index(), 0);
    assert_eq!(Side::Black.index(), 1);
}

#[test]
fn inventory_counters() {
    // one wazir, two mas, three ferzes, no pawn
    let mut inv = Inventory::from_raw(0b01_10_11_00);
    assert_eq!(inv.get(Piece::Wazir), 1);
    assert_eq!(inv.get(Piece::Ma), 2);
    assert_eq!(inv.get(Piece::Ferz), 3);
    assert_eq!(inv.get(Piece::Pawn), 0);
    inv.increment(Piece::Pawn);
    assert_eq!(inv.get(Piece::Pawn), 1);
    assert_eq!(inv.get(Piece::Ferz), 3);
    inv.decrement(Piece::Ferz);
    assert_eq!(inv.get(Piece::Ferz), 2);
    inv.increment(Piece::Wazir);
    inv.decrement(Piece::Wazir);
    assert_eq!(inv.get(Piece::Wazir), 1);
    let inv: Inventory = 0b11_00_00_01u8.into();
    assert_eq!(inv.get(Piece::Wazir), 3);
    assert_eq!(inv.get(Piece::Pawn), 1);
}

#[test]
fn bitboard_bits() {
    let mut b = BitBoard(0);
    assert!(!b.get_bit(5));
    b.set_bit(5);
    b.set_bit(12);
    assert!(b.get_bit(5));
    assert!(b.get_bit(12));
    assert_eq!(b.0, (1 << 5) | (1 << 12));
    b.pop_bit(5);
    assert!(!b.get_bit(5));
    assert_eq!(b.0, 1 << 12);
    b.pop_bit(5);
    assert_eq!(b.0, 1 << 12);
}

#[test]
fn lowest_square_first() {
    assert_eq!(get_ls1b_index(BitBoard(bits(&[Square::c3, Square::a1]))), Square::c3);
    assert_eq!(get_ls1b_index(BitBoard(1 << 15)), Square::d1);
    let mut b = BitBoard(bits(&[Square::d1, Square::a4, Square::b2]));
    assert_eq!(b.next(), Some(Square::a4));
    assert_eq!(b.next(), Some(Square::b2));
    assert_eq!(b.next(), Some(Square::d1));
    assert_eq!(b.next(), None);
    assert_eq!(b.0, 0);
}

#[test]
fn attack_tables() {
    assert_eq!(wazir_attacks(Square::a1.index()).0, bits(&[Square::a2, Square::b1]));
    assert_eq!(wazir_attacks(Square::b3.index()).0, bits(&[Square::b4, Square::a3, Square::c3, Square::b2]));
    assert_eq!(ferz_attacks(Square::a1.index()).0, bits(&[Square::b2]));
    assert_eq!(ferz_attacks(Square::c3.index()).0, bits(&[Square::b4, Square::d4, Square::b2, Square::d2]));
    assert_eq!(pawn_attacks(true, Square::a2.index()).0, bits(&[Square::b3]));
    assert_eq!(pawn_attacks(true, Square::b4.index()).0, 0);
    assert_eq!(pawn_attacks(false, Square::d3.index()).0, bits(&[Square::c2]));
    // a ma on c1 with b1 occupied: a2 is cut off, b3 and d3 are reached over c2
    let block = BitBoard(bits(&[Square::b1, Square::d1]));
    assert_eq!(lookup_ma_attacks(Square::c1.index(), block).0, bits(&[Square::b3, Square::d3]));
    let block = BitBoard(bits(&[Square::b1, Square::c2]));
    assert_eq!(lookup_ma_attacks(Square::c1.index(), block).0, 0);
    let block = BitBoard(0);
    assert_eq!(lookup_ma_attacks(Square::b2.index(), block).0, bits(&[Square::a4, Square::c4, Square::d3, Square::d1]));
}

#[test]
fn notation() {
    assert_eq!(Square::a1.to_string(), "a1");
    assert_eq!(Square::d4.to_string(), "d4");
    assert_eq!(Piece::Ma.to_string(), "M");
    assert_eq!(Side::Black.to_string(), "Black");
    assert_eq!(mv(None, Square::a2, Piece::Wazir, None, false).to_string(), "W@a2");
    assert_eq!(mv(Some(Square::c1), Square::d3, Piece::Ma, None, true).to_string(), "Mxd3");
    assert_eq!(mv(Some(Square::a1), Square::b2, Piece::King, None, false).to_string(), "Kb2");
    assert_eq!(mv(Some(Square::a3), Square::a4, Piece::Pawn, Some(Piece::Wazir), false).to_string(), "Pa4=W");
    assert_eq!(mv(Some(Square::a3), Square::b4, Piece::Pawn, Some(Piece::Ferz), true).to_string(), "Pxb4=F");
    assert_eq!(
        BitBoard(bits(&[Square::a4, Square::d1])).to_string(),
        "\n  4  1 0 0 0\n  3  0 0 0 0\n  2  0 0 0 0\n  1  0 0 0 1\n\n     a b c d\n"
    );
}

#[test]
fn starting_position_text() {
    let game_state = GameState::default();
    assert_eq!(
        game_state.to_string(),
        "\n  4  f m w k\n  3  . . . p\n  2  P . . .\n  1  K W M F\n\n     a b c d\n\nWhite to play\n"
    );
    let game_state = GameState::new(
        vec![(Piece::King, Side::White, Square::a1), (Piece::King, Side::Black, Square::d4)],
        Vec::new(),
        [[1, 0, 0, 2].into(), [0, 3, 0, 0].into()],
        Side::Black,
    );
    assert_eq!(
        game_state.to_string(),
        "\n  4  . . . k\n  3  . . . .\n  2  . . . .\n  1  K . . .\n\n     a b c d\n\nBlack to play\n  W: 1\n  P: 2\n  m: 3\n"
    );
}

#[test]
fn starting_position_moves() {
    let game_state = GameState::default();
    let moves = game_state.generate_legal_moves();
    let mut names: Vec<String> = moves.iter().map(|m| m.to_string()).collect();
    names.sort();
    assert_eq!(names, vec!["Fc2", "Kb2", "Mb3", "Mxd3", "Pa3", "Wb2"]);
    assert!(!game_state.detect_check(Side::White));
    assert!(!game_state.detect_check(Side::Black));
    assert_eq!(game_state.detect_mate(), None);
}

#[test]
fn legal_moves_keep_king_safe() {
    let count = check_legal_moves_safe(GameState::default(), 4);
    assert!(count > 0);
}

#[test]
fn capture_goes_to_reserve() {
    let game_state = GameState::default();
    let next = game_state.make_move(&mv(Some(Square::c1), Square::d3, Piece::Ma, None, true));
    assert_eq!(*next.side(), Side::Black);
    assert_eq!(next.inventory()[0].get(Piece::Pawn), 1);
    assert_eq!(next.inventory()[1].get(Piece::Pawn), 0);
    assert!(next.bitboards().get(Piece::Ma).get_bit(Square::d3.index()));
    assert!(!next.bitboards().get(Piece::Pawn).get_bit(Square::d3.index()));
    assert!(next.occupancies().get(Side::White).get_bit(Square::d3.index()));
    assert!(!next.occupancies().get(Side::Black).get_bit(Square::d3.index()));
    assert!(!next.occupancies().get(Side::White).get_bit(Square::c1.index()));
}

#[test]
fn captured_promoted_pawn_returns_as_pawn() {
    let game_state = GameState::new(
        vec![
            (Piece::King, Side::White, Square::a1),
            (Piece::Wazir, Side::White, Square::c3),
            (Piece::King, Side::Black, Square::d4),
        ],
        vec![Square::c3],
        [[0, 0, 0, 0].into(), [0, 0, 0, 0].into()],
        Side::Black,
    );
    let capture = mv(Some(Square::d4), Square::c3, Piece::King, None, true);
    assert!(game_state.generate_legal_moves().contains(&capture));
    let next = game_state.make_move(&capture);
    assert_eq!(next.inventory()[1].get(Piece::Pawn), 1);
    assert_eq!(next.inventory()[1].get(Piece::Wazir), 0);
    assert_eq!(next.bitboards().get(Piece::Wazir).0, 0);
}

#[test]
fn drop_from_reserve() {
    let game_state = GameState::new(
        vec![
            (Piece::King, Side::Black, Square::d2),
            (Piece::Ma, Side::Black, Square::c3),
            (Piece::King, Side::White, Square::a1),
        ],
        Vec::new(),
        [[0, 0, 0, 0].into(), [1, 0, 0, 0].into()],
        Side::Black,
    );
    let drop = mv(None, Square::a2, Piece::Wazir, None, false);
    assert!(game_state.generate_legal_moves().contains(&drop));
    let next = game_state.make_move(&drop);
    assert_eq!(next.inventory()[1].get(Piece::Wazir), 0);
    assert!(next.bitboards().get(Piece::Wazir).get_bit(Square::a2.index()));
    assert!(next.detect_check(Side::White));
    assert_eq!(next.generate_legal_moves().len(), 0);
    assert_eq!(next.detect_mate(), Some(true));
}

#[test]
fn stalemate_detected() {
    let game_state = GameState::new(
        vec![
            (Piece::King, Side::White, Square::a1),
            (Piece::King, Side::Black, Square::c2),
            (Piece::Ferz, Side::Black, Square::b3),
        ],
        Vec::new(),
        [[0, 0, 0, 0].into(), [0, 0, 0, 0].into()],
        Side::White,
    );
    assert!(!game_state.detect_check(Side::White));
    assert_eq!(game_state.generate_legal_moves().len(), 0);
    assert_eq!(game_state.detect_mate(), Some(false));
}

#[test]
fn pawn_promotes_on_last_rank() {
    let game_state = GameState::new(
        vec![
            (Piece::King, Side::White, Square::d1),
            (Piece::Pawn, Side::White, Square::a3),
            (Piece::King, Side::Black, Square::c4),
        ],
        Vec::new(),
        [[0, 0, 0, 0].into(), [0, 0, 0, 0].into()],
        Side::White,
    );
    let moves = game_state.generate_legal_moves();
    for piece in [Piece::Wazir, Piece::Ferz, Piece::Ma] {
        assert!(moves.contains(&mv(Some(Square::a3), Square::a4, Piece::Pawn, Some(piece), false)));
    }
    assert!(!moves.contains(&mv(Some(Square::a3), Square::a4, Piece::Pawn, None, false)));
    let next = game_state.make_move(&mv(Some(Square::a3), Square::a4, Piece::Pawn, Some(Piece::Ma), false));
    assert!(next.bitboards().get(Piece::Ma).get_bit(Square::a4.index()));
    assert_eq!(next.bitboards().get(Piece::Pawn).0, 0);
}

fn pieces_in_game(state: &GameState) -> u32 {
    let mut total = 0;
    for piece in [Piece::Wazir, Piece::Ma, Piece::Ferz, Piece::Pawn] {
        total += state.bitboards().get(piece).0.count_ones();
        total += state.inventory()[0].get(piece) as u32 + state.inventory()[1].get(piece) as u32;
    }
    total
}

fn check_material(state: GameState, depth: i32) {
    assert_eq!(pieces_in_game(&state), 8, "{}", state.to_string());
    assert_eq!(state.bitboards().get(Piece::King).0.count_ones(), 2);
    if depth == 0 {
        return;
    }
    for m in state.generate_legal_moves() {
        check_material(state.make_move(&m), depth - 1);
    }
}

#[test]
fn material_is_conserved() {
    check_material(GameState::default(), 4);
}

#[test]
fn bitboard_operators() {
    let a = BitBoard(0b1100);
    let b = BitBoard(0b1010);
    assert_eq!((a | b).0, 0b1110);
    assert_eq!((a & b).0, 0b1000);
    assert_eq!((a ^ b).0, 0b0110);
    assert_eq!((!a).0, 0xfff3);
    assert_eq!((BitBoard(0x8001) * BitBoard(2)).0, 2);
    assert_eq!(BitBoard::default().0, 0);
    assert_eq!(-Side::White, Side::Black);
    assert!(Square::a4 < Square::d1);
    assert!(Square::c2 > Square::b2);
}

#[test]
fn board_indexing() {
    let game_state = GameState::default();
    let mut boards = *game_state.bitboards();
    assert_eq!(boards[Piece::King].0, bits(&[Square::d4, Square::a1]));
    boards[Piece::Pawn] = BitBoard(0);
    assert_eq!(boards.get(Piece::Pawn).0, 0);
    assert_eq!(boards[Piece::Ma].0, bits(&[Square::b4, Square::c1]));
    let mut occupancies = *game_state.occupancies();
    assert_eq!(occupancies[Side::Black].0, bits(&[Square::a4, Square::b4, Square::c4, Square::d4, Square::d3]));
    occupancies[Side::White] = BitBoard(1);
    assert_eq!(occupancies.get(Side::White).0, 1);
}

#[test]
fn pawn_drops_avoid_last_rank() {
    let game_state = GameState::new(
        vec![(Piece::King, Side::White, Square::a1), (Piece::King, Side::Black, Square::d4)],
        Vec::new(),
        [[0, 0, 0, 1].into(), [0, 0, 0, 1].into()],
        Side::White,
    );
    let moves = game_state.generate_legal_moves();
    let drops: Vec<Move> = moves.iter().filter(|m| m.source.is_none()).copied().collect();
    // 14 empty squares, less a4, b4, c4 on White's last rank
    assert_eq!(drops.len(), 11);
    assert!(!drops.contains(&mv(None, Square::b4, Piece::Pawn, None, false)));
    assert!(drops.contains(&mv(None, Square::b1, Piece::Pawn, None, false)));
    let black = game_state.make_move(&mv(None, Square::c2, Piece::Pawn, None, false));
    let black_drops: Vec<Move> =
        black.generate_legal_moves().into_iter().filter(|m| m.source.is_none()).collect();
    // 13 empty squares, less b1, c1, d1 on Black's last rank
    assert_eq!(black_drops.len(), 10);
    assert!(!black_drops.contains(&mv(None, Square::d1, Piece::Pawn, None, false)));
    assert!(black_drops.contains(&mv(None, Square::a4, Piece::Pawn, None, false)));
}
