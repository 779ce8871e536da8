# tinyhouse

Tinyhouse is a 4x4 chess variant with drops: captured pieces go to the
captor's reserve and can be placed back on an empty square. Each side has a
king, a wazir (one step orthogonally), a ferz (one step diagonally), a ma (a
blockable knight) and a pawn that promotes to a wazir, ferz or ma on the last
rank and returns to the reserve as a pawn when captured.

The library is verified with Verus:

- `src/bitboard.rs`: sixteen-square bitboards and the attack tables, each
  table proved equal to the board geometry it encodes.
- `src/pieces.rs`, `src/inventory.rs`: squares, pieces, sides, moves, and the
  packed two-bit reserve counters.
- `src/position.rs`: the game state, move generation, making moves, check,
  checkmate and stalemate, with the invariants that legal play keeps.
- `src/search.rs`: material evaluation, minimax and alpha-beta search, and
  best-move selection, against a mathematical minimax value.
- `src/notation.rs`: text forms of squares, pieces, moves, bitboards and
  positions.
- `src/board_ui.rs`: the decisions of the play screens (selection, clicks,
  promotion choice, results, sessions).

`app/` is the egui front end that draws the board and forwards clicks;
`tests/` holds the executable tests.
