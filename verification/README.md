# minesweeper

The classic Minesweeper game. The game rules form a library whose behaviour
is stated in contracts and proved with Verus; a small terminal program
around it plays the game.

## Layout

- `src/cells.rs` — cell contents (`CellType`), marks (`Status`), single
  cells (`Cell`), and the text symbol of a cell.
- `src/grid.rs` — geometry of a board stored row by row: which indices are
  adjacent, and the index arithmetic behind it.
- `src/rules.rs` — the rules as mathematical definitions: bomb and flag
  counts, the flood fill as reachability, what a reveal or a mark request
  does (`reveal_outcome`, `cycle_outcome`), and the win condition.
- `src/game_play.rs` — the `Board`: building a board from bomb
  coordinates, drawing random coordinates, revealing (with chording and a
  breadth-first flood fill), cycling marks, and checking for a win. Each
  operation's contract equals the corresponding definition in `rules.rs`.
- `src/laws.rs` — properties across requests: reveals only reveal, flags
  protect cells, three mark cycles undo themselves, safe reveals and
  chords with correct flags never lose, the game is over exactly when a
  bomb shows, numbers lie between 0 and 8, a board has as many bombs as
  distinct coordinates.
- `src/chance.rs` — the two calls into `rand` that draw bomb positions.
- `src/text.rs` — reading typed words: keyword comparison, decimal numbers,
  lower-casing.
- `src/cli_game.rs` — the command line game's decisions: which command a
  line means, what it does and answers, when the game has finished, and
  the lines of the printed board.
- `src/tui_game.rs` — the terminal game's decisions: cursor moves, reveal,
  mark, restart and quit for each key.
- `src/gui_game.rs` — the graphical game's decisions: new game from a
  configuration, clicks, status line and cell labels.
- `app/` — reading the command line and the keyboard, printing and drawing.
- `tests/` — tests on concrete boards.
