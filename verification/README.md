# openitb

Game logic of OpenITB, a turn-based tactics game in the style of Into the Breach on an
8x8 board addressed like a chess board (a1-h8), with its behaviour stated in Verus
contracts and proved.

- `src/` is the verified library: squares and moves (`position`), attack patterns
  (`attack`), terrain and units (`unit`), the layered board and its map format (`board`),
  movement within a budget of movement points (`movement`), the engine that applies moves
  and attacks (`engine`), the turn state machine with the simple computer player (`game`),
  what the debug views and panels show (`debug_view`, `panels`, `iso`), the chess board
  viewer's model (`chess`), and properties that span several functions (`laws`).
- `app/` is the program around it: the macroquad window with the isometric view, the
  egui panels, the ratatui debug view (`--tui`) and the chess viewer (`--chess`).
- `tests/` runs the library on concrete games.
