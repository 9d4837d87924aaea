# mobius_life

Conway's game of life played on the surface of a Möbius strip, with the game
logic written in Verus and proved against its contracts.

- `src/torus.rs` — folding coordinates onto a toroidal board, the square
  neighbour window, and the lemmas about both (bounds, periodicity, injectivity).
- `src/gameoflife.rs` — the board (`Life`): stepping a generation, the clock,
  pointer strokes, stamping premade patterns (`Lifeform`), the neighbour list,
  and the laws of the game (Conway's rules, wrapping, 0/1 boards stay 0/1, dead
  boards stay dead, stamped patterns land cell for cell).
- `src/mobius.rs` — which quads make up each side of the strip, their ids,
  colours and triangle indices, and the size of the board that covers it.
- `src/naming.rs` — default lifeform names with a verified decimal rendering.
- `app/` — the window, renderer, GUI and floating-point geometry around the
  library (not verified).

Time is kept in whole nanoseconds and frame rates in whole frames per second,
so the clock is exact integer arithmetic.
