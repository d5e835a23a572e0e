# game2048

An incremental version of 2048 — harvest tiles for points, buy upgrades that
grow the board, move it on a timer or change how tiles merge — together with
a handful of small games: sokoban, connect four, hangman, a sudoku solver and
a brainfuck interpreter.

The rules live in `src/`, a library verified with Verus: each public function
states what it does in its contract, and the laws that tie functions
together are proof functions (for example, a 2048 move reports a change
exactly when the board changed, a standard merge keeps the points on a row,
linking a brainfuck program pairs every bracket, a sokoban move never makes
or loses a box, and the sudoku rules only ever fix unknown cells, so solving
ends).

`app/` is the program around it: the browser front end (yew), saving to
local storage, the terminal games, and the few figures kept in floating
point (average points per second, logarithmic pricing, timer scaling).

`tests/` runs the library on concrete games.
