# typy

A typing test for the terminal: random words to type against a timer, with
backspace across words and lines, upper-case, punctuation and number modes, and
a results screen with a speed graph, a leaderboard and a replay menu. The
library can also race a test against the recorded ghost of an earlier one.

The engine is a library verified with Verus; the terminal program around it is
ordinary Rust.

## Layout

- `src/` — the verified library.
  - `text.rs`: words joined by spaces and split at whitespace, decimal notation.
  - `words.rs`: lines filled with random words of a word list.
  - `mode.rs`: the game modes and how they alter words.
  - `game.rs`: the state of a test, line layout, the ghost of an earlier run.
  - `keyboard.rs`: what each keystroke does to the test, its statistics and
    the screen; `keyboard_laws.rs`: properties of keystrokes over whole runs.
  - `stats.rs`: letters and errors per second and the counts derived from them.
  - `config.rs`: configuration tables, theme colours, mode settings.
  - `menu.rs`, `results.rs`: the results screen, its menu and leaderboard.
  - `rng.rs`: the random generator of `rand`, behind specified wrappers.
  - `cli.rs`: language shorthands of the command line.
- `app/` — the terminal program: command line, configuration and score files,
  word-list download, drawing, timer, and the floating-point speeds.
- `tests/` — tests of the library.
