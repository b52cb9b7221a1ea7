# wordle_solver

A verified Wordle solving assistant. Given each guess and the feedback Wordle
showed for it (`G` green, `Y` yellow, `_` gray), it keeps the dictionary words
consistent with every clue and suggests the next guess by letter frequency.

- `src/clue.rs` — hints, clues, parsing, and the position and letter-count
  rules one clue imposes (duplicate letters included).
- `src/feedback.rs` — Wordle's own scoring as a specification, and the proof
  that the hidden word always satisfies the clue it produces.
- `src/solver.rs` — candidate filtering, scoring and suggestion, the
  dictionary loader and the candidate listing.
- `src/game.rs` — the game's decisions as a state machine (one input line in,
  text and next state out) and a whole game over a given input.
- `src/text.rs` — string helpers and the calls into `std`'s Unicode case
  mapping and white-space trimming.
- `src/words.rs` — the word list: about 2,300 common five-letter English
  words, not the ENABLE list of 8,636 words, so dictionary size, candidate
  counts and suggestions differ from a build with that list.
- `app/main.rs` — the interactive command-line program.
