# Sisyphus32

A chess engine whose core is verified with Verus.

- `src/` is the library: bitboards, squares and pieces, move encoding, the
  position and its incremental Zobrist hash, pseudo-legal and legal move
  generation, FEN reading and writing, UCI parsing, static evaluation,
  transposition table, killer moves, the negamax search and performance
  tests (perft). Every function there carries a contract. Verus proves all
  of them but a few thin wrappers around outside calls (rand's generators,
  std's clock, `Box::leak` and reading bytes as UTF-8), whose contracts are
  taken on trust and say in their doc comments what they claim.
- `app/` is the program around it: the UCI loop on standard input and
  output, parallel perft, the Syzygy tablebase and the Lichess opening book.
- `tests/` runs the library on concrete positions, among them the perft
  counts of the standard test positions.

The UCI commands understood are `uci`, `ucinewgame`, `isready`,
`position (fen <fenstring> | startpos) [moves <move1> ... <movei>]`,
`go [perft <plies> | [depth <plies>] [wtime <ms>] [btime <ms>] [winc <ms>] [binc <ms>] [movetime <ms>]]`,
`stop | s`, `quit | q`, `exit | e`, `eval`, `display | d`,
`bench | benchmedium`, `benchlong`, `benchshort`,
`setoption name Clear Hash`, `setoption name Threads value <n>` and
`setoption name SyzygyPath value <path>`.
