# Atlas chess engine

A chess engine whose library is verified with Verus: board representation, move
generation and legality, making and taking back moves, Zobrist hashing, a transposition
table, a negamax search with alpha-beta pruning, a positional evaluation, an opening book
reader, magic attack tables, and the game logic behind a terminal game and an HTTP game
server.

## Layout

- `src/` — the verified library. Each public function states its result in `ensures`
  over spec functions; laws relating several functions are public proof functions whose
  names begin with `law_`.
  - `bits`, `types`, `board` — bitboards, piece codes, the board and its well-formedness.
  - `masks`, `attacks`, `movegen`, `legality` — attack patterns, attacked squares,
    pseudo-legal and legal moves.
  - `make_move`, `zobrist`, `zobrist_keys`, `hashing` — playing and taking back moves, the
    incremental hash and the law that it stays the position's Zobrist key.
  - `play` — positions reached in play: every legal move keeps them so, and they can be
    searched to any depth; also the turn function of a game against the engine.
  - `game`, `search`, `evaluate`, `eval_tables` — the game state, transposition table,
    perft, negamax, best-move choice and the evaluation; `tree` — the positions a search
    visits, and why a fresh table is never consulted when none occurs twice.
  - `magic`, `tables` — the search for magic numbers and the magic attack tables of the
    sliding pieces.
  - `text`, `notation`, `book`, `web` — move text, move notation, the Polyglot book format
    and the logic of the game server, with the store of games in play that never holds
    more than `MAX_GAMES`.
  - `picture` — the board drawn as text from one player's side.
- `tests/` — tests run against the compiled library.
- `app/` — the programs: the terminal game, the HTTP server (axum, tokio), the magic
  number printer, and the file reading they need.
