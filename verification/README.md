# shogi_ai

A shogi engine whose logic is verified with Verus: positions in SFEN notation,
move generation, alpha-beta search, the judgement of single moves, engine
configuration, the final choice among scored moves, adjustments to the rules and
skill definitions.

- `src/` is the library. Its functions state in their contracts what they return
  or change, and Verus proves it. What comes from outside (the clock, the random
  generator, a change of letter case) stands behind a few functions whose
  contracts are taken on trust; their comments say what is claimed, and what is
  left open.
  - `types`, `shogi`, `movegen`, `shogi_laws`, `symmetry_laws`: pieces, the rules
    of shogi as mathematics, move generation, and what holds of every generated
    move.
  - `sfen`, `text`, `sfen_laws`: positions in SFEN notation, and that reading the
    notation of a position gives it back.
  - `search`, `search_laws`: evaluation terms, alpha-beta search with iterative
    deepening within limits on nodes and time, and that an unhindered search
    finds the values that looking at every line of play would find.
  - `heuristic`, `select`: single moves, ranking and the final choice.
  - `config`: defaults and limits of the settings.
  - `json`, `rules`, `skills`: what a request brings along in its board state.
  - `ai_move`, `ai_move_laws`: from a request to the move that answers it, and
    that a seed gives the same answer again.
- `app/` is the web service around it. It also holds what computes with
  floating-point numbers: weighted scores and random draws.
- `tests/` run the library.

The service listens on `0.0.0.0:8080`, or where `AI_ENGINE_BIND` says, and
answers `GET /health` and `POST /v1/ai/move`.
