# Fox and Hounds

A turn-based pursuit game on graph boards: one fox tries to reach the chicken coop,
three hounds try to leave it without a move. The library (`src/`) holds the rules,
the boards, the computer opponent and the translations, each with a contract proved
by Verus; `app/` is the macroquad window around it.

## Layout

- `src/game/paths.rs` — walks, reachability and a layered breadth-first search with
  the shortest-distance results it computes.
- `src/game/graph.rs` — board graphs (undirected, no repeated neighbours, with
  all-pairs distances) and the moves each side may make on them.
- `src/game/level.rs` — the five boards and their rules: each board's vertex table and
  edge list are spec functions, and each builder is proved to build exactly that
  board (`built_from`).
- `src/game/state.rs` — a match: turns, legal moves, refusals, results, and the laws
  the rules keep (pieces stay apart, hounds keep out of the coop, turns alternate).
- `src/game/ai.rs` — the static evaluation, alpha-beta minimax (exact on the full
  window and at terminal positions) and the computer's choice of move, proved legal.
- `src/game/i18n.rs` — translation lookup by locale tag, the statistics line, and
  the command-line and environment locale.
- `src/ui/board_view.rs` — what a click on a vertex does and when the board's hints
  show.
- `app/` — window, drawing, timers, sound, loading the translation files.
- `tests/` — the game's scenarios and checks of the laws on concrete values.


## Collections

Three collections of the game are held in forms whose contracts Verus can prove; the
results are the same, and the std forms were not tried under Verus:

- The vertex-name index: a search over the vertices for the last one with the name,
  which is what a name-to-index map filled in vertex order answers. Maps keyed by
  `String` get no usable specification from vstd.
- The breadth-first search: it proceeds level by level over a frontier `Vec` instead
  of a `VecDeque`, so that each level, the shortest distance, is what the loop
  invariant speaks of.
- Move ordering: a stable insertion sort by key, proved to return a permutation;
  vstd gives no specification for `sort_unstable_by_key`. The order only affects
  which branches alpha-beta cuts, never the value it returns.

Translations, sounds and the font are read from `assets/` at run time; without the
translation files the game runs in built-in English.
