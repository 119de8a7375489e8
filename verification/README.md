# lau_dialogue

An NPC dialogue engine: characters speak according to the room they are in,
what the player just built, the time of day, their personality and their
relationship with the player. The engine and its template rendering are
verified with Verus, and so is the reading of the built-in template library
from what serde_json parses; what serde_json parses is trusted.

Layout:

- `src/model.rs` — characters, triggers, templates, the game context, and
  template rendering (placeholder substitution).
- `src/engine.rs` — the engine: adding characters, moving relationships, and
  choosing the line a character speaks; the spec `generated` says which line.
- `src/text.rs` — character-level text operations: comparison, replacing a
  pattern, decimal and percentage notation.
- `src/score.rs` — reading a score from decimal text.
- `src/library.rs` — the built-in template library in JSON, parsed with
  serde_json and read into templates.
- `src/laws.rs` — laws that relate the operations (lookup after add, ids stay
  distinct, relationships stay in range, rendering cycles, ...).
- `app/` — serde-derived copies of the types, with `f64` scores, and `From`
  conversions to and from the library's types.

Scores (relationships, the vibe of a place, the conservation error and the
thresholds of triggers) are fixed-point integers in millionths: `SCORE_ONE`
(1 000 000) stands for 1.0.
