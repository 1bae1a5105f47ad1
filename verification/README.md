# packard

The Packard Scripting Language (PSL): a bracket-structured language for
interactive fiction, with its lexer, parser, story runtime and interactive
engine written in Verus and proved against their contracts.

## Layout

- `src/lexer.rs`: tokens of PSL source, with a model of lexing (`spec_tokenize`).
- `src/parser.rs`, `src/number.rs`: the grammar of statements and expressions
  (`spec_parse`), and the number literals that `f64` accepts.
- `src/value.rs`: values and the named entries of containers.
- `src/semantics.rs`: what running an expression does to the story state
  (`eval_expr`); numbers are IEEE-754 bit patterns, and what the library cannot
  compute itself is asked of a number function (`NumQuery`).
- `src/runtime.rs`, `src/paths.rs`: the runtime, proved to follow `eval_expr`.
- `src/game_engine.rs`: running a story a display at a time, the player's
  choices, and what is shown.
- `src/save_state.rs`: saved games and their order.
- `src/laws.rs`: properties across operations (a write reads back, a removal
  is final, every step keeps containers well-formed).
- `app/`: the `packard` program: file and terminal I/O, the `f64` number
  function, and JSON save files.
