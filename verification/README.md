# brainrot

A small interpreted language — `let`, assignment, arithmetic with precedence,
strings, booleans, comparisons, `&&`/`||`, `if`/`elif`/`else`, `while`, `for`,
`break`/`continue`/`return`, functions with closures and recursion, `print` —
whose lexer, parser and evaluator are verified with Verus.

Layout:

- `src/text.rs` — characters and strings: decimal notation, integer parsing.
- `src/token.rs`, `src/lexer.rs` — tokens and the lexer, specified by `lex_from`.
- `src/parser.rs` — the Pratt parser, specified by `sp_program` and friends.
- `src/value.rs` — runtime values and their operators.
- `src/env.rs` — scopes, kept in one list, each naming the scope it sits in.
- `src/semantics.rs` — the evaluation semantics (`ev_*`, `spec_run`) and the
  laws about scopes and output.
- `src/interpreter.rs` — the evaluator, proved to follow `spec_run`.
- `src/repl.rs` — how the read-eval-print loop gathers lines into statements.
- `app/main.rs` — the program: runs `src/brain.rot`, then the REPL, printing
  in colour.

Evaluation is given a step budget (`u64::MAX` steps per top-level
statement), so that every function terminates. `Interpreter::run` is for
sources on which a run comes back with a result (`run_returns`);
`Interpreter::run_checked` tests that first and refuses the others (integer
overflow, `%` by zero, calling a non-function, input the lexer or parser
cannot get through).
