# f4na

An interpreter for the small scripting language f4na, with its tokenizer, parser
and evaluator verified with Verus.

Layout:

- `src/` — the verified library.
  - `tokenizer.rs`: splitting a text into tokens (`tokenize`), against a
    specification of the token at each position (`lex_spec`).
  - `import.rs`: expansion of `import` statements, as a machine that asks its
    caller for the files it needs (`ImportExpander`).
  - `ast.rs`, `ast_expr.rs`, `ast_stmt.rs`: the recursive-descent parser
    (`parse`, `parse_expr`, `parse_stmt`) against a grammar written as
    specification functions.
  - `value.rs`, `display.rs`: run-time values, their operators and their printed
    text.
  - `table.rs`, `eval.rs`, `build_env.rs`: name tables, the environment and the
    built-in functions.
  - `machine.rs`, `eval_expr.rs`, `eval_stmt.rs`: the evaluator as a small-step
    machine. Each `step` says what the caller must do next: nothing, run a
    built-in function that does I/O, compute with floats, stop the process, or
    report the end of the run; the caller answers with `resume`.
  - `laws.rs`: properties of the evaluator over several steps and operators.
- `app/` — the command-line program: reading files, the I/O built-ins, system
  calls, floating-point arithmetic and error messages.
- `tests/` — tests of the library.
