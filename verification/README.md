# tiny_qtt

A small checker for Quantitative Type Theory: every binder carries a
multiplicity from the zero-one-many semiring (`0` erased, `1` linear, `w`
unrestricted), and elaboration charges each term's usage of its context
against those budgets.

The library is written in Verus; each public function states what it
returns in `requires`/`ensures` clauses over mathematical models, and the
laws of the system are proof functions beside the code they are about.

- `src/mult.rs` — the semiring and usage vectors, with its laws.
- `src/lexer.rs`, `src/parse.rs` — the lexical grammar and the grammar of
  modules, terms and prompt lines, as functions on characters and tokens.
- `src/value.rs`, `src/eval.rs` — values, evaluation, read-back and
  conversion, with the laws of evaluation budgets, binding and conversion.
- `src/normal.rs` — normal forms, the law that normalisation leaves a
  normal form unchanged, and the law that conversion finds every value
  with a read-back equal to itself.
- `src/elab.rs` — bidirectional elaboration with usage accounting, and the
  laws of binder budgets, additive and multiplicative pairs and cuts.
- `src/pretty.rs` — printing of core terms.
- `src/driver.rs`, `src/repl.rs` — checking whole modules, and the
  decisions of the interactive prompt.
- `src/diagnostics.rs` — error reports, drawn by `ariadne`.
- `app/` — the command line and the prompt (`clap`, `rustyline`), and the
  error types with their `thiserror` impls.
- `tests/` — tests of the library on concrete inputs.

```text
tiny-qtt check FILE     check a module and print what each declaration establishes
tiny-qtt repl           start the prompt
```
