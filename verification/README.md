# cypher_rs

An openCypher front-end: lexer, parser, semantic analysis, logical planning,
predicate-pushdown optimization and projection-pruning analysis, verified
with Verus.

Layout of `src/`:

- `lexer.rs`, `grammar.rs`, `parser.rs`: the text of a query becomes
  tokens, the grammar says what a token sequence parses to, and `parse`
  computes exactly that.
- `ast.rs`, `error.rs`: the syntax tree, its model, and parse errors.
- `plan.rs`, `plan_text.rs`: the logical plan, the lowering of a query to
  it, and its indented text.
- `optimize.rs`: predicate pushdown, with its laws (one pass is a fixpoint;
  filters only move; bindings are kept).
- `prune.rs`: output columns and required input columns of operators.
- `sema.rs`: bindings, unbound variables, and label / relationship-type
  checks against a `Schema`.
- `names.rs`, `text.rs`: sets of names and building text.

`app/main.rs` prints the plan of a sample query.
