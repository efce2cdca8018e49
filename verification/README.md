# graphql-drop-unused-definitions

Prune a GraphQL document down to one operation and the fragments it reaches
through `...Spread` references, at any depth; parse and print documents with
`graphql_parser`. Written in Verus: the pruning, the reachability walk, the
string-value rewriting and restoring around the printer, and the canonical
string escaping are verified against specifications over a mathematical view
of the document.

Layout of `src/`:

- `ast.rs`: the document model and its view (`Spec*` types).
- `copy.rs`: deep copies that keep the view.
- `spreads.rs`: fragment spreads of a selection set, operation name keys.
- `reach.rs`: the spread graph, reachability, and the walk that collects it.
- `prune.rs`: `drop_unused_definitions` and what it computes.
- `laws.rs`: what holds of pruning for every document (order, one operation,
  reachability, idempotence, fallback).
- `escape.rs`: canonical single-line string values.
- `printing.rs`: placeholders for string values, shorthand queries, `print`.
- `string_values.rs`: the string values of a document in the order the
  parser's printer writes them, and the documents `print` takes.
- `restoring.rs`: why every placeholder is found again after printing.
- `text.rs`: small string operations.
- `block_strings.rs`: the sources `parse` accepts without the parser failing
  inside a block string, and a check for them.
- `raw.rs`: the calls into `graphql_parser` and the conversions between its
  AST and the model.
