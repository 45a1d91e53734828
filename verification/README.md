# rholang

Verified core of the Rholang compiler front end and of the hot store of the
tuple space, written in Verus.

## Layout

- `src/` — the verified library.
  - `span.rs`: source positions and spans, and the span helpers.
  - `assoc.rs`, `util.rs`: association lists and small vector helpers.
  - `context.rs`, `free_map.rs`, `bound_map.rs`: the environments of the
    normalizer (free variables of a pattern by level, bound variables by
    de Bruijn index, scopes of nested patterns).
  - `ast.rs`, `normalize.rs`: variable resolution (process and name
    variables, remainders, variable references, literals, simple types,
    bundle polarities, receive flags).
  - `receive.rs`, `binders.rs`, `new_scope.rs`: the scopes opened by
    receives, contracts, match cases and `new`, and the checks made on them.
  - `syntax.rs`, `term.rs`, `term_eq.rs`, `term_copy.rs`, `env.rs`,
    `normalizer.rs`: the parsed form of a process, the normalized terms with
    the indices they leave free, when two terms are the same, copies of
    terms, the environment of processes bound to names that every `new`
    carries, and the normalizer from one to the other (variables, literals,
    expressions, lists, sends, receives, contracts, bundles, `if`, `match`,
    `new` and sequential `let`).
  - `send_sync.rs`, `concurrent_let.rs`: the synchronous send and the
    concurrent `let`, normalized as the `new` with sends and a receive they
    stand for, over channels with fresh names.
  - `compiler.rs`, `let_rewrite.rs`: the checks on a whole program and the
    names and spans a `let` is rewritten with.
  - `subset.rs`, `product.rs`, `sub_pars.rs`: the enumeration of the splits of
    a process used by the spatial matcher.
  - `dash.rs`, `random.rs`, `hot_store.rs`, `hot_store_laws.rs`: the hot store
    over concurrent maps, and what holds of sequences of its operations.
  - `state_manager.rs`: whether a space has a root.
- `tests/` — tests run against the compiled library.
- `app/` — a thread-safe hot store behind a mutex, printing, and error texts.
