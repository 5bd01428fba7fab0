# tessera

Tessera is a spatial music-pattern language: pieces are placed on a grid,
and an edge feeds one node's output into a parameter of the neighbour it
faces. This crate is its core, written in Verus: the executable code carries
`requires`/`ensures` contracts and proofs that Verus checks.

## Layout

- `src/` — the verified library.
  - `types`, `text`, `collections`: the vocabulary (grid cells, sides,
    domains, port types, rationals), text helpers and a sorted map/set.
  - `piece`, `piece_registry`: piece and parameter definitions and the
    registry of pieces.
  - `graph`, `diagnostics`: graphs of placed nodes and edges, their
    structural validation and reachability, and findings.
  - `internal`: shared graph rules (input and output sides, edge structure
    checks, registry checks, curation of findings).
  - `ops`: applying batches of graph operations with their undo
    operations, edge-connection checks with repair suggestions, pruning of
    edges that no longer fit, and auto-wiring of a node.
  - `subgraph`: the boundary pieces of a subgraph and the analysis that
    reads its signature (inputs in slot order, the output cell) or reports
    what is wrong with its boundary.
  - `semantic`: evaluation order with delay-broken feedback cycles,
    incremental-analysis helpers, and the semantic pass (unknown pieces,
    edge and parameter checks, output types with delay reconciliation, edge
    type checks and domain bridges, output nodes and unreachable nodes).
    The pass takes the host's check of inline values as a closure.
  - `domain`, `infrastructure`: the program model of spatial source mode
    (containers, flow nodes, relations, spatial defaults), the pattern IR and
    exact rationals, and the authoring facade.
- `tests/` — tests of the library.
- `app/` — host-side code that Verus does not check: serde forms of the
  library's types with conversions both ways, the numeric bounds of
  parameters (floating point), which it hands to the library's inline-value
  rules, and `apply_ops`, which applies graph operations with those rules
  checking inline values.

Random edge ids come from the `uuid` crate; JSON values are carried as
`serde_json::Value`.

## Not carried

Compilation to the expression form and backends, generated subgraph pieces
and subgraph compilation, and the host engine with its caches are not part
of this crate. Output types in the semantic pass are the pieces' declared
output types: pieces here are definitions, with no hook of their own to
infer an output type from their inputs.
