# corbel

A call-graph index for source repositories, served to coding agents over
MCP. `corbel index` parses every Rust, Python, TypeScript, TSX and
JavaScript file with tree-sitter, records definitions, imports and calls in
SQLite and resolves each call to a definition; `corbel serve` answers
`get_symbol`, `impact` and `find` requests from that index.

## Layout

- `src/` is the library, verified with Verus. It holds the logic:
  - `lang/`: the syntax-tree model (`syntax.rs`, `ts.rs`), the per-language
    extraction of definitions, calls and imports (`langs/`, `extract.rs`)
    and the language registry (`registry.rs`);
  - `resolve.rs`: resolving each call to a definition (same file, scoped
    import, unique name in the index, external, unresolved);
  - `query.rs`: the answers to the three tools — callers and callees
    trimmed to a token budget, the breadth-first reverse call graph walk of
    `impact`, and the ranked name search of `find`;
  - `mcp/`: the JSON-RPC request handling, tool argument checks and the
    JSON payloads;
  - `walk.rs`, `index.rs`, `store.rs`, `audit.rs`, `report.rs`, `diff.rs`:
    walk classification, indexing decisions, schema versions and the audit
    of recorded queries against uncommitted changes;
  - `budget.rs`, `hash.rs`, `path.rs`, `symbol.rs`, `text.rs`, `order.rs`,
    `num.rs`: token estimates, content hashes, repository paths, symbol
    records and the text, ordering and number helpers the rest uses.
- `app/` is the command-line program around it: argument parsing, the
  file walk, SQLite, the audit log file and the stdin/stdout server loop.
- `tests/` exercises the library on concrete inputs.

Calls into tree-sitter, xxhash and serde_json go through small trusted
wrappers in `src/lang/ts.rs`, `src/hash.rs` and `src/mcp/wire.rs`. Each
names what the outside function gives as a function of its plain inputs:
the nodes of the tree tree-sitter parses from a text with a grammar, the
matches of a query over that tree, a query's capture indices, the hash of
some bytes, the JSON value read from a line and the text written for a
value. What is verified is everything around them: the recording of the
listed nodes as a syntax tree, the extraction of definitions, calls and
imports from that tree and the matches, and the request and response
handling of the server.
