# Ledgernomics

A stdio MCP server that keeps a project's goals, non-goals and budgeted
micro-slices in `.ledgernomics/` YAML files, and hands coding agents
cache-friendly context packets: a stable part with a fingerprint, to be
pinned until the fingerprint changes, and a volatile part fitted to a
character budget.

## Layout

- `src/` — the ledger's logic, verified with Verus:
  - `schema.rs`: projects, slices, statuses, session shapes, slice validation;
  - `scope.rs`: scoping an epic from one prompt (sections and list items of a
    brief, clarifications);
  - `store.rs`: the ledger (backlog, progress pointer, attempts, ADRs,
    statistics) and its operations;
  - `recover.rs`: context packets, their JSON size and fingerprint;
  - `service.rs`: what each MCP tool does to a ledger and answers;
  - `json.rs`, `util.rs`: JSON text and character-level helpers.
- `app/` — the server: command line, reading and writing the ledger's
  files, and the MCP wiring.
- `tests/` — tests of the library.

## Tools

`scope_epic`, `project_get` / `project_set`, `slice_upsert`, `slice_next` /
`slice_complete`, `assemble_context` / `recover_context` /
`prefix_fingerprint`, `attempt_append` / `attempt_list`, `adr_list` /
`adr_get`; resources `ledger://project` and `ledger://slice/current`.
Default slice budgets: at most 3 files and 120 lines of code.
