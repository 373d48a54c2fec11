# cds_cqn

A small CAP-style data service: it reads service definitions in the CDS
schema notation (CSN), turns OData-style requests into CDS queries (CQN),
completes them from the definitions and prints them as SQL for SQLite.

The library under `src/` is verified with Verus; each public function
states what it returns in its `ensures` clause, over the views of the
types (`@`) and the spec functions beside them.

- `json` — one level of a JSON document; the single call into `serde_json`
  (`parse_json_node`), whose result is named by `json_node`.
- `text` — splitting, searching, replacing and joining strings, with their
  spec functions and lemmas.
- `csn` — the definitions of a CSN document and how they are read from its
  JSON text (`Definitions::from_str`, `ElementKind::from_json`).
- `cqn` — SELECT and INSERT queries, their completion from the definitions
  (`Crunch`) and their SQL text (`SQL`).
- `url_to_cqn` — reading a request (method, path, query, body) into a query.
- `add_routes`, `add_routes::deserialize_path` — the routes the service
  answers, the answers to refused requests, and resolving a path such as
  `entity1(key1=1)` against known entities.
- `entity`, `get_entities`, `get_entities::parse_csn` — typed entities and
  an element notation with defaults for left-out members.

`app/main.rs` is the HTTP server around the library (tide, async-std, sqlx):
it reads `csn.json`, connects to the database named by `DATABASE_URL` and
serves each service under `/<service>/*`.

`tests/` holds the tests, run against the compiled library.
