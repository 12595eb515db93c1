# okf

A verified SDK for Open Knowledge Format (OKF) bundles and the OKF Library runtime, written in
Verus.

- `src/` is the library, its functions verified against their contracts: bundle model and
  Markdown/front-matter parsing, the validator, the knowledge graph (reachability and shortest
  paths), lexical retrieval, the Library domain model (identifiers, `okf://` URIs, registry and
  mount table, catalogs, queries), package manifests, the `okf-provider/1` protocol, provider
  composition, and the decisions of the process, HTTP, S3, SQLite, agent and vector providers.
- `app/` holds what the library leaves to its host: reading directories and manifest files,
  the JSON and YAML wire forms, spawning provider processes, network and database calls, and the
  floating-point part of vector retrieval.
- A few small trusted items in `src/` stand at the edge to std and to the outside crates
  (character classes and lower-casing, YAML and JSON parsing, the HTTP client, durations);
  each states in its doc comment what its contract claims of the call it makes, and nothing
  about them is proved. The provider and source-resolver traits state what every
  implementation must meet: its declared capabilities, and for each operation a relation
  (`reads`, `lists`, `catalogs`, `answers`, `refreshes`, `resolves`) that its answers keep.
  The registry, the provider stack and the composite provider state their answers through the
  relation of the provider they forward to. Implementations written outside `src/` are not
  checked; they keep the default relation, which allows every answer.
- `tests/` exercises the library on concrete values.
