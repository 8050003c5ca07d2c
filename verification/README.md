# tsink-server

The server side of a time series database, as far as it decides things, in verified Rust (Verus).

- `src/metadata_store`: metric metadata by tenant and metric family. Bounded in entries and bytes,
  written durably as one JSON document, queried within a query budget.
- `src/managed_control_plane`: hosted deployments and tenants, the requests that change them, their
  audit trail, and what a tenant's requests are let through for.
- `src/remote_read`: Prometheus remote reads. A request is bounded from its bytes alone before it is
  decoded; results are framed, bounded and compressed; a session decides on each step of an answer,
  and another on each step of a query that goes to a cluster.
- `src/rules`: recording and alerting rules. Configuration, durable state within finite limits,
  scheduling, evaluation and status.

What a function returns or changes stands in its `ensures`. Laws across calls stand in the `laws`
modules, in `metadata_store::accounts` (what a store holds over its whole life and after a restart),
in `rules::runs` (no interval is evaluated twice), in `rules::restart` (what was written is what is
loaded), in `rules::reserved` (what is reserved for a status suffices for it), and beside the
functions that they are about.

The library does no I/O. Files, the clock, the query budget, the storage and the cluster are handed
in as values or closures, and contracts say what is asked of them, when they are left alone, and
what comes of each answer: a query that its budget stops is answered with the objection, and asks for
nothing more.
Measured byte counts include the spare room of texts and lists, which is the allocator's choice:
contracts state the least they can be and what follows from whatever they are.

`app/` surrounds the library with files, JSON, protobuf and the loops that perform its steps.
`tests/` runs the library.
