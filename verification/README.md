# EIR — entity identifier resolver, verified

A library for resolving names to entities: entities carry aliases, tags,
attributes, relationships and sources; names are interned in registries;
search runs exact, prefix, fuzzy, token and tag stages plus attribute and
relationship filters, and ranks what it finds. Databases are kept in DEIR
files: segments that hold snapshots, and a write-ahead log.

Layout:

- `src/` — the library, written in Verus. Each function carries a contract
  and is verified; the laws that relate several functions (record round
  trips, replay of the log, reading back the latest snapshot, boolean
  semantics of filters, finding a segment by its name) are proof functions
  next to the code they are about.
- `app/` — the parts that touch the outside world: files and directories,
  the byte encoding of stored records, error messages, scores as fractions
  and human-readable sizes. It performs the input/output the library plans.
- `tests/` — tests of the library on concrete values.
