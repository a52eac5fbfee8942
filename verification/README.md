# nodedb_core

The verified core of a distributed database: what its nodes decide, without the
files, sockets, threads and clocks around it.

- `src/raft`: a replicated log with elections, snapshots and membership changes,
  and, under `safety`, what holds of a whole group of nodes.
- `src/cluster`: many groups on one node, their routing, and the migration of a
  shard from one node to another.
- `src/wal`: the write-ahead log, its double-write ring, and replay.
- `src/control`: proposals, what was applied, and who waits for it.
- `src/crdt`, `src/graph`: document history and graph algorithm statements.
- `src/client`, `src/bridge`: a connection pool and a wake-up counter.

Each executable function states in its contract what it returns and changes.
The laws that relate several functions are the public proof functions whose names
begin with `law_`.

`app` holds the files, sockets, threads and clocks. Calls into other crates from
`src` stand behind functions marked `external_body`, whose comments say what is
believed of the call.
