# rafka

A partitioned message broker whose rules are verified with Verus.

- `src/` is the verified library: message placement and storage, the
  broker's request handling, consumer groups, leader election and log
  commitment, failure detection, delivery tracking, recovery, replication,
  the distributed hash table, partition transfer and rebalancing, caches,
  and the byte formats on the wire. Every public function states what it
  does in its contract, and the laws that relate several functions are
  proof functions beside them.
- The calls into outside crates and into the parts of std that vstd does
  not specify stand behind small wrappers whose contracts say no more than
  the called code promises. `platform.rs` holds the shared ones (clock,
  UUIDs, random numbers, `bytes`, hashing, lossy text); each module that
  keeps a `DashMap` (or the thread pool's `ArrayQueue`) has its own
  wrappers, next to the name of what the map holds.
- `tests/` exercises the library on concrete values.
- `app/` is the unverified shell: sockets, timers, the process
  environment, serialization with serde and bincode, and the heuristics
  computed in floating point.
