# Cachebox

Cachebox is a small in-memory cache server: raw bytes behind byte keys, with
TTLs, stale reads, tags, leases against cache stampedes, a bounded memory cap,
and a compact binary protocol over TCP or Unix sockets. The library is written
in Verus: every operation carries a contract, and the laws the cache keeps are
proved.

## Layout

`src/` is the verified library.

- `engine` — one cache shard: entries, leases, expiry, reclamation within a
  budget, least-recently-used eviction under the memory cap; `engine_laws`
  states what it promises across operations (read after write and what a
  later read gives, idempotent delete, exact tag invalidation, one lease at
  a time, also across a read that removes the expired value, no read or
  reclaim ends a lease, a completed lease is spent, reclaiming takes only
  what a read finds expired, entries only age); `accounting` proves that the memory and cost totals are
  the sums over the stored entries; the memory counter's exactness is part
  of the engine's invariant.
- `sharded` — the engine split over shards by a hash of the id, with a tag
  directory; the shard count leaves each shard room for a value of the
  largest size. `directory` proves that the directory always covers
  the shards, so invalidating a tag reaches every entry that carries it.
- `protocol`, `encode`, `decode`, `bytes`, `names` — the binary frame format;
  `codec_laws` proves that decoding gives back what encoding wrote.
- `native`, `frames` — answering request frames against the engine, metrics,
  framing of the byte stream and batching of responses. What each request
  adds to the metrics counters (`native_counts`) is part of every answering
  function's contract.
- `api`, `operation`, `text`, `seqs` — the HTTP routes, headers and JSON
  bodies of cache operations.
- `config` — command-line options, their errors and the help text.
- `client` — the native client's request ids, response checks and the
  matching of pipelined responses to their requests.
- `json`, `ai` — canonical JSON and deterministic cache keys for AI prompts.
- `bench` — percentiles and totals of latency samples.

`app/` is the server binary: argument handling, the admin HTTP server, the
socket listeners and the expiration worker, all deciding through the library;
`app/client.rs` holds the socket side of the native client.

`tests/` holds the tests.
