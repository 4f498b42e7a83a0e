# cachecannon

A load generator for caches that speak RESP, Memcache or a bare PING protocol,
written with [Verus](https://github.com/verus-lang/verus).

- `src/` is the library. It holds everything that decides or computes: the
  configuration and its rules, key generation and routing, what a connection
  fires next and what a reply leads to, deadlines, rate limiting, the phases of
  a run, the saturation search, the append stream, cluster topology, the metrics
  exposition, the vector search benchmark and the dashboards. Its functions carry
  contracts, but for a few calls into outside crates of whose effect nothing can
  be said, and the public proof functions state what holds across functions.
- `app/` is the program around it: files, sockets, threads and the terminal. It
  performs what the library decides and hands back what came of it.
- `tests/` runs the library on concrete values.

Floating point numbers appear in the library as `double::Double`, a value by its
64 bits whose arithmetic is defined over the integers.

Outside crates are called behind a few functions whose contracts are believed,
each with a comment that says what is claimed of the crate: `ketama` and
`resp_proto` for routing and cluster replies, `ratelimit` for token buckets,
`rand` and `rand_xoshiro` for draws and the value pool, `rustls` for the roots of
a CA file.
