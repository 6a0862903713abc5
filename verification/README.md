# mt_comms

Latency benchmarks for passing messages between threads with several channel
crates (tokio, crossbeam-channel, kanal, glommio).

- `src/` is the verified library: the shared `BroadcastCounter`, the
  producer and consumer decisions as state machines (`producer`, `consumer`),
  and the number of consumer threads to start (`fanout`).
- `app/` is the benchmark program: it creates the channels, threads and
  executors, carries out what the state machines ask for, and times each run.
- `tests/` runs the library on concrete plans.
