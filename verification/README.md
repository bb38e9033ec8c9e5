# smp_tee_runtime

A minimal runtime for federated-learning aggregation inside a trusted
execution environment, with its bookkeeping verified by Verus.

- `src/tee_interface/traits.rs`: request and error types, and the
  `TeeGuard` protocol (initialization, allocation, writes) stated over an
  abstract model: a ready flag and a map from handles to bytes.
- `src/tee_interface/in_memory.rs`: `InMemoryTee`, an environment that keeps
  its allocations in process memory; the checks and input gathering that
  precede a computation (`prepare_computation`) and the mapping of an
  aggregation outcome to an answer (`complete_computation`).
- `src/tee_interface/hasher.rs`: `FastHasher` and `BuildFastHasher`.
- `src/data_pipeline/xdp_ingress.rs`: cutting a receive ring into packets
  and moving a packet into an environment.
- `src/aggregation/shape.rs`: the batch shapes that federated averaging and
  Multi-Krum accept.
- `app/`: the command-line program and everything that computes on `f32`
  values (decoding payloads, the aggregation rules, encoding results).
