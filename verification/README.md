# dtr

Coordination, checkpoint and read-path rules of a distributed training runtime,
written in Verus: every rule carries a contract that the verifier proves.

- `src/` is the library. It holds no I/O. Clocks, identifiers and storage answers
  come in as values; what to do next goes out as values.
  - `lease`, `membership`, `barrier`, `coordinator`: the control plane
  - `layout`, `chunker`, `manifest`, `commit`, `recover`, `checkpoint`:
    crash-safe checkpoints
  - `cache`, `io_engine`: the cached, single-flight read path
  - `storage`, `config`, `cli`, `metrics`: rules of the server around them
  - `state`, `runtime_svc`, `checkpoint_svc`, `data_svc`, `status`: the requests
  - `*_laws`, and the proof functions at the end of other modules: what holds
    across operations
  - `outside`: everything that is taken from outside crates without proof
- `tests/` runs the library on concrete values.
- `app/` is the server: configuration files, storage backends, metrics, tasks.
