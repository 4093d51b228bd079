# drs_rt

UDP round-trip time measurement between a master node and an echo node.

- `src/` — the verified library (Verus):
  - `types` — `Status` and `Sample`;
  - `wire` — the little-endian sequence-number payload and the echo's reflection;
  - `cycle` — the reply wait of one measurement cycle;
  - `session` — the warm-up and measurement state machine that fills the sample buffer;
  - `csv` — the CSV encoding (`timestamp_us,rtt_us,status`, one row per cycle);
  - `stats` — lost cycles and min/mean/max RTT;
  - `affinity` — pinning the measurement thread to a CPU core.
- `app/` — the `drs-rt` binary: command line, logging, sockets, clocks and files.
- `tests/` — tests of the library.
