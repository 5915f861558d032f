# chronos

A deterministic simulation and testing library for distributed systems,
written in Verus: its data structures, analyses and decision logic carry
`requires`/`ensures` contracts that Verus proves.

## Layout

- `src/` — the verified library.
  - `time/` — simulated instants, durations and the timer wheel.
  - `scheduler/` — FIFO, random, PCT, DFS and context-bounded scheduling.
  - `detection/` — wait-graph deadlock detection, data races, livelock.
  - `cluster/` — nodes, message handling and happens-before tracking.
  - `network/` — network faults, links and messages.
  - `recording/` — the recording format and its framing.
  - `viz/` — timelines, sequence diagrams and HTML reports.
  - `cli/` — the logic behind the commands: analysis, replay, exploration,
    runs, fault injection and JUnit output.
  - `util/` — shared building blocks (text, numbers, maps, generators).
- `tests/` — tests of the library, run against the compiled crate.
- `app/` — the command-line program: argument parsing, files, processes,
  threads and printing, around the library.

Calls into outside crates (`rand`, `petgraph`, `serde_json`, parts of std)
sit behind small trusted wrappers whose doc comments say what they claim.
Laws that span several functions are public proof functions named `law_*`.
