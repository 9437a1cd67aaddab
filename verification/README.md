# mjae

Micro-joule attribution: power telemetry in, signed per-process energy out.

- `src/` is the library, verified with Verus. Every contract is stated over plain
  values: energy arithmetic over integers, the registry as a map from processes
  to micro-joules, JSON documents as trees, seals as signed payloads.
- `app/` is the daemon's side in ordinary Rust: it reads files, NVML, IOKit and
  IOReport, shares the registry between tasks, runs the sampling loop on tokio,
  and carries the records over the wire with serde.
- `tests/` runs the library with the real outside crates.

| Module | What it holds |
| --- | --- |
| `attribution` | power, time and energy, without overflow |
| `registry` | cumulative energy per process, in a `crossbeam_skiplist::SkipMap` |
| `provider` | snapshots, attributions, the provider trait, the sampling step |
| `providers` | Linux (fences, RAPL), Windows (NVML), Apple Silicon (channels) |
| `hardware` | the identity of the machine |
| `json` | canonical JSON over `serde_json` |
| `signing` | Ed25519 over `ed25519_dalek` |
| `signer`, `manifest` | the seal of a window, the record of one process |
| `clock`, `error`, `sorting`, `text` | what the others share |
