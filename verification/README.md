# rcd_server

Gateway between serial field devices and network clients, with its core
logic verified by Verus.

- `src/` — the verified library:
  - `protocol` — response frames, checksums, hex strings, decoding of
    status blocks into readings;
  - `csv_parser`, `numtext` — device files: header block, bit positions,
    KKS prefixes, std-compatible number parsing and trimming;
  - `config` — the gateway's settings: its primary/standby role and the
    serial line parameters;
  - `model` — commands, readings, the state of ports and devices;
  - `serial` — the per-port acquisition state: publishing decisions, frame
    cutting, fault counters, primary/standby switching, polling;
  - `calc_engine` — formula tokenizer and parser, the exact part of
    evaluation, rule compilation and evaluation order;
  - `nesting` — review of rule files: dependency chains, cycles, grading
    and suggestions;
  - `server`, `file_scanner` — what the network front ends publish and how
    commands are routed; file selection by pattern.
- `app/` — the program around it: configuration files, serial and network
  I/O, threads, and the floating-point part of formula evaluation.
- `tests/` — tests of the library.
