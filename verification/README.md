# rust-telemetry (verified core)

A Verus library for the Rust companion of the Arduino serial-telemetry
sketch, with the programs around it.

- `src/` — the verified library:
  - `text.rs`: decimal and hexadecimal digits, right alignment and
    trimming of Unicode white space, each with an exact specification;
  - `telemetry.rs`: the serial stream settings, the decision taken after
    each read of the port, and the text the tools print about readings
    and ports;
  - `history.rs`: the bounded window of recent readings served by the
    dashboard, with the laws that it keeps exactly the most recent ones;
  - `sinks.rs`: when a CSV file needs its header row.
- `tests/` — tests of the library on concrete values.
- `app/` — the programs: serial I/O, JSON decoding, CSV and SQLite
  storage, the command lines and the HTTP dashboard. The collector runs as
  `rust-telemetry [flags]`, the dashboard as `rust-telemetry dashboard [flags]`
  (or through a copy or link of the program named `dashboard`).
