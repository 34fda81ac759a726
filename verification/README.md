# chrono_data_manager

Data handling for the GNSS chronometric experiments: where the data files
live, which GPS datasets make up a year, how the observation files of the
various sources (SPARC galaxy rotation curves and catalogue, IPTA and NANOGrav
pulsar timing, Raman and Einstein-elevator interferometry, OMNI space weather,
derived GM tables) are read line by line, and how the satellite-fleet epochs are
ordered, filtered, windowed and combined into five-clock measurements.

The library in `src/` is written in Verus: every function carries a contract
over a mathematical model of its inputs and outputs, and the properties that
relate several functions are stated and proved as `law_*` proof functions.
Numeric fields of the files are handed out as text; turning them into
floating-point numbers, and all floating-point computation, happens in `app/`,
which also does the file-system access. Calendar computations go through
`chrono`, behind a few wrappers whose contracts state what `chrono` documents.

Layout:

- `src/text.rs` — characters, words, trimming, splitting, lines, integer parsing.
- `src/datasets.rs` — GPS dataset names and ids per year, excluded datasets.
- `src/paths.rs`, `src/data_manager.rs` — the data directory tree and its overrides.
- `src/calendar.rs` — Gregorian dates, UNIX timestamps, date-time text.
- `src/anomaly_filter.rs` — anomaly windows and sample-month filtering of epochs.
- `src/order.rs` — lexicographic and stable orders.
- `src/sparc.rs`, `src/pulsar.rs`, `src/interferometry.rs`, `src/omni.rs`,
  `src/mass_data.rs` — the line formats of the data files.
- `src/observatory.rs`, `src/windowing.rs` — the fleet, 5T measurements, the
  incident catalogue and the anomaly-scan windows.
- `src/records.rs`, `src/analysis_types.rs` — result records.
- `app/` — file loaders and the floating-point analyses.
- `tests/` — tests of the library on concrete values.
