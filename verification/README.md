# rigstats

The verified core of RIGStats, a hardware dashboard for Windows: the rules
behind its session recording, debug log, sensor readings, GPU diagnostics,
alerts, monitor placement and update check, each with a contract proved by
Verus.

## Layout

- `src/` — the library. Every function is verified against its `requires` /
  `ensures`, except the wrappers around single std calls, whose
  contracts are trusted: `push_char` (`String::push`), `time_now`
  (`SystemTime::now`), `since_epoch` (`SystemTime::duration_since`),
  `duration_secs` and `duration_subsec_millis` (`Duration`), `join_path`
  (`Path::join`) and `to_lowercase` (`str::to_lowercase`). Laws that relate
  several functions are public proof functions.
  - `sessions`, `session_names`, `csv`, `paths` — the session index (pin,
    rename, end, delete, retention, newest-first order), session ids and
    names, CSV rows, and file locations.
  - `debug`, `calendar`, `numfmt`, `text`, `words` — log lines and reading
    the log back, civil dates of timestamps, number and text formatting.
  - `sensor_tree` — which LibreHardwareMonitor sensor feeds each GPU, CPU,
    memory, motherboard and drive metric, the processes, drives and
    network interface the dashboard shows.
  - `gpu_engine`, `gpu_usage`, `diagnostics`, `sensors` — PDH instance
    names, per-process GPU usage, the diagnostics dump and reading it back,
    GPU selection and
    disk temperatures.
  - `alerts`, `thresholds`, `geometry`, `layout`, `panels`, `brand`,
    `spark`, `update` — alert decisions, thresholds, monitor selection,
    profiles, panel text, logos, sparkline windows and the update check.
- `tests/` — tests of the library on concrete values.
- `app/` — the command-line program around the library: file I/O for the
  session index and CSV files, the debug log file with the local time of
  each line (chrono), reading LibreHardwareMonitor's sensor tree, and the
  HTTPS update check.

Readings are floating point in the application; where the library decides
on them it takes whole numbers that decide the same way (see the module
documentation of `alerts`, `gpu_usage` and `sensors`).
