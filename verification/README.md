# realtime_resource_tracker_cli

A terminal tracker of one process's CPU and memory use, with an interactive
picker to choose the process.

- `src/` is the verified library:
  - `metrics.rs`: the bounded time series that keeps the latest samples;
  - `sampler.rs`: process observations and the sampler trait;
  - `picker.rs`: searching (case-insensitive, by name, command line or pid)
    and stable ordering of the process list;
  - `text.rs`: substring search, decimal rendering, truncation to a byte budget;
  - `app.rs`: the state machine of the picker and the monitoring view, and
    the laws it keeps;
  - `clock.rs`: reading the monotonic clock.
- `app/` is the terminal program: argument parsing, the `sysinfo` sampler,
  the event loop and the drawing of lists and charts.
- `tests/` exercise the library.
