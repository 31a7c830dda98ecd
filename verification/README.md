# perfo

A Linux performance monitor whose parsing and bookkeeping are proved with
Verus.

- `src/` is the verified library:
  - `text`: lines, whitespace-separated words, trimming, prefixes and
    unsigned numbers, each equal to a spec of what the standard library
    does;
  - `table`: a name-keyed map kept in first-insertion order;
  - `disk`: the `/proc/diskstats` parser, counter deltas, which file
    systems are shown and under which device name;
  - `net`: the `/proc/net/dev`, `/proc/net/snmp` and socket table parsers,
    link state, per-process socket counts and the monitor state between
    refreshes;
  - `gpu`: DRM card and vendor rules, PMU event descriptions, perf
    attributes and counter deltas;
  - `rank`: busiest-first and by-name ordering;
  - `help`: the help pages and their styling rules.
- `app/` reads the files, times the refreshes, computes the floating-point
  rates, makes the perf syscalls and draws with ratatui.
- `tests/` runs the library on concrete inputs.
