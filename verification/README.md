# kmq

`kmq` queries the hourly KOSPI, KOSDAQ and USD/KRW quotes that a small worker collects, and
reports trends, exports and the health of the collection.

- `src/` is the verified library: the KST calendar and clock (`calendar`, `clock`), the
  collection schedule and its slots (`schedule`), symbols (`symbol`), deltas against the
  previous sample (`deltas`), the cache's bookkeeping of fully held ranges (`ranges`), the
  health assessment (`status`), table layout (`table`), request text (`config`) and the
  resolution of command options (`commands`). Calls into chrono and std stand behind small
  trusted functions whose contracts say what the calls return.
- `app/` is the command-line program around it: argument parsing, HTTP, the SQLite cache,
  configuration files, floating-point trend and export formatting, and printing.
- `tests/` exercises the library with the real chrono underneath.
