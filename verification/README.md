# divar-scraper

Fetches Divar listings into an append-only raw store plus CSV batches that can be put
together. The logic is a library verified with Verus; the program around it does the I/O.

## Layout

| Place | Holds |
|---|---|
| `src/text.rs`, `src/keymap.rs`, `src/seqs.rs` | texts, ordered maps and sets of texts, steps along sequences |
| `src/json.rs`, `src/codec.rs` | JSON values and their text, by way of `serde_json` |
| `src/search.rs`, `src/probe.rs`, `src/feed.rs` | requests to the search feed, finding out what it accepts, walking its pages, the budget of a run |
| `src/throttle.rs`, `src/clock.rs`, `src/fetch.rs` | the pace of requests, waiting, what follows a reply, the counts of a run and its sweeps |
| `src/store.rs`, `src/records.rs`, `src/failures.rs` | stores with one record per line, their records, the queue of failed listings |
| `src/harvest.rs`, `src/flatten.rs`, `src/export.rs` | reading payloads, rows, tables in batches under one header |
| `src/audit.rs`, `src/observe.rs`, `src/cities.rs` | whether what was found is what was asked for, visiting listings again, city numbers |
| `app/` | arguments, files, network |
| `tests/` | tests of the library |

Proof functions whose names start with `law_` state what holds across functions: that a
later run keeps the failures of an earlier one, that a pilot is judged alone, that batches
put together are the whole table, and the like.

## Output

| File | Role |
|---|---|
| `raw.jsonl` | Append-only. The full payload per listing. Source of truth. |
| `failures.jsonl` | Outstanding permanent failures. Rewritten each run. |
| `observations.jsonl` | One dated line per visit to a known listing. |
| `batch_NNNNN.csv` | Rebuilt from `raw.jsonl` every run, identical header in every file. |

## What is trusted

Verus believes, without proof, the contracts of the functions that call `serde_json` (in
`src/json.rs` and `src/codec.rs`), the clock of std (`src/clock.rs`), `str::trim` and
`String::push` (`src/text.rs`), `str::from_utf8` (`src/store.rs`) and std's `Debug` for
lists of texts (`src/search.rs`).
Shares of listings are compared with thresholds in floating point, which is done in `app/`.
