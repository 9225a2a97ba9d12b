# captrack

Capacity telemetry for Rust collections, and the `captrack-pgo` tool that
turns recorded capacities into better `with_capacity` hints.  The library
is written in Verus: its logic carries `requires`/`ensures` contracts that
the verifier proves.

## Layout

- `src/` — the verified library.
  - Telemetry: `registry` (per-call-site creation counts and samples),
    `reservoir` (bounded uniform sample), `ctor` (traced constructors and
    `cap_inspect_at` for the standard collections), `collections` (the
    same for `indexmap`, `dashmap`, `scc` and `bytes`), `dump` (the sorted
    capacity dump), `stats` (percentiles and mean), `autodump`.
  - Profiles: `profile`, `dhat` (DHAT backtraces to call sites), `merge`
    (merging dumps with a deterministic reservoir).
  - Analysis and rules: `analyze`, `rules`, `samples`, `plan`, `report`,
    `options`, `wide` (exact sums of squares for the distribution
    classifier).
  - Source patching: `scan` (call-site spans), `apply`/`undo` (byte splices
    and their exact reversal; `roundtrip` proves that undo restores the
    file), `lint_apply`, `lint_instrument`, `staleness`, `wire`,
    `workspace`, `measure` (the measure cycle as a state machine).
  - Support: `text`, `digest`, `paths`, `order`, `model`.
- `tests/` — tests of the library on concrete values.
- `app/` — the command-line tool: argument parsing, file and process I/O
  (including applying a plan and undoing it, file by file), JSON, and
  parsing Rust sources with `syn`; it hands plain values to the
  library and acts on what comes back.

## Laws proved

Among others: undoing an apply restores every patched file byte for byte
(per file, and over a whole plan as `undo` groups its manifest by file,
for spans that are in bounds, on character boundaries, disjoint and at
distinct starts); `unwire` restores what `wire` changed, and wiring twice
changes nothing; a fresh staleness snapshot passes its own check; undo of a
lint run accepts what the run recorded; a wired measure run always cleans
up before it ends; a reservoir keeps `min(seen, cap)` items, all offered;
a merge is unique and keeps, per site, a sub-multiset of its samples;
classification ignores sample order; rounding twice changes nothing.
