# zk_deap_harness

The benchmark harness of zk-DEAP, with its decision-making and text handling
verified in Verus.

- `src/` is the verified library:
  - `suite` — the test schedule (partial verification, then proof generation
    and verification per proof system, then the network-scaled operations over
    the sweep), the announced total, and laws on both;
  - `metrics` — the record of one measured run, proof-component sizes, the
    warm-up rule and the success/failure tally;
  - `procfs` — reading RSS, peak RSS, CPU times and I/O counters out of the
    text of `/proc/<pid>/{status,stat,io}`;
  - `overrides` — the comma-separated `ZKDEAP_SIZES` / `ZKDEAP_RATIOS`
    overrides;
  - `fixture` — fixture-server URLs and Base64 decoding of its lists;
  - `peers` — peer identifiers, the collection and cache of peers' Ed25519
    verifying keys (each tied to the key decoded from its published bytes),
    and the device signing key;
  - `text` — trimming, splitting, lines, whitespace tokens and decimal
    rendering and parsing, each specified as the standard library behaves.
- `app/` is the program: command line, HTTP, file and `/proc` reads, timing,
  JSONL output, and the timed calls into the `zk_deap` protocol library.
- `tests/` runs the library on concrete values.
