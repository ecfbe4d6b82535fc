# pulse

The core of a strategy backtester as a verified library: a strategy language with its
validation, compilation, mutation, migration and rendering; the records, hashes and
statistics of backtest runs; walk-forward verdicts; candle series; coaching sessions;
and the ledger of model calls.

Every public function in `src/` has a contract, and Verus proves it. Not proved are the
contracts of the wrappers around functions of `rust_decimal`, `serde_json`, `sha2` and the
standard library, marked `#[verifier::external_body]`, and of the one standard function
with an `assume_specification`: Verus believes them, every proof that uses them rests on
them, and the comment above each says what is claimed. The impls of `PartialEq` and
`PartialOrd` have no clauses of their own; what they mean is stated beside them. Functions
named `law_...` are proofs of what holds between several functions, for example that an
encoding tells results apart, that a mutation changes one leaf and can be undone, that a
swept leaf gets one error, that the slices by all folds make up the slice by the span, or
that a message closes its fence once.

The identity of the engine build, its digest and its target triple, is handed to the
library: `app/engine.rs` reads it while the program is compiled. That different results
have different hashes is proved of the bytes that are hashed, not of SHA-256 itself.

- `src/decimal.rs` decimal numbers; the arithmetic is that of `rust_decimal`
- `src/text.rs`, `src/numerals.rs` texts and the texts of numbers
- `src/canonical.rs` the byte encoding behind the hashes, and SHA-256
- `src/domain/dsl/` the strategy language
- `src/domain/backtest/` runs, results, statistics, walk-forward
- `src/domain/coaching/` sessions, the context shown to the coach, the fence
- `src/domain/` series, strategies, model calls, errors
- `app/` JSON forms, floating-point ratios, the build's identity, ports to stores and providers
- `tests/` tests
- `extras/engine_fingerprint.py` prints the identity of a build for its environment

A function whose name begins with `checked_` returns `None` where a result does not fit a
number. Most have a plain twin, which asks that it fits.
