# trader_bot

Three bots that trade euros, dollars, yen and yuan with three currency markets.

- `src/` is the verified library, checked by Verus. It holds what the bots decide
  from the order of prices and quantities, not from their values: which market to
  buy from or sell to (`common/selection.rs`), the names under which markets are
  reported (`common/names.rs`), the lock bookkeeping and the state machine of the
  trader in `ab_traders/`, the clock and strategy stages of the trader in
  `sa_traders/` (which also keeps each round's currency and markets), and the
  ranking of currencies by spread, the calendar and the single-market selling loop
  of the traders in `tr_traders/`. Prices and quantities reach the library as integer keys
  that compare as the floating-point values they stand for.
- `app/` is the program around it: it talks to the markets and to the visualizer,
  computes with floating-point amounts, reads the configuration file, and runs the
  trading loops, asking the library at each step what to do next.
- `tests/` runs the library on concrete values.
