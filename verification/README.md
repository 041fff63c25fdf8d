# polybot

A trading bot for the five-minute bitcoin Up/Down markets of Polymarket. Its
decisions are a library verified with Verus; what talks to the outside world is
an ordinary program around it.

## Strategies

`STRATEGY` chooses one of three:

| Value | What it trades on |
|-------|-------------------|
| `venue_swing` (default) | Swings of Binance and of Coinbase, each against its own price at the open, merged into one list. Peaks buy DOWN, troughs buy UP, pairs are completed while they earn, the rest is sold 25 seconds before the close. The prices of the oracle decide who wins and nothing else. |
| `gap_swing` | The same rules on the swings of Binance against the opening price of the oracle; it waits for that price. |
| `pairing` | Impulses of both venues: entry on a pullback, exit by completing the pair. |

A dry run is the default. It fills at the ask that is quoted 70 milliseconds
after a signal (`venue_swing`) or 250 (the others). `LIVE_TRADING=true` places
limit orders that are signed ahead, buys at 99 cents and sales at one, so that
they cross the book; it needs `POLYMARKET_PRIVATE_KEY`; `POLYMARKET_FUNDER`,
`POLYMARKET_SIGNATURE_TYPE`, the three `POLYMARKET_API_...` variables and
`ORDER_SHARES` are optional.

## Layout

```
src/               the verified library
  strategy/        the three strategies, their simulation, and their laws
    swings.rs        zigzag, major swings, tradable swings
    sim.rs           trading of one window; sim_laws.rs what it keeps
    causality.rs     no decision reads ahead
    gap_swing.rs, venue_swing.rs, venue_engine.rs, intents.rs, window.rs
    detector.rs, gates.rs, pairing.rs, pairing_replay.rs
  bot/             the trading loop as transitions: state.rs says what they are,
                   mod.rs does them, laws.rs what follows
  feeds/           what the messages of the feeds mean
  clob.rs          orders: limits, sizes, signing data, what is signed ahead
  gamma.rs         markets and opening prices
  subscriptions.rs which windows are subscribed to
  poly_book.rs, pnl.rs, fifo.rs, dry_fills.rs, replay.rs, config.rs
  json.rs, decimal.rs, text.rs, calendar.rs, units.rs
tests/             tests of the library
app/               the program: sockets, HTTP, signing, the loop, the replays
```

## Numbers

There is no floating point in the library. Prices, shares, seconds and
probabilities are billionths in an `i64`; cash, a product of two of them, is an
`i128` (`src/units.rs`). What is finer than a billionth is dropped. The normal
distribution that `pairing` judges entries with is handed in as a function; every
contract holds for any function that gives probabilities.

## What is trusted

Each call into another crate stands behind a function whose contract is believed
and whose doc comment says what is claimed: JSON (`json.rs`), lower case
(`gamma.rs`), decimals, UUIDs, addresses, keys and token numbers (`clob.rs`),
and `String::push` (`text.rs`).

## Replays

The program plays recorded windows, one JSON object to a line:

```
polybot dry_replay windows.jsonl       # gap_swing, sums
polybot venue_replay windows.jsonl     # venue_swing, against expectedPnl
polybot compare_hist windows.jsonl     # gap_swing, every trade
polybot pairing_replay window.json     # pairing, one window
```
