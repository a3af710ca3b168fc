# polymarket_bot

The decision logic of a two-leg momentum trader for Polymarket's five-minute
BTC and ETH markets, verified with Verus, and the program around it.

## Layout

- `src/` is the library. Every function in it has a contract that Verus proves.
  - `engine.rs`: what follows from an order book, a price, a new market, the
    result of an order or a new day; what the portfolio shows.
  - `strategy/`: when to enter (`signal.rs`), the state machine of a position
    (`leg_manager.rs`), and why a lock pays (`profit.rs`).
  - `indicators/`: moves since the open, momentum, book imbalance.
  - `execution/`: risk limits, the record of trades, the submission of an order
    step by step, the redemption of resolved markets.
  - `feeds/`: what the sources send, what is subscribed to, and how a socket is
    kept open.
  - `market_discovery/`: names and boundaries of markets, and the choice of the
    two tokens of a market.
  - `config.rs`: the settings.
  - `number/`: IEEE 754 doubles on bit patterns, with contracts over exact
    values; reading and writing them in decimal; bounds on rounding errors.
  - `utils/`: text, time, a map by name, a rolling window.
- `app/` is the program: environment variables, sockets, HTTP, files, and the
  clients that sign and submit. It carries out what the library decides and
  hands back what came of it.
- `tests/` runs the library on concrete values.

## What is proved

Beside the contract of each function, a few laws hold over several of them, for
example:

- a second leg filled at its limit or below always leaves a positive profit,
  rounding included (`strategy::profit::lemma_lock_pays`);
- a position moves through its states in order, keeps the signal it was entered
  on, and is never entered twice (`strategy::leg_manager`);
- a first leg is ordered only on a due signal that the risk limits allow
  (`engine::lemma_orders_are_allowed`);
- once the day's losses reach the limit no first leg is ordered any more
  (`engine::lemma_daily_loss_stops_trading`), and a cooldown ends
  (`execution::risk::lemma_cooldown_ends`);
- a position takes up a place among the open ones while its market holds it
  (`engine::lemma_places_follow_positions`);
- a failed sign-in is tried once more, and an order is posted a second time at
  most, and only after signing in again
  (`execution::order_builder::lemma_one_retry`);
- on every connection the first thing that is sent is the subscription to all
  topics (`feeds::session::lemma_subscribes_first`);
- the book imbalance lies between minus one and one
  (`indicators::book_imbalance::lemma_imbalance_range`);
- a condition waits for redemption at most once, and for ten attempts at most
  (`execution::redeemer`).

## What is trusted

The machine's clock and the calendar (chrono), JSON strings (serde_json), the
text forms of keys, addresses and token numbers (alloy), truncation of decimals
(rust_decimal), and letter case (std) are called through small functions whose
contracts are taken as given. Each of them says in its comment what it takes for
granted.
