# perp_arb

A cross-exchange arbitrage engine for perpetual futures on Binance USDⓈ-M and Bybit linear, with an
admin server. The library under `src/` holds every rule and every decision and is verified with
Verus; `app/` is the ordinary Rust around it that talks to files, sockets, threads and clocks.

## Modules

- `config`: the configuration. `validate` holds strategies and accounts to the rules, `crypto` seals
  secrets, `persist` answers requests with the next store, `planner` groups strategies into shards and
  connections.
- `engine`: the work. `book` and `book::codec` decode depth messages and keep local order books,
  `strategy` turns spreads into plans, `shard` runs the strategies of a shard, `telemetry` gathers
  their reports, `runtime` decides what a reload starts and where market events go.
- `gateway`: the venues. `market_ws` synchronises depth and writes what is sent, `trade_exec` brings
  orders into the shape that market rules ask for.
- `market_rules`: the rules of markets, as the venues list them and as they are kept.
- `app`, `cli`, `web_ui`: settings, the command line and the page.
- `text`, `num`, `order`, `json`, `clock`, `error`: what the others are built on.

The modules whose names end in `_laws` hold proof functions about several functions at once: what
every plan, every store, every book and every synchronisation has in common.

## Numbers

Prices, quantities and notionals are IEEE 754 bit patterns (`num::Binary64`). Ordering them is
integer work and is proved. Arithmetic on them is supplied by the caller as a function, and contracts
say what is returned for every such function; `app/numbers.rs` supplies the machine's.

## The edges

A `requires` leaves out the inputs on which the work cannot be done: a count or a sequence number that
would overflow, a list that would not fit in memory, a nonce of another length, a key that would be
cut inside a character when it is masked. Beside such a function stands one that tells whether an
input is among them (`can_follow`, `can_take`, `can_receive`, `is_maskable` and the `try_` forms of
the store's requests).

A price that is not a number is an input like any other. A change that waits, is stale or shows a gap
is refused without a look at its prices, and an applied message puts its levels where comparing them
leads. That the sides of a book stay in order is promised as long as prices are numbers.
