# DEX Aggregator

Finds ways to swap tokens on the NEAR blockchain and builds the transactions
that carry a swap out. The library in `src/` is verified with Verus; the
services around it are in `app/`.

## The library

- `router`: checks a request, ranks the routes that exchanges offer, and
  finishes them: a known output is brought to where it is wanted, and
  neighbouring transactions to one contract are merged (`merging`).
- `providers`: one exchange each. A provider says what it needs to know
  (`query`, `needs_price`, `needs_state`), what its contract is asked (`views`),
  and turns the answer into a route.
- `shared_utils`: the actions that move a token between its locations.
- `slippage`: the slippage of a request, fixed or by how volatile the tokens are.
- `facts`: what has to be known of the chain before a request is answered.
- `pathfinder`: the search for routes through pools, and the split of an amount
  over them, for any kind of pool.
- `rhea`: constant-product, stable and rated pools, and the path finder over them.
- `plach`: the pools of Intear Plach, and the path finder over them.
- `xyk`: the exchange of Intear Plach itself: pools, swaps, shares and fees.
- `wide`, `decimal`, `text`, `encoding`, `json`, `account`, `asset`, `ident`,
  `keyed`, `product`, `paging`, `types`, `network`: what the others are built of.

Contracts speak of views: numbers as `int` and `real`, texts as sequences of
characters, the state of a pool or of the exchange as a structure of sequences
and maps. What holds across functions stands in public proof functions, most
of them in the `laws` modules.

Numbers of 384 bits, decimals, base64, borsh, JSON and account names come from
outside crates. The calls stand in small functions whose contracts say what is
taken from each crate.

## The services

`app/` runs one of three web services, chosen by its first argument: the router
(the default), `rhea-pathfinder` and `plach-pathfinder`; with `exchange` it runs
the exchange on its standard input, and answers each call with its result and
the events that it raised.
