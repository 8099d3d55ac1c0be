# dx25_dex

The exchange core of a concentrated-liquidity decentralized exchange, verified with Verus:
accounts and their token balances, the contract record and its versions, guards and verified
tokens, deposits and withdrawals, swaps along paths of pools, positions, batches of actions,
and the event log. The pools themselves, whose pricing is floating-point work, are not part of
the library: they are supplied by an implementation of the `Pool` trait.

Pools are driven through the `Pool` trait: how a pool prices its swaps is left to its
implementation. Each answer of a pool is named by a spec function of the pool and the request
(side, kind and amount of a swap, protocol fee fraction, price limit, position, fee level,
position identifier). The contracts of the exchange state which request it makes of which pool,
and what it answers and which exchange it leaves for the pool's named answer.

## Layout

- `src/ordered_map.rs`, `src/ordered_set.rs`, `src/map_with_context.rs`, `src/overlay_map.rs`:
  ordered collections and the overlay map that tracks changes on top of a persistent map.
- `src/types.rs`, `src/tick.rs`, `src/error.rs`, `src/rational_fraction.rs`: identifiers,
  ticks, errors and fractions.
- `src/state.rs`: accounts, the contract record and its versions.
- `src/pool.rs`: the `Pool` trait and fee levels.
- `src/dex.rs`: the exchange and its operations, with the laws that relate them.
- `src/account_view.rs`, `src/actions.rs`: operations on one account and batches of actions.
- `tests/`: tests, run against a constant-product pool.
- `app/`: floating-point helpers around the library.
