# kitties_erc20

Two small on-chain ledgers, written in Verus and verified:

- `src/erc20.rs` — a fungible token: balances, allowances, `transfer`,
  `approve`, `transfer_from`. Its invariant (the balances add up to the total
  supply) is kept by every operation, which also rules out overflow.
- `src/kitties.rs` — a registry of kitties with DNA, owners and prices:
  `create`, `transfer`, `bread`, `set_price`, `buy_kitty`. What the hosting
  chain provides (deposit, entropy, currency) comes through the `Config`
  trait, which the runtime implements. Its contracts are a promise of the
  implementation: it keeps the history of the requests made of its
  randomness source and currency, each request adding itself with its
  answer, and its deposit and extrinsic index stay fixed during a call.
  Over that history the registry's contracts state which requests each call
  makes (who is reserved, who pays whom), how the answers decide the result,
  that a refused call makes none, and that reserved deposits follow
  ownership. `create`, `transfer` and `buy_kitty` also have `finish_*`
  companions (`bread` ends in `finish_create`) whose contracts say what
  happens for each outcome of the currency. Only a kitty that its owner
  priced above zero is on sale.
- `src/entropy.rs` — derivation of a kitty's DNA from the chain's entropy
  (SCALE encoding, then BLAKE2b-128 via `sp_io`).
- `src/balances_sum.rs` — sums over finite maps, used for the token's invariant.

`app/lib.rs` holds copies of the public types with the SCALE codec and
type-information derives, and conversions both ways.
