# bria_wallet

One Bitcoin transaction that pays out of several wallets, and the bookkeeping
around it, verified with Verus.

- `src/` is the library. `construction` gives each wallet its turn, `builder` asks
  the wallets for transactions and takes their answers, `finished` tells which
  output brings which payout or change, who signs, and how the fee is shared.
  `builder_model` says what each step is; `laws` says what holds of builds as a
  whole, and `rounding` how numbers are rounded. `placement` gives payouts their outputs, `utxo_book` lists what is spent.
  `wallet_repo`, `address`, `keychain`, `fee_estimation` and `signer_error` hold the
  rules around the database, the fee service and the signer.
- `app/` opens databases and wallets, talks to the fee service, and runs the
  transactions that the library plans.
- `tests/` runs the library on concrete values.

The library calls `bitcoin` for output scripts and `rust_decimal` for shares of a
fee; what it relies on there is stated in `script` and `decimal`.
