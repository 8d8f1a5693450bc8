# sugarfunge

A verified model of the SugarFunge runtime pallets, written in Verus.

- `src/` is the library: the asset ledger (`asset`, `ledger`) and the pallets
  built on it (`bag`, `escrow`, `bundle`, `market`, `dex`, `currency`,
  `operator_asset`, `token`, `nft`, `bridge`, `validator_set`), the currencies
  the pallets take deposits in (`traits`, `balances`), 256-bit price
  arithmetic (`wide`) and hashing (`hashing`). Each pallet is a plain struct
  whose methods are the pallet's calls, with contracts proved by Verus; the
  `law_*` proof functions state properties that span calls.
- `tests/` runs the pallets' scenarios on concrete values.
- `app/` holds the remote procedure call that reads balances from a client.
