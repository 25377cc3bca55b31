# dexter_core

The core of the Dexter decentralised exchange on CosmWasm, verified with Verus.

- `src/` is the verified library. It holds the stableswap math (the invariant
  `D` and the balance `y`, on integers and on 18-decimal values), the
  amplification schedule, the price accumulators, the pool's answers to join,
  exit and swap requests, and the vault's state transitions: its
  configuration, the creation of pools, joins, exits, swaps, defunct pools and
  their refunds. It also holds the LST locker's locking and joining. The
  calls into other crates stand behind trusted wrappers: the wide arithmetic
  of `cosmwasm-std` in `src/wide.rs`, `cw_utils::parse_instantiate_response_data`
  in `src/vault/create.rs`, `cw_utils::must_pay` in `src/superfluid.rs` and
  `str::to_lowercase` in `src/pool_join.rs`. Every other function is proved
  against its contract.
- `app/` holds the contracts themselves: storage, message decoding, queries to
  other contracts and the conversion of the library's decisions into CosmWasm
  messages. Nothing there decides.
- `tests/` runs the library on concrete values.
