# tempo_pool

The core of a transaction pool for a payments chain whose accounts have two-dimensional nonces,
written in Verus: every function of `src/` is proved against its contract.

## Layout

- `src/` - the verified library.
  - `pool`, `pool_state`, `insertion`, `removal`, `updates`, `eviction`, `queries`: the pool for
    two-dimensional and expiring nonces. `pool_state` holds its mathematical model and the
    transitions; each operation is proved to perform one.
  - `invariants`, `coherence`, `counting`, `pool_laws`, `membership`, `update_laws`: what every
    operation keeps, who is evicted, which transactions a pool holds after it, and what a block does
    to it.
  - `best_2d`, `best`, `best_protocol`, `best_transactions`: the iterators that feed block building;
    `best_laws`, `best_left`, `best_runs` and `merge_laws` state what they yield.
  - `maintain`, `block_update`, `pool_updates`, `maintenance`, `keychain`: what a new block means for
    the pool, as a machine that is told what happened and answers with what is to be done.
  - `validator`, `limits`, `local_policy`: which transactions are admitted.
  - `fee_token`, `tip20`, `abi`: in which token a fee is paid.
  - `precompiles`, `dispatch`, `signature_verifier`: gas, selectors and dispatch of the precompiles.
  - `transaction`, `ids`, `pending`, `error`, `hardfork`, `addresses`, `primitives`,
    `state_snapshot`: the data.
  - `ordered`, `sets`: maps and sets as sorted vectors.
- `tests/` - tests of the library as it runs.
- `app/` - what surrounds the library in a node: locks, channels, the clock, the maintenance task and
  the texts of errors.

## Trusted

`abi` decodes and encodes call data with `alloy_sol_types`; the contracts of those few wrappers are
believed, as is that of `pending::share`, which clones an `Arc`. Everything else is proved.

Reading the chain state, running the execution environment and recovering signers is left to the
caller: the functions that decide take what these found as arguments. So is reading the chain's own
formats: logs arrive as `PoolLog`s and transactions as `TempoTxEnvelope`s.
