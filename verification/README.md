# meta_vote

Meta Vote governance contracts as a verified library: mpDAO is bonded into
locking positions for voting power, voting power is given to objects of other
contracts, tokens are distributed as claims, EVM addresses act through
delegates, improvement proposals are voted on, and a key-value store keeps
associated data.

- `src/` — the library, verified with Verus. The NEAR runtime is not called
  from here: each call takes the caller, the attached deposit and the block
  time as arguments, a transfer of tokens is returned as a `TokenTransfer`,
  and a callback takes the outcome of the call it follows.
  - `meta_vote.rs` and `meta_vote/` — the voting contract: bonding
    (`deposit`), unbonding (`locking`), relocking (`relock`), votes
    (`voting`), withdrawals and claims (`withdraw`), EVM delegation
    (`evm_delegate`), migration (`migration`), mirrored positions (`mirror`)
    and the views (`view`). Its accounting invariants (`voters_balanced`,
    `vp_accounted`, `votes_accounted`, `claims_accounted`) are kept by every
    call that changes the state.
  - `mpip.rs` and `mpip/contract.rs` — improvement proposals and their votes.
  - `kv_store.rs`, `pipeline.rs`, `legacy.rs` — the key-value store, the
    pipeline contract's message parsing, and the first version's voting power.
  - `str_map.rs`, `votes.rs`, `voter.rs`, `locking_position.rs`,
    `seq_sum.rs`, `text.rs`, `utils.rs` — the data structures and helpers.

  On chain the contracts keep their records in near-sdk's persistent
  collections (`UnorderedMap`, `LookupMap`, `Vector`). Those collections are
  not values: each read and write is a call into the NEAR runtime's storage,
  which exists only inside a running contract. For that reason they are not
  declared here as outside types behind trusted contracts: such a
  declaration would still call the runtime's storage on every method, which
  neither the tests nor any caller outside a contract can run. The library therefore holds
  the same records as plain values, in `StrMap`, two lists of keys and values
  with no key twice. It keeps the order those collections keep: a new key
  goes at the end and a removed key's place goes to the last one, which is
  the order in which the views page through the records. Loading and saving
  the state is left to the NEAR side.
- `tests/` — tests of the library on concrete values.
- `app/` — the NEAR side: reads the runtime, turns refusals into panics,
  builds the promises, and writes the views as JSON.
