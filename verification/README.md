# soroban_nft

A verified model of an NFT collection contract for Soroban: initialization,
minting (single and batch, with an optional supply cap and whitelist),
transfers by owners, approved addresses and operators, burning, pausing,
royalty settings and administration.

- `src/` is the library, verified with Verus. `NFTContract` holds the
  collection's state as plain values; every operation returns either its
  result or the reason it was refused (`NftError`), and a refused operation
  leaves the state unchanged. `model.rs` states the abstract state
  (`ContractView`), what each operation does to it, and the consistency
  conditions that every reachable state meets, and the whole collection of
  requests as `Call` with `step` and `run` (each operation's contract ties it
  to `step`); `laws.rs` proves that each operation keeps the consistency
  conditions and states the collection's other laws, also over sequences of
  calls.
- `app/` is the Soroban contract around the library: it checks
  authorization, converts host values (addresses, strings, vectors) to plain
  ones and publishes events. It keeps in contract storage not the collection
  itself but the list of operations that succeeded (`DataKey::History`), and
  rebuilds the collection on each invocation by replaying that list on an
  empty one; the operations are deterministic, so the rebuilt collection is
  the one the previous invocation left. The list, and the cost of replaying
  it, grow with every successful operation. The original's per-key storage
  layout cannot be used here, because a contract cannot enumerate its
  storage keys and the library works on the whole collection.
- `tests/` exercises the library on concrete scenarios.
