# mixnet_contracts

The bonding, delegation and rewarding rules of a mixnet's staking contract,
written in Verus and verified.

- `src/store.rs`: a store of values under text keys, its model as a sequence
  of key/value pairs, and a store of such stores (one bucket per key).
- `src/types.rs`: coins, fixed-point rates, nodes, bonds, delegations, the
  contract's settings, errors and responses, each with a view.
- `src/validation.rs`: checks on the funds sent to bond or to delegate.
- `src/rewards.rs`: per-epoch reward rates, uptime scaling, and the reward
  a rate yields on an amount.
- `src/text.rs`: the text that responses carry.
- `src/model.rs`: the contract's state as a mathematical value, its
  invariant, and what each request does to it.
- `src/transactions.rs`: the requests themselves, each proved to do what
  `model.rs` says and to keep the invariant.
- `src/laws.rs`: what holds across requests.
- `app/`: the entry points that load the state from the chain's storage and
  store it back.
