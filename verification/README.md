# miden_vault

Asset vaults of accounts, and the batches of transactions that change them, with machine-checked
contracts.

- `word`, `hash`, `merkle`, `vm`: field elements and words, and the operations of the crypto library
  and of the virtual machine that the rest is built on.
- `paths`: where the inner nodes of a tree sit, and which digests a path passes through.
- `account`, `vault_key`, `asset`, `delta`: account IDs, vault keys, assets and changes of assets.
- `key_map`: maps in the order of vault keys.
- `vault`, `witness`, `partial_vault`: vaults, proofs of single assets, and parts of vaults.
- `vault_laws`, `partial_laws`: what holds of them as a whole.
- `transaction`, `batch_id`, `batch`, `kernel`, `prover`: transactions, batches, the interface of the
  batch kernel and the steps of proving a batch; `kernel_laws` has the laws.
- `faucet`: the faucet of bridged assets.

`src/` is the library. `app/` has what surrounds it: byte encodings, error messages, and the execution
of the batch kernel.

The contracts speak of trees through their pairs and their inner nodes. The entries of a vault, a
witness and a partial vault are always in sync with their trees. Where a statement needs that no two
vault keys have the same hash, or no two inner nodes the same digest, it says so.
