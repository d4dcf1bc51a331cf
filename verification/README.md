# stellar_tokens

Token building blocks for Soroban contracts — fungible tokens and their
extensions, non-fungible tokens, tokenized vaults, real-world-asset (RWA)
tokens with identity and compliance, and a DKIM key registry — written as a
Verus library whose every function carries a proved contract.

## Layout

- `src/` — the verified library. Ledger state is held in plain Rust
  collections (accounts and contracts are `u64` ids, hashes are `Hash32`),
  and each operation states in its `ensures` exactly what it returns, which
  error it gives on which input, and how the state changes.
  - `fungible`, `allowlist`, `fungible_votes`: balances, supply, allowances
    and the extensions built on them.
  - `non_fungible`, `non_fungible_votes`: token ownership, approvals, counts.
  - `votes`: voting units, delegation and delegated votes.
  - `vault`, `math`: share/asset conversion with explicit rounding.
  - `rwa`, `compliance`, `identity_*`, `claim_*`, `token_binder`,
    `doc_manager`: the RWA token, its compliance hooks, identity registry,
    claims, trusted issuers, bound tokens and documents.
  - `dkim_registry`: registered and revoked DKIM public-key hashes.
  - `sums`, `seqs`, `hash32`: shared definitions and lemmas.
- `tests/` — ordinary Rust tests of the library on concrete values.
- `app/` — Soroban glue: storage, authorization, events, cross-contract
  calls and hashing, which read what the library needs from the ledger and
  carry out what it decides.

Laws that relate several operations (the supply is the sum of balances, a
move can always be undone, a vault round trip never gains, votes are the
units delegated, claim topics and issuers list each other, a revoked DKIM
key never becomes valid again, …) are public proof functions next to the
operations they speak of.
