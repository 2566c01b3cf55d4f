# stellar-id

A verified model of the StellarID credential registry: an admin approves
issuers (with a trust level), issuers define credential schemas and issue,
revoke and renew credentials for subjects, subjects get identities with a
reputation score, bridge operators import EVM attestations as credentials, and
subjects can publish SHA-256 commitments to their credentials and open them
later.

Layout:

- `src/types.rs` — addresses, records, events and refusals.
- `src/table.rs` — the finite maps the registry keeps its records in.
- `src/model.rs` — the mathematical model of the registry state and the exact
  effect (or refusal) of every operation on it.
- `src/contract.rs` — `StellarIdContract`, the executable registry; each method
  is proved to do exactly what the model prescribes.
- `src/crypto.rs`, `src/bytes.rs` — the commitment scheme; the SHA-256 digest is
  computed by the Soroban host.
- `src/laws.rs` — properties across operations: consistency of the records,
  permanence of credentials and revocations, sequential ids, one event per
  request, reputation bounds, commitment and validity relations.
- `app/lib.rs` — the Soroban contract entry points (authorization, ledger time,
  storage, event publishing) around the registry.
- `tests/` — scenario tests.

Storage. On chain the records live in Soroban contract storage, one entry per
key, and the per-subject credential lists are `soroban_sdk::Vec<u64>`. Neither
can stand in the verified library: a storage handle and a Soroban vector exist
only inside a host environment during a contract invocation, Verus sees them
as opaque values, and the `#[contracttype]` keys and records are generated by an
attribute macro that the verified code cannot carry. So the library keeps each
kind of record in a `Table` (a vector of key/value pairs whose model is a
`Map`, keys unique) and each list in a `std` `Vec<u64>`, and proves every
operation against that model. Names and descriptions are kept as raw bytes, as
a Soroban string holds them. `app/` is the thin contract around it: it
authenticates callers, reads the ledger time, persists the registry and
publishes the events the registry reports.
