# stellar_identity

Decentralized identity on Stellar: a DID registry, a verifiable-credential
issuer, zero-knowledge attestations, sanctions screening with an audit trail,
and reputation scores.

The contracts' logic is written in Verus and proved against its contracts.
Each contract is a state machine over plain values (byte strings, integers,
lists); its stored state is modelled as maps with an invariant, and every
operation states what it returns and how it changes the state.

## Layout

- `src/` — the verified library.
  - `bytes.rs`, `table.rs`, `pagination.rs`, `types.rs`: byte strings,
    finite maps keyed by byte strings, paging, and the shared records.
  - `host.rs`: the one computation taken from the Soroban host (SHA-256).
  - `did_registry.rs`, `credential_issuer.rs`, `zk_attestation.rs`,
    `compliance_filter.rs`, `reputation_score.rs`: the five contracts.
  - `lib.rs`: page-size clamping and the identity hub that records the
    contracts' addresses.
- `tests/` — tests of the library on concrete values.
- `app/` — the Soroban contracts: they load the stored state into the
  verified model, call it, store the result, and do what the model leaves to
  the host (authorization, events, time-to-live, Ed25519 signature checks,
  conversion between host values and plain values).
