# tgrade_contracts

The decision logic of the Tgrade proof-of-engagement contracts, written in Verus and
proved against its contracts: membership groups and their weights, the engagement/stake
mixer, stake claims, proposals and voting, the trusted-circle (DSO) escrow rules, the
arbiter pool's complaints, the dispute multisig, the oversight community's proposals and
the periodic member payments.

Layout:

- `src/` is the verified library, one module per contract (`group`, `mixer`, `claims`,
  `stake`, `voting`, `dso`, `complaints`, `dispute`, `oversight`, `community_pool`,
  `engagement`, `payments`) and shared pieces (`common`, `addr_map`, `id_map`, `paging`,
  `version`). Storage is modelled by plain maps keyed by address or id; a function takes
  what the contract would have loaded and returns what it would store and answer.
  Public `law_*` proof functions state properties that span several calls.
- Calls into outside crates (`integer-sqrt`, `rust_decimal`, `chrono`, `semver`,
  `cw-storage-plus`) sit behind small `#[verifier::external_body]` wrappers, each with a
  doc comment that says what its contract claims of the outside function.
- `tests/` runs the library on concrete values.
- `app/` is the chain side: conversions from `cosmwasm-std` types and the end-of-block
  payment run, which alternates queries to other contracts with the library's decisions.
