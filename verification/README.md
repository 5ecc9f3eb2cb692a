# slots

A leasing system for parachain slots, written in Rust and verified with Verus.

Paras are taken under management, lease slots for a number of lease periods against a deposit, are
deployed once their code and head data are known, and are off-boarded when their leases have run
out. Two paras can be swapped. How it is decided who gets a lease is not part of the system.

## Layout

- `src/` is the library. `state` holds the state of the system and its invariant; `leasing`,
  `onboarding`, `lease_periods` and `swapping` hold what can be done to it; `deposits`, `ordered`
  and `account` hold what these are made of; `traits` and `dispatch` hold what the system and its
  host exchange; `laws` states and proves what holds of the whole.
- `app/` is the system as a part of a FRAME runtime: storage, currency, registrar and events.
- `tests/` runs the library in a small runtime.

## What is trusted

One function is: `hashing::hash_of`, which hashes with `BlakeTwo256` of `sp_runtime`. All else in
`src/` is proved, given what Verus knows of the standard library.
