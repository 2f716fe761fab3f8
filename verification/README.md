# tellus

Parametric crop insurance accounting, verified with Verus.

Four cooperating contracts are modelled as state machines whose every operation carries a
contract over an abstract view:

- `src/pool.rs`: liquidity provider capital and shares, coverage locks and payouts;
- `src/policy.rs`: the registry of farmer policies and their life cycle;
- `src/oracle.rs`: whitelisted readings per geo cell, their bounded history and medians;
- `src/trigger.rs`: the evaluation of a policy against the latest readings;
- `src/table.rs`: the keyed table the contracts keep their entries in.

Each contract can be turned into a plain record and restored from one; restoring checks
that the record is consistent. The host environment (ledger time, authorization, token
transfers, storage and calls between contracts) stays outside the library: `app/` holds
Soroban contracts that load a record, let the library decide, act on the decision and
store the record back.

The tests under `tests/` exercise the library on concrete values.
