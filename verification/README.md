# eris_logic

The arithmetic and the decision rules of the Eris amplified staking
contracts, written in Verus and proved against their contracts.

- `src/` is the verified library: 18-digit decimals on top of
  `cosmwasm_std` (`decimal`), the hub's helpers and delegation strategy
  (`hub`, `delegation`), the arbitrage vault's accounting (`arb_vault`), the
  yield extractor (`yield_extractor`), the governance curves and votes
  (`gov`), and the small validation rules of the shared message types.
  Public proof functions named `law_*` state what holds across calls.
- `tests/` runs the library on concrete values.
- `app/` is the chain side: queries, address validation, conversions to
  and from the cosmwasm types, and serialisable copies of the message types.
