# parachain_staking

A verified model of the nomination bookkeeping of a parachain staking
pallet, written in Verus.

Nominators bond part of their free balance behind collator candidates. Each
candidate keeps its nominations in two bounded lists ordered greatest to
least: the top list, which counts towards the candidate, and the bottom
list, which does not. A nomination that beats the lowest top nomination of
a full top list pushes that nomination down to the bottom; a full bottom
list kicks its lowest nomination out. Eras advance with the block number,
and the payout of each era that is old enough is summed up in growth
records.

Layout of `src/`:

- `types.rs`: configuration, events, errors, origins, settings.
- `bond.rs`: bonds and sequences of bonds, with their lemmas.
- `nominator.rs`: a nominator's state and its operations.
- `candidate.rs`: a candidate's metadata and its nomination lists.
- `growth.rs`: eras, collator scores and growth records.
- `model.rs`: the storage as mathematical values, what each call does to
  it, and the storage invariant `staking_wf`.
- `preservation.rs`: proofs that the calls keep `staking_wf`.
- `pallet.rs`: the executable storage and its calls, each proved against
  `model.rs`.
- `accounting.rs`: sums over candidates and nominators, and the proof that
  the staked total stays what the candidates bonded plus what the
  nominators nominated.
- `laws.rs`: properties of nominations, joins, blocks and settings.

The tests under `tests/` exercise the compiled library.
