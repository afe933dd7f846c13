//! Nomination bookkeeping of a parachain staking pallet: nominators bond
//! funds behind collator candidates, candidates keep their nominations split
//! into a bounded top list and a bounded bottom list, the pallet keeps the
//! total amount at stake, and each run of paid-out eras is summed up in a
//! growth record.

pub mod types;
pub mod bond;
pub mod nominator;
pub mod candidate;
pub mod model;
pub mod preservation;
pub mod growth;
pub mod pallet;
pub mod accounting;
pub mod laws;
