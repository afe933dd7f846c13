//! The state that a nominator keeps: the set of its bonds, ordered by
//! candidate, and its total.
use vstd::prelude::*;
use crate::bond::{Bond, has_owner, owner_pos, without_owner, last_amount_of, lemma_owner_pos_unique};

verus! {

/// Whether a nominator stays or has asked to leave (from the given era on).
#[derive(Clone, Copy, PartialEq, Eq, Structural, Debug)]
pub enum NominatorStatus {
    Active,
    Leaving(u32),
}

/// Bonds kept in increasing order of owner, at most one per owner.
pub struct OrderedSet(pub Vec<Bond>);

/// The state of a nominator: one bond per nominated candidate (the bond's
/// owner is the candidate), the total nominated, and the part of that total
/// that is scheduled to be unstaked.
pub struct Nominator {
    pub id: u64,
    pub nominations: OrderedSet,
    pub total: u128,
    pub less_total: u128,
    pub status: NominatorStatus,
}

/// The mathematical value of a [`Nominator`].
pub struct NominatorView {
    pub id: u64,
    pub nominations: Seq<Bond>,
    pub total: u128,
    pub less_total: u128,
    pub status: NominatorStatus,
}

impl View for Nominator {
    type V = NominatorView;

    open spec fn view(&self) -> NominatorView {
        NominatorView {
            id: self.id,
            nominations: self.nominations.0@,
            total: self.total,
            less_total: self.less_total,
            status: self.status,
        }
    }
}

/// `n` holds a nomination of candidate `candidate`.
pub open spec fn nominates(n: NominatorView, candidate: u64) -> bool {
    has_owner(n.nominations, candidate)
}

/// A nominator whose only nomination is `amount` behind `collator`.
pub open spec fn new_nominator(id: u64, collator: u64, amount: u128) -> NominatorView {
    NominatorView {
        id,
        nominations: seq![Bond { owner: collator, amount }],
        total: amount,
        less_total: 0,
        status: NominatorStatus::Active,
    }
}

/// `n` with the nomination `b` added, and whether it was added: a candidate
/// that `n` already nominates is refused and `n` is left as it is.
pub open spec fn nominator_with(n: NominatorView, b: Bond) -> (NominatorView, bool) {
    if has_owner(n.nominations, b.owner) {
        (n, false)
    } else {
        (
            NominatorView {
                nominations: n.nominations.insert(owner_pos(n.nominations, b.owner) as int, b),
                total: n.total.saturating_add(b.amount),
                ..n
            },
            true,
        )
    }
}

/// `n` without its nominations of `collator`; its total loses the amount of
/// the last of them.
pub open spec fn nominator_without(n: NominatorView, collator: u64) -> NominatorView {
    match last_amount_of(n.nominations, collator) {
        Some(amount) => NominatorView {
            nominations: without_owner(n.nominations, collator),
            total: n.total.saturating_sub(amount),
            ..n
        },
        None => n,
    }
}

/// The amount that a nominator's lock holds: what it has nominated and has
/// not scheduled to unstake.
pub open spec fn locked_amount(n: NominatorView) -> u128 {
    n.total.saturating_sub(n.less_total)
}

impl Nominator {
    /// A nominator whose only nomination is `amount` behind `collator`.
    pub fn new(id: u64, collator: u64, amount: u128) -> (r: Nominator)
        ensures
            r@ == new_nominator(id, collator, amount),
    {
        let mut v: Vec<Bond> = Vec::new();
        v.push(Bond { owner: collator, amount });
        let r = Nominator {
            id,
            nominations: OrderedSet(v),
            total: amount,
            less_total: 0,
            status: NominatorStatus::Active,
        };
        assert(r@.nominations =~= seq![Bond { owner: collator, amount }]);
        r
    }

    /// The total that this nominator has nominated.
    pub fn total(&self) -> (r: u128)
        ensures
            r == self.total,
    {
        self.total
    }

    /// A copy of this state.
    pub fn copy_state(&self) -> (r: Nominator)
        ensures
            r@ == self@,
    {
        let mut v: Vec<Bond> = Vec::new();
        let n = self.nominations.0.len();
        let mut i: usize = 0;
        while i < n
            invariant
                n == self.nominations.0@.len(),
                i <= n,
                v@ == self.nominations.0@.take(i as int),
            decreases n - i,
        {
            v.push(self.nominations.0[i]);
            i = i + 1;
            assert(v@ =~= self.nominations.0@.take(i as int));
        }
        assert(v@ =~= self.nominations.0@);
        Nominator {
            id: self.id,
            nominations: OrderedSet(v),
            total: self.total,
            less_total: self.less_total,
            status: self.status,
        }
    }

    /// Whether this nominator nominates `candidate`.
    pub fn nominates(&self, candidate: u64) -> (r: bool)
        ensures
            r == nominates(self@, candidate),
    {
        let n = self.nominations.0.len();
        let mut i: usize = 0;
        while i < n
            invariant
                n == self.nominations.0@.len(),
                i <= n,
                forall|j: int| 0 <= j < i ==> self.nominations.0@[j].owner != candidate,
            decreases n - i,
        {
            if self.nominations.0[i].owner == candidate {
                return true;
            }
            i = i + 1;
        }
        false
    }

    /// Adds the nomination `bond` at its place by candidate and adds its
    /// amount to the total; refuses a candidate that is already nominated.
    pub fn add_nomination(&mut self, bond: Bond) -> (added: bool)
        ensures
            (final(self)@, added) == nominator_with(old(self)@, bond),
    {
        if self.nominates(bond.owner) {
            return false;
        }
        let n = self.nominations.0.len();
        let mut i: usize = 0;
        while i < n && self.nominations.0[i].owner < bond.owner
            invariant
                n == self.nominations.0@.len(),
                i <= n,
                forall|j: int| 0 <= j < i ==> self.nominations.0@[j].owner < bond.owner,
            decreases n - i,
        {
            i = i + 1;
        }
        proof {
            lemma_owner_pos_unique(self.nominations.0@, bond.owner, i as int);
        }
        self.nominations.0.insert(i, bond);
        self.total = self.total.saturating_add(bond.amount);
        true
    }

    /// Removes every nomination of `collator`, takes the amount of the last
    /// of them off the total, and returns that amount.
    pub fn rm_nomination(&mut self, collator: u64) -> (removed: Option<u128>)
        ensures
            removed == last_amount_of(old(self)@.nominations, collator),
            final(self)@ == nominator_without(old(self)@, collator),
    {
        let ghost s = self.nominations.0@;
        let n = self.nominations.0.len();
        let mut kept: Vec<Bond> = Vec::new();
        let mut amt: Option<u128> = None;
        let mut i: usize = 0;
        while i < n
            invariant
                n == s.len(),
                s == self.nominations.0@,
                i <= n,
                kept@ == without_owner(s.take(i as int), collator),
                amt == last_amount_of(s.take(i as int), collator),
            decreases n - i,
        {
            let b = self.nominations.0[i];
            assert(s.take(i + 1).drop_last() =~= s.take(i as int));
            assert(s.take(i + 1).last() == b);
            if b.owner == collator {
                amt = Some(b.amount);
            } else {
                kept.push(b);
            }
            i = i + 1;
        }
        assert(s.take(n as int) =~= s);
        match amt {
            Some(a) => {
                self.nominations = OrderedSet(kept);
                self.total = self.total.saturating_sub(a);
            },
            None => {},
        }
        amt
    }
}

} // verus!
