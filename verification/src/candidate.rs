//! The state that a collator candidate keeps: its own bond, a summary of its
//! top and bottom nominations, and the nomination lists themselves.
use vstd::prelude::*;
use crate::bond::{Bond, amount_pos, lemma_amount_pos_unique};

verus! {

/// How full a bounded list of nominations is.
#[derive(Clone, Copy, PartialEq, Eq, Structural, Debug)]
pub enum CapacityStatus {
    Full,
    Empty,
    Partial,
}

/// Whether a candidate takes part in collator selection.
#[derive(Clone, Copy, PartialEq, Eq, Structural, Debug)]
pub enum CollatorStatus {
    Active,
    Idle,
    Leaving(u32),
}

/// A candidate's own bond and the summary of its nomination lists. The
/// nominations counted for it are its bond plus its top nominations.
#[derive(Clone, Copy, PartialEq, Eq, Structural, Debug)]
pub struct CandidateMetadata {
    pub bond: u128,
    pub nomination_count: u32,
    pub total_counted: u128,
    pub lowest_top_nomination_amount: u128,
    pub highest_bottom_nomination_amount: u128,
    pub lowest_bottom_nomination_amount: u128,
    pub top_capacity: CapacityStatus,
    pub bottom_capacity: CapacityStatus,
    pub status: CollatorStatus,
}

/// A list of nominations kept greatest to least, and the sum of their amounts.
pub struct Nominations {
    pub nominations: Vec<Bond>,
    pub total: u128,
}

/// The mathematical value of [`Nominations`].
pub struct NominationsView {
    pub nominations: Seq<Bond>,
    pub total: u128,
}

impl View for Nominations {
    type V = NominationsView;

    open spec fn view(&self) -> NominationsView {
        NominationsView { nominations: self.nominations@, total: self.total }
    }
}

/// The empty list of nominations.
pub open spec fn empty_nominations() -> NominationsView {
    NominationsView { nominations: Seq::empty(), total: 0 }
}

/// `n` with `b` inserted after every nomination of at least its amount.
pub open spec fn nominations_with(n: NominationsView, b: Bond) -> NominationsView {
    NominationsView {
        nominations: n.nominations.insert(amount_pos(n.nominations, b.amount) as int, b),
        total: n.total.saturating_add(b.amount),
    }
}

/// `n` without its last (lowest) nomination.
pub open spec fn nominations_without_lowest(n: NominationsView) -> NominationsView {
    NominationsView {
        nominations: n.nominations.drop_last(),
        total: n.total.saturating_sub(n.nominations.last().amount),
    }
}

/// The amount of the last nomination of `s`, or 0 when there is none.
pub open spec fn lowest_amount(s: Seq<Bond>) -> u128 {
    if s.len() == 0 {
        0
    } else {
        s.last().amount
    }
}

/// The amount of the first nomination of `s`, or 0 when there is none.
pub open spec fn highest_amount(s: Seq<Bond>) -> u128 {
    if s.len() == 0 {
        0
    } else {
        s[0].amount
    }
}

/// The capacity status of a list of `len` nominations bounded by `max`.
pub open spec fn capacity(len: nat, max: u32) -> CapacityStatus {
    if len as u32 >= max {
        CapacityStatus::Full
    } else if len == 0 {
        CapacityStatus::Empty
    } else {
        CapacityStatus::Partial
    }
}

/// The metadata of a candidate that has just joined with `bond`.
pub open spec fn new_candidate(bond: u128) -> CandidateMetadata {
    CandidateMetadata {
        bond,
        nomination_count: 0,
        total_counted: bond,
        lowest_top_nomination_amount: 0,
        highest_bottom_nomination_amount: 0,
        lowest_bottom_nomination_amount: 0,
        top_capacity: CapacityStatus::Empty,
        bottom_capacity: CapacityStatus::Empty,
        status: CollatorStatus::Active,
    }
}

/// `m` with its top summary taken from `top`: the lowest top amount, the top
/// capacity and the total counted (its bond plus the top total).
pub open spec fn with_top_data(m: CandidateMetadata, top: NominationsView, max_top: u32) -> CandidateMetadata {
    CandidateMetadata {
        lowest_top_nomination_amount: lowest_amount(top.nominations),
        top_capacity: capacity(top.nominations.len(), max_top),
        total_counted: m.bond.saturating_add(top.total),
        ..m
    }
}

/// `m` with its bottom summary taken from `bottom`.
pub open spec fn with_bottom_data(m: CandidateMetadata, bottom: NominationsView, max_bottom: u32) -> CandidateMetadata {
    CandidateMetadata {
        lowest_bottom_nomination_amount: lowest_amount(bottom.nominations),
        highest_bottom_nomination_amount: highest_amount(bottom.nominations),
        bottom_capacity: capacity(bottom.nominations.len(), max_bottom),
        ..m
    }
}

/// `m` counting one more nomination.
pub open spec fn with_one_more_nomination(m: CandidateMetadata) -> CandidateMetadata {
    CandidateMetadata { nomination_count: m.nomination_count.saturating_add(1), ..m }
}

impl CandidateMetadata {
    /// The metadata of a candidate that has just joined with `bond`.
    pub fn new(bond: u128) -> (r: CandidateMetadata)
        ensures
            r == new_candidate(bond),
    {
        CandidateMetadata {
            bond,
            nomination_count: 0,
            total_counted: bond,
            lowest_top_nomination_amount: 0,
            highest_bottom_nomination_amount: 0,
            lowest_bottom_nomination_amount: 0,
            top_capacity: CapacityStatus::Empty,
            bottom_capacity: CapacityStatus::Empty,
            status: CollatorStatus::Active,
        }
    }

    /// Whether this candidate takes part in collator selection.
    pub fn is_active(&self) -> (r: bool)
        ensures
            r == (self.status == CollatorStatus::Active),
    {
        match self.status {
            CollatorStatus::Active => true,
            _ => false,
        }
    }

    /// Takes the top summary from `top`.
    pub fn reset_top_data(&mut self, top: &Nominations, max_top: u32)
        ensures
            *final(self) == with_top_data(*old(self), top@, max_top),
    {
        self.lowest_top_nomination_amount = top.lowest_nomination_amount();
        self.top_capacity = top.capacity(max_top);
        self.total_counted = self.bond.saturating_add(top.total);
    }

    /// Takes the bottom summary from `bottom`.
    pub fn reset_bottom_data(&mut self, bottom: &Nominations, max_bottom: u32)
        ensures
            *final(self) == with_bottom_data(*old(self), bottom@, max_bottom),
    {
        self.lowest_bottom_nomination_amount = bottom.lowest_nomination_amount();
        self.highest_bottom_nomination_amount = bottom.highest_nomination_amount();
        self.bottom_capacity = bottom.capacity(max_bottom);
    }

    /// Counts one more nomination.
    pub fn increment_nomination_count(&mut self)
        ensures
            *final(self) == with_one_more_nomination(*old(self)),
    {
        self.nomination_count = self.nomination_count.saturating_add(1);
    }
}

impl Nominations {
    /// The empty list.
    pub fn empty() -> (r: Nominations)
        ensures
            r@ == empty_nominations(),
    {
        Nominations { nominations: Vec::new(), total: 0 }
    }

    /// A copy of this list.
    pub fn copy(&self) -> (r: Nominations)
        ensures
            r@ == self@,
    {
        let mut v: Vec<Bond> = Vec::new();
        let n = self.nominations.len();
        let mut i: usize = 0;
        while i < n
            invariant
                n == self.nominations@.len(),
                i <= n,
                v@ == self.nominations@.take(i as int),
            decreases n - i,
        {
            v.push(self.nominations[i]);
            i = i + 1;
            assert(v@ =~= self.nominations@.take(i as int));
        }
        assert(v@ =~= self.nominations@);
        Nominations { nominations: v, total: self.total }
    }

    /// The number of nominations held.
    pub fn len(&self) -> (r: usize)
        ensures
            r == self@.nominations.len(),
    {
        self.nominations.len()
    }

    /// The amount of the lowest nomination, or 0.
    pub fn lowest_nomination_amount(&self) -> (r: u128)
        ensures
            r == lowest_amount(self@.nominations),
    {
        let n = self.nominations.len();
        if n == 0 {
            0
        } else {
            self.nominations[n - 1].amount
        }
    }

    /// The amount of the highest nomination, or 0.
    pub fn highest_nomination_amount(&self) -> (r: u128)
        ensures
            r == highest_amount(self@.nominations),
    {
        if self.nominations.len() == 0 {
            0
        } else {
            self.nominations[0].amount
        }
    }

    /// How full this list is when it holds at most `max` nominations.
    pub fn capacity(&self, max: u32) -> (r: CapacityStatus)
        ensures
            r == capacity(self@.nominations.len(), max),
    {
        let n = self.nominations.len();
        #[verifier::truncate]
        let n32 = n as u32;
        if n32 >= max {
            CapacityStatus::Full
        } else if n == 0 {
            CapacityStatus::Empty
        } else {
            CapacityStatus::Partial
        }
    }

    /// Inserts `bond` after every nomination of at least its amount (so that
    /// among equal amounts the earliest comes first) and adds its amount to
    /// the total.
    pub fn insert_sorted_greatest_to_least(&mut self, bond: Bond)
        ensures
            final(self)@ == nominations_with(old(self)@, bond),
    {
        let n = self.nominations.len();
        let mut i: usize = 0;
        while i < n && self.nominations[i].amount >= bond.amount
            invariant
                n == self.nominations@.len(),
                i <= n,
                forall|j: int| 0 <= j < i ==> self.nominations@[j].amount >= bond.amount,
            decreases n - i,
        {
            i = i + 1;
        }
        proof {
            lemma_amount_pos_unique(self.nominations@, bond.amount, i as int);
        }
        self.nominations.insert(i, bond);
        self.total = self.total.saturating_add(bond.amount);
    }

    /// Removes the lowest nomination, takes its amount off the total, and
    /// returns it.
    pub fn pop_lowest(&mut self) -> (r: Bond)
        requires
            old(self)@.nominations.len() > 0,
        ensures
            r == old(self)@.nominations.last(),
            final(self)@ == nominations_without_lowest(old(self)@),
    {
        let b = self.nominations.pop().unwrap();
        self.total = self.total.saturating_sub(b.amount);
        b
    }
}

} // verus!
