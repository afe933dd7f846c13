//! Bonds and the ordered sequences of bonds that the pallet keeps.
use vstd::prelude::*;

verus! {

/// An amount staked by `owner`.
#[derive(Clone, Copy, PartialEq, Eq, Structural, Debug)]
pub struct Bond {
    pub owner: u64,
    pub amount: u128,
}

/// `who` owns some bond of `s`.
pub open spec fn has_owner(s: Seq<Bond>, who: u64) -> bool {
    exists|i: int| 0 <= i < s.len() && #[trigger] s[i].owner == who
}

/// No two bonds of `s` have the same owner.
pub open spec fn distinct_owners(s: Seq<Bond>) -> bool {
    forall|i: int, j: int| 0 <= i < j < s.len() ==> #[trigger] s[i].owner != #[trigger] s[j].owner
}

/// The owners of `s` strictly increase (the order of an ordered set of bonds).
pub open spec fn sorted_by_owner(s: Seq<Bond>) -> bool {
    forall|i: int, j: int| 0 <= i < j < s.len() ==> #[trigger] s[i].owner < #[trigger] s[j].owner
}

/// The amounts of `s` never increase (greatest to least).
pub open spec fn sorted_by_amount(s: Seq<Bond>) -> bool {
    forall|i: int, j: int| 0 <= i < j < s.len() ==> #[trigger] s[i].amount >= #[trigger] s[j].amount
}

/// The number of leading bonds of `s` whose owner is below `who`: where a
/// bond of `who` goes in a sequence ordered by owner.
pub open spec fn owner_pos(s: Seq<Bond>, who: u64) -> nat
    decreases s.len(),
{
    if s.len() == 0 {
        0
    } else if s[0].owner < who {
        1 + owner_pos(s.drop_first(), who)
    } else {
        0
    }
}

/// The number of leading bonds of `s` whose amount is at least `amount`:
/// where a bond of `amount` goes in a sequence ordered greatest to least,
/// after every bond of the same amount.
pub open spec fn amount_pos(s: Seq<Bond>, amount: u128) -> nat
    decreases s.len(),
{
    if s.len() == 0 {
        0
    } else if s[0].amount >= amount {
        1 + amount_pos(s.drop_first(), amount)
    } else {
        0
    }
}

/// `s` without the bonds of `who`.
pub open spec fn without_owner(s: Seq<Bond>, who: u64) -> Seq<Bond>
    decreases s.len(),
{
    if s.len() == 0 {
        s
    } else {
        let rest = without_owner(s.drop_last(), who);
        if s.last().owner != who {
            rest.push(s.last())
        } else {
            rest
        }
    }
}

/// The amount of the last bond of `who` in `s`, if there is one.
pub open spec fn last_amount_of(s: Seq<Bond>, who: u64) -> Option<u128>
    decreases s.len(),
{
    if s.len() == 0 {
        None
    } else if s.last().owner == who {
        Some(s.last().amount)
    } else {
        last_amount_of(s.drop_last(), who)
    }
}

/// The sum of the amounts of `s`.
pub open spec fn sum_amounts(s: Seq<Bond>) -> int
    decreases s.len(),
{
    if s.len() == 0 {
        0
    } else {
        sum_amounts(s.drop_last()) + s.last().amount
    }
}

/// What `owner_pos` counts: the leading bonds below `who`, up to the first that is not.
pub proof fn lemma_owner_pos(s: Seq<Bond>, who: u64)
    ensures
        owner_pos(s, who) <= s.len(),
        forall|i: int| 0 <= i < owner_pos(s, who) ==> s[i].owner < who,
        owner_pos(s, who) < s.len() ==> s[owner_pos(s, who) as int].owner >= who,
    decreases s.len(),
{
    if s.len() > 0 && s[0].owner < who {
        lemma_owner_pos(s.drop_first(), who);
        assert forall|i: int| 0 <= i < owner_pos(s, who) implies s[i].owner < who by {
            if i > 0 {
                assert(s[i] == s.drop_first()[i - 1]);
            }
        }
        if owner_pos(s, who) < s.len() {
            assert(s[owner_pos(s, who) as int] == s.drop_first()[owner_pos(s.drop_first(), who) as int]);
        }
    }
}

/// A position with the bonds before it below `who` and the bond at it not below is `owner_pos`.
pub proof fn lemma_owner_pos_unique(s: Seq<Bond>, who: u64, k: int)
    requires
        0 <= k <= s.len(),
        forall|i: int| 0 <= i < k ==> s[i].owner < who,
        k < s.len() ==> s[k].owner >= who,
    ensures
        owner_pos(s, who) == k,
    decreases k,
{
    if k > 0 {
        assert forall|i: int| 0 <= i < k - 1 implies s.drop_first()[i].owner < who by {
            assert(s.drop_first()[i] == s[i + 1]);
        }
        if k - 1 < s.drop_first().len() {
            assert(s.drop_first()[k - 1] == s[k]);
        }
        lemma_owner_pos_unique(s.drop_first(), who, k - 1);
    }
}

/// What `amount_pos` counts: the leading bonds of at least `amount`, up to the first below it.
pub proof fn lemma_amount_pos(s: Seq<Bond>, amount: u128)
    ensures
        amount_pos(s, amount) <= s.len(),
        forall|i: int| 0 <= i < amount_pos(s, amount) ==> s[i].amount >= amount,
        amount_pos(s, amount) < s.len() ==> s[amount_pos(s, amount) as int].amount < amount,
    decreases s.len(),
{
    if s.len() > 0 && s[0].amount >= amount {
        lemma_amount_pos(s.drop_first(), amount);
        assert forall|i: int| 0 <= i < amount_pos(s, amount) implies s[i].amount >= amount by {
            if i > 0 {
                assert(s[i] == s.drop_first()[i - 1]);
            }
        }
        if amount_pos(s, amount) < s.len() {
            assert(s[amount_pos(s, amount) as int] == s.drop_first()[amount_pos(
                s.drop_first(),
                amount,
            ) as int]);
        }
    }
}

/// A position with the bonds before it of at least `amount` and the bond at it below is `amount_pos`.
pub proof fn lemma_amount_pos_unique(s: Seq<Bond>, amount: u128, k: int)
    requires
        0 <= k <= s.len(),
        forall|i: int| 0 <= i < k ==> s[i].amount >= amount,
        k < s.len() ==> s[k].amount < amount,
    ensures
        amount_pos(s, amount) == k,
    decreases k,
{
    if k > 0 {
        assert forall|i: int| 0 <= i < k - 1 implies s.drop_first()[i].amount >= amount by {
            assert(s.drop_first()[i] == s[i + 1]);
        }
        if k - 1 < s.drop_first().len() {
            assert(s.drop_first()[k - 1] == s[k]);
        }
        lemma_amount_pos_unique(s.drop_first(), amount, k - 1);
    }
}

/// The owners of `s.insert(k, b)` are those of `s` and the owner of `b`.
pub proof fn lemma_insert_owners(s: Seq<Bond>, k: int, b: Bond)
    requires
        0 <= k <= s.len(),
    ensures
        forall|x: u64| has_owner(s.insert(k, b), x) <==> (has_owner(s, x) || x == b.owner),
{
    let t = s.insert(k, b);
    assert(t.len() == s.len() + 1);
    assert forall|x: u64| has_owner(t, x) <==> (has_owner(s, x) || x == b.owner) by {
        if has_owner(t, x) {
            let i = choose|i: int| 0 <= i < t.len() && #[trigger] t[i].owner == x;
            if i < k {
                assert(t[i] == s[i]);
            } else if i > k {
                assert(t[i] == s[i - 1]);
            }
        }
        if has_owner(s, x) {
            let i = choose|i: int| 0 <= i < s.len() && #[trigger] s[i].owner == x;
            if i < k {
                assert(t[i] == s[i]);
            } else {
                assert(t[i + 1] == s[i]);
            }
        }
        if x == b.owner {
            assert(t[k] == b);
        }
    }
}

/// Inserting a bond of a new owner keeps the owners distinct.
pub proof fn lemma_insert_distinct(s: Seq<Bond>, k: int, b: Bond)
    requires
        0 <= k <= s.len(),
        distinct_owners(s),
        !has_owner(s, b.owner),
    ensures
        distinct_owners(s.insert(k, b)),
{
    let t = s.insert(k, b);
    assert forall|i: int, j: int| 0 <= i < j < t.len() implies #[trigger] t[i].owner
        != #[trigger] t[j].owner by {
        if i < k && j < k {
            assert(t[i] == s[i] && t[j] == s[j]);
        } else if i < k && j == k {
            assert(t[i] == s[i] && t[j] == b);
        } else if i < k && j > k {
            assert(t[i] == s[i] && t[j] == s[j - 1]);
        } else if i == k {
            assert(t[i] == b && t[j] == s[j - 1]);
        } else {
            assert(t[i] == s[i - 1] && t[j] == s[j - 1]);
        }
    }
}

/// Inserting a bond at its place by amount keeps a sequence ordered greatest to least.
pub proof fn lemma_insert_by_amount_sorted(s: Seq<Bond>, b: Bond)
    requires
        sorted_by_amount(s),
    ensures
        sorted_by_amount(s.insert(amount_pos(s, b.amount) as int, b)),
{
    lemma_amount_pos(s, b.amount);
    let k = amount_pos(s, b.amount) as int;
    let t = s.insert(k, b);
    assert forall|i: int, j: int| 0 <= i < j < t.len() implies #[trigger] t[i].amount
        >= #[trigger] t[j].amount by {
        if i < k && j < k {
            assert(t[i] == s[i] && t[j] == s[j]);
        } else if i < k && j == k {
            assert(t[i] == s[i] && t[j] == b);
        } else if i < k && j > k {
            assert(t[i] == s[i] && t[j] == s[j - 1]);
        } else if i == k {
            assert(t[i] == b && t[j] == s[j - 1]);
            assert(s[k].amount < b.amount);
            if j - 1 > k {
                assert(s[k].amount >= s[j - 1].amount);
            }
        } else {
            assert(t[i] == s[i - 1] && t[j] == s[j - 1]);
        }
    }
}

/// Inserting a bond of a new owner at its place by owner keeps a sequence
/// ordered by owner.
pub proof fn lemma_insert_by_owner_sorted(s: Seq<Bond>, b: Bond)
    requires
        sorted_by_owner(s),
        !has_owner(s, b.owner),
    ensures
        sorted_by_owner(s.insert(owner_pos(s, b.owner) as int, b)),
{
    lemma_owner_pos(s, b.owner);
    let k = owner_pos(s, b.owner) as int;
    let t = s.insert(k, b);
    if k < s.len() {
        assert(s[k].owner != b.owner);
    }
    assert forall|i: int, j: int| 0 <= i < j < t.len() implies #[trigger] t[i].owner
        < #[trigger] t[j].owner by {
        if i < k && j < k {
            assert(t[i] == s[i] && t[j] == s[j]);
        } else if i < k && j == k {
            assert(t[i] == s[i] && t[j] == b);
        } else if i < k && j > k {
            assert(t[i] == s[i] && t[j] == s[j - 1]);
        } else if i == k {
            assert(t[i] == b && t[j] == s[j - 1]);
            if j - 1 > k {
                assert(s[k].owner < s[j - 1].owner);
            }
        } else {
            assert(t[i] == s[i - 1] && t[j] == s[j - 1]);
        }
    }
}

/// Dropping the last bond removes exactly its owner from a sequence of
/// distinct owners.
pub proof fn lemma_drop_last_owners(s: Seq<Bond>)
    requires
        s.len() > 0,
    ensures
        forall|x: u64| has_owner(s.drop_last(), x) ==> has_owner(s, x),
        forall|x: u64| has_owner(s, x) && x != s.last().owner ==> has_owner(s.drop_last(), x),
        distinct_owners(s) ==> distinct_owners(s.drop_last()),
        distinct_owners(s) ==> !has_owner(s.drop_last(), s.last().owner),
        sorted_by_amount(s) ==> sorted_by_amount(s.drop_last()),
{
    let d = s.drop_last();
    assert forall|x: u64| has_owner(d, x) implies has_owner(s, x) by {
        let i = choose|i: int| 0 <= i < d.len() && #[trigger] d[i].owner == x;
        assert(s[i] == d[i]);
    }
    assert forall|x: u64| has_owner(s, x) && x != s.last().owner implies has_owner(d, x) by {
        let i = choose|i: int| 0 <= i < s.len() && #[trigger] s[i].owner == x;
        assert(i < s.len() - 1);
        assert(d[i] == s[i]);
    }
    if distinct_owners(s) {
        assert forall|i: int, j: int| 0 <= i < j < d.len() implies #[trigger] d[i].owner
            != #[trigger] d[j].owner by {
            assert(d[i] == s[i] && d[j] == s[j]);
        }
        if has_owner(d, s.last().owner) {
            let i = choose|i: int| 0 <= i < d.len() && #[trigger] d[i].owner == s.last().owner;
            assert(d[i] == s[i]);
            assert(s[i].owner != s[s.len() - 1].owner);
        }
    }
    if sorted_by_amount(s) {
        assert forall|i: int, j: int| 0 <= i < j < d.len() implies #[trigger] d[i].amount
            >= #[trigger] d[j].amount by {
            assert(d[i] == s[i] && d[j] == s[j]);
        }
    }
}

/// What removing the bonds of `who` leaves.
pub proof fn lemma_without_owner(s: Seq<Bond>, who: u64)
    ensures
        forall|x: u64| has_owner(without_owner(s, who), x) <==> (has_owner(s, x) && x != who),
        sorted_by_owner(s) ==> sorted_by_owner(without_owner(s, who)),
        without_owner(s, who).len() <= s.len(),
    decreases s.len(),
{
    if s.len() > 0 {
        let d = s.drop_last();
        lemma_without_owner(d, who);
        lemma_drop_last_owners(s);
        let r = without_owner(d, who);
        let l = s.last();
        assert forall|x: u64| has_owner(without_owner(s, who), x) <==> (has_owner(s, x) && x
            != who) by {
            if l.owner != who {
                let t = r.push(l);
                if has_owner(t, x) {
                    let i = choose|i: int| 0 <= i < t.len() && #[trigger] t[i].owner == x;
                    if i < r.len() {
                        assert(t[i] == r[i]);
                        assert(has_owner(r, x));
                    } else {
                        assert(s[s.len() - 1] == l);
                    }
                }
                if has_owner(s, x) && x != who {
                    if x == l.owner {
                        assert(t[r.len() as int] == l);
                    } else {
                        assert(has_owner(d, x));
                        let i = choose|i: int| 0 <= i < r.len() && #[trigger] r[i].owner == x;
                        assert(t[i] == r[i]);
                    }
                }
            } else {
                if has_owner(s, x) && x != who {
                    assert(has_owner(d, x));
                }
            }
        }
        if sorted_by_owner(s) {
            assert(sorted_by_owner(d)) by {
                assert forall|i: int, j: int| 0 <= i < j < d.len() implies #[trigger] d[i].owner
                    < #[trigger] d[j].owner by {
                    assert(d[i] == s[i] && d[j] == s[j]);
                }
            }
            if l.owner != who {
                let t = r.push(l);
                assert forall|i: int, j: int| 0 <= i < j < t.len() implies #[trigger] t[i].owner
                    < #[trigger] t[j].owner by {
                    assert(t[i] == r[i]);
                    if j < r.len() {
                        assert(t[j] == r[j]);
                    } else {
                        assert(t[j] == l);
                        assert(has_owner(r, r[i].owner));
                        assert(has_owner(d, r[i].owner));
                        let k = choose|k: int| 0 <= k < d.len() && #[trigger] d[k].owner
                            == r[i].owner;
                        assert(d[k] == s[k]);
                        assert(s[k].owner < s[s.len() - 1].owner);
                    }
                }
            }
        }
    }
}


/// A sum of amounts is never negative.
pub proof fn lemma_sum_nonneg(s: Seq<Bond>)
    ensures
        sum_amounts(s) >= 0,
    decreases s.len(),
{
    if s.len() > 0 {
        lemma_sum_nonneg(s.drop_last());
    }
}

/// The sum of a concatenation is the sum of the sums.
pub proof fn lemma_sum_append(a: Seq<Bond>, b: Seq<Bond>)
    ensures
        sum_amounts(a + b) == sum_amounts(a) + sum_amounts(b),
    decreases b.len(),
{
    if b.len() == 0 {
        assert(a + b =~= a);
    } else {
        lemma_sum_append(a, b.drop_last());
        assert((a + b).drop_last() =~= a + b.drop_last());
        assert((a + b).last() == b.last());
    }
}

/// Inserting a bond anywhere adds its amount to the sum.
pub proof fn lemma_sum_insert(s: Seq<Bond>, k: int, b: Bond)
    requires
        0 <= k <= s.len(),
    ensures
        sum_amounts(s.insert(k, b)) == sum_amounts(s) + b.amount,
{
    let pre = s.subrange(0, k);
    let post = s.subrange(k, s.len() as int);
    assert(s.insert(k, b) =~= pre.push(b) + post);
    assert(s =~= pre + post);
    lemma_sum_append(pre.push(b), post);
    lemma_sum_append(pre, post);
    assert(pre.push(b).drop_last() =~= pre);
}

/// Removing the only bond of `who` from a sequence ordered by owner takes
/// its amount off the sum.
pub proof fn lemma_sum_without_owner(s: Seq<Bond>, who: u64)
    requires
        sorted_by_owner(s),
    ensures
        sum_amounts(without_owner(s, who)) == sum_amounts(s) - match last_amount_of(s, who) {
            Some(a) => a as int,
            None => 0,
        },
    decreases s.len(),
{
    if s.len() > 0 {
        let d = s.drop_last();
        assert(sorted_by_owner(d)) by {
            assert forall|i: int, j: int| 0 <= i < j < d.len() implies #[trigger] d[i].owner
                < #[trigger] d[j].owner by {
                assert(d[i] == s[i] && d[j] == s[j]);
            }
        }
        lemma_sum_without_owner(d, who);
        if s.last().owner != who {
            let r = without_owner(d, who);
            assert(r.push(s.last()).drop_last() =~= r);
        } else {
            lemma_last_amount_none(d, who);
            if has_owner(d, who) {
                let i = choose|i: int| 0 <= i < d.len() && #[trigger] d[i].owner == who;
                assert(d[i] == s[i]);
                assert(s[i].owner < s[s.len() - 1].owner);
            }
        }
    }
}

/// `last_amount_of` finds nothing exactly when `who` owns no bond.
pub proof fn lemma_last_amount_none(s: Seq<Bond>, who: u64)
    ensures
        last_amount_of(s, who) is None <==> !has_owner(s, who),
    decreases s.len(),
{
    if s.len() > 0 {
        lemma_last_amount_none(s.drop_last(), who);
        lemma_drop_last_owners(s);
        if s.last().owner == who {
            assert(s[s.len() - 1].owner == who);
        }
    }
}

/// The amount that `last_amount_of` finds is the amount of a bond of `s`,
/// so it is no more than the sum.
pub proof fn lemma_last_amount_bounded(s: Seq<Bond>, who: u64)
    ensures
        last_amount_of(s, who) matches Some(a) ==> a <= sum_amounts(s),
    decreases s.len(),
{
    if s.len() > 0 {
        lemma_last_amount_bounded(s.drop_last(), who);
        lemma_sum_nonneg(s.drop_last());
    }
}


/// The bonds of `s.insert(k, b)` are those of `s` and `b`.
pub proof fn lemma_insert_contains(s: Seq<Bond>, k: int, b: Bond)
    requires
        0 <= k <= s.len(),
    ensures
        forall|y: Bond| s.insert(k, b).contains(y) <==> (s.contains(y) || y == b),
{
    let t = s.insert(k, b);
    assert forall|y: Bond| t.contains(y) <==> (s.contains(y) || y == b) by {
        if t.contains(y) {
            let i = choose|i: int| 0 <= i < t.len() && t[i] == y;
            if i < k {
                assert(s[i] == y);
            } else if i > k {
                assert(s[i - 1] == y);
            }
        }
        if s.contains(y) {
            let i = choose|i: int| 0 <= i < s.len() && s[i] == y;
            if i < k {
                assert(t[i] == y);
            } else {
                assert(t[i + 1] == y);
            }
        }
        if y == b {
            assert(t[k] == b);
        }
    }
}

/// The bonds of `s.drop_last()` are bonds of `s`.
pub proof fn lemma_drop_last_contains(s: Seq<Bond>)
    requires
        s.len() > 0,
    ensures
        forall|y: Bond| s.drop_last().contains(y) ==> s.contains(y),
{
    assert forall|y: Bond| s.drop_last().contains(y) implies s.contains(y) by {
        let i = choose|i: int| 0 <= i < s.drop_last().len() && s.drop_last()[i] == y;
        assert(s[i] == y);
    }
}

/// With distinct owners, the bonds of `s.drop_last()` are exactly the bonds
/// of `s` other than its last.
pub proof fn lemma_drop_last_contains_exact(s: Seq<Bond>)
    requires
        s.len() > 0,
        distinct_owners(s),
    ensures
        forall|y: Bond| s.drop_last().contains(y) <==> (s.contains(y) && y != s.last()),
{
    let d = s.drop_last();
    assert forall|y: Bond| d.contains(y) <==> (s.contains(y) && y != s.last()) by {
        if d.contains(y) {
            let i = choose|i: int| 0 <= i < d.len() && d[i] == y;
            assert(s[i] == y);
            if y == s.last() {
                assert(s[i].owner != s[s.len() - 1].owner);
            }
        }
        if s.contains(y) && y != s.last() {
            let i = choose|i: int| 0 <= i < s.len() && s[i] == y;
            assert(i != s.len() - 1);
            assert(d[i] == y);
        }
    }
}

/// In a sequence ordered greatest to least every bond is at least the last.
pub proof fn lemma_sorted_above_last(s: Seq<Bond>)
    requires
        sorted_by_amount(s),
        s.len() > 0,
    ensures
        forall|y: Bond| s.contains(y) ==> y.amount >= s.last().amount,
{
    assert forall|y: Bond| s.contains(y) implies y.amount >= s.last().amount by {
        let i = choose|i: int| 0 <= i < s.len() && s[i] == y;
        if i < s.len() - 1 {
            assert(s[i].amount >= s[s.len() - 1].amount);
        }
    }
}


/// The bonds left after removing those of `who` are the other bonds.
pub proof fn lemma_without_owner_contains(s: Seq<Bond>, who: u64)
    ensures
        forall|y: Bond| without_owner(s, who).contains(y) <==> (s.contains(y) && y.owner != who),
    decreases s.len(),
{
    if s.len() > 0 {
        let d = s.drop_last();
        lemma_without_owner_contains(d, who);
        lemma_drop_last_contains(s);
        let r = without_owner(d, who);
        let l = s.last();
        assert forall|y: Bond| s.contains(y) <==> (d.contains(y) || y == l) by {
            if s.contains(y) && y != l {
                let i = choose|i: int| 0 <= i < s.len() && s[i] == y;
                assert(i < s.len() - 1);
                assert(d[i] == y);
            }
            if y == l {
                assert(s[s.len() - 1] == l);
            }
        }
        if l.owner != who {
            let t = r.push(l);
            assert(without_owner(s, who) == t);
            assert forall|y: Bond| t.contains(y) <==> (r.contains(y) || y == l) by {
                if t.contains(y) {
                    let i = choose|i: int| 0 <= i < t.len() && t[i] == y;
                    if i < r.len() {
                        assert(r[i] == y);
                    }
                }
                if r.contains(y) {
                    let i = choose|i: int| 0 <= i < r.len() && r[i] == y;
                    assert(t[i] == y);
                }
                if y == l {
                    assert(t[r.len() as int] == l);
                }
            }
            assert forall|y: Bond| without_owner(s, who).contains(y) <==> (s.contains(y) && y.owner != who) by {
                assert(r.contains(y) <==> (d.contains(y) && y.owner != who));
                assert(s.contains(y) <==> (d.contains(y) || y == l));
            }
        } else {
            assert(without_owner(s, who) == r);
            assert forall|y: Bond| without_owner(s, who).contains(y) <==> (s.contains(y) && y.owner != who) by {
                assert(r.contains(y) <==> (d.contains(y) && y.owner != who));
                assert(s.contains(y) <==> (d.contains(y) || y == l));
            }
        }
    }
}

/// In a sequence ordered by owner, the amount found for an owner is that of
/// its bond.
pub proof fn lemma_last_amount_of_bond(s: Seq<Bond>, b: Bond)
    requires
        sorted_by_owner(s),
        s.contains(b),
    ensures
        last_amount_of(s, b.owner) == Some(b.amount),
    decreases s.len(),
{
    let d = s.drop_last();
    let i = choose|i: int| 0 <= i < s.len() && s[i] == b;
    if s.last().owner != b.owner {
        assert(i < s.len() - 1);
        assert(d[i] == b);
        assert(sorted_by_owner(d)) by {
            assert forall|i1: int, j1: int| 0 <= i1 < j1 < d.len() implies #[trigger] d[i1].owner
                < #[trigger] d[j1].owner by {
                assert(d[i1] == s[i1] && d[j1] == s[j1]);
            }
        }
        lemma_last_amount_of_bond(d, b);
    } else {
        if i < s.len() - 1 {
            assert(s[i].owner < s[s.len() - 1].owner);
        }
        assert(s[s.len() - 1] == b);
    }
}


/// A bond of `s` makes its owner an owner in `s`.
pub proof fn lemma_contains_has_owner(s: Seq<Bond>)
    ensures
        forall|y: Bond| s.contains(y) ==> has_owner(s, y.owner),
{
    assert forall|y: Bond| s.contains(y) implies has_owner(s, y.owner) by {
        let i = choose|i: int| 0 <= i < s.len() && s[i] == y;
        assert(s[i].owner == y.owner);
    }
}

} // verus!
