//! Eras and growth periods: the record of what each run of paid-out eras
//! staked, earned and scored.
use vstd::prelude::*;

verus! {

/// The points that a collator scored.
#[derive(Clone, Copy, PartialEq, Eq, Structural, Debug)]
pub struct CollatorScore {
    pub collator: u64,
    pub value: u32,
}

/// The current era, the block it started at, and its length in blocks.
#[derive(Clone, Copy, PartialEq, Eq, Structural, Debug)]
pub struct EraInfo {
    pub current: u32,
    pub first: u64,
    pub length: u32,
}

/// The growth period being filled: its index and the paid-out era it started with.
#[derive(Clone, Copy, PartialEq, Eq, Structural, Debug)]
pub struct GrowthPeriodInfo {
    pub start_era_index: u32,
    pub index: u32,
}

/// What a growth period accumulated over its paid-out eras.
pub struct GrowthInfo {
    pub number_of_accumulations: u32,
    pub total_stake_accumulated: u128,
    pub total_staker_reward: u128,
    pub total_points: u32,
    pub collator_scores: Vec<CollatorScore>,
}

/// The mathematical value of a [`GrowthInfo`].
pub struct GrowthInfoView {
    pub number_of_accumulations: u32,
    pub total_stake_accumulated: u128,
    pub total_staker_reward: u128,
    pub total_points: u32,
    pub collator_scores: Seq<CollatorScore>,
}

impl View for GrowthInfo {
    type V = GrowthInfoView;

    open spec fn view(&self) -> GrowthInfoView {
        GrowthInfoView {
            number_of_accumulations: self.number_of_accumulations,
            total_stake_accumulated: self.total_stake_accumulated,
            total_staker_reward: self.total_staker_reward,
            total_points: self.total_points,
            collator_scores: self.collator_scores@,
        }
    }
}

/// An empty growth record that counts `number_of_accumulations` eras.
pub open spec fn new_growth(number_of_accumulations: u32) -> GrowthInfoView {
    GrowthInfoView {
        number_of_accumulations,
        total_stake_accumulated: 0,
        total_staker_reward: 0,
        total_points: 0,
        collator_scores: Seq::empty(),
    }
}

/// The era that starts at block `now`, if `now` ends the era `era`.
pub open spec fn era_should_update(era: EraInfo, now: u64) -> bool {
    now.saturating_sub(era.first) >= era.length
}

/// The era after `era`, started at block `now`.
pub open spec fn next_era(era: EraInfo, now: u64) -> EraInfo {
    EraInfo { current: era.current.saturating_add(1), first: now, ..era }
}

/// The number of leading scores of `s` that are not `who`'s.
pub open spec fn score_pos(s: Seq<CollatorScore>, who: u64) -> nat
    decreases s.len(),
{
    if s.len() == 0 {
        0
    } else if s[0].collator != who {
        1 + score_pos(s.drop_first(), who)
    } else {
        0
    }
}

/// `s` with `score` added: to the first score of the same collator, or as a
/// new last score.
pub open spec fn add_score(s: Seq<CollatorScore>, score: CollatorScore) -> Seq<CollatorScore> {
    let k = score_pos(s, score.collator);
    if k < s.len() {
        s.update(k as int, CollatorScore { collator: score.collator, value: s[k as int].value.saturating_add(score.value) })
    } else {
        s.push(score)
    }
}

/// `acc` with every score of `scores` added, in order.
pub open spec fn merge_scores(acc: Seq<CollatorScore>, scores: Seq<CollatorScore>) -> Seq<CollatorScore>
    decreases scores.len(),
{
    if scores.len() == 0 {
        acc
    } else {
        add_score(merge_scores(acc, scores.drop_last()), scores.last())
    }
}

/// The sum of the values of `s`, saturated at `u32::MAX` at each step.
pub open spec fn total_score(s: Seq<CollatorScore>) -> u32
    decreases s.len(),
{
    if s.len() == 0 {
        0
    } else {
        total_score(s.drop_last()).saturating_add(s.last().value)
    }
}

/// A payout of era `payout_era` opens a new growth period when none was
/// opened yet or when the current one has covered its eras.
pub open spec fn opens_growth_period(info: GrowthPeriodInfo, payout_era: u32, eras_per_growth_period: u32) -> bool {
    info.index == 0 || payout_era >= info.start_era_index.saturating_add(eras_per_growth_period)
}

/// The growth record that opens with one payout.
pub open spec fn first_growth(stake: u128, reward: u128, points: u32, scores: Seq<CollatorScore>) -> GrowthInfoView {
    GrowthInfoView {
        number_of_accumulations: 1,
        total_stake_accumulated: stake,
        total_staker_reward: reward,
        total_points: points,
        collator_scores: scores,
    }
}

/// `g` with one more payout accumulated.
pub open spec fn accumulate_growth(g: GrowthInfoView, stake: u128, reward: u128, points: u32, scores: Seq<CollatorScore>) -> GrowthInfoView {
    GrowthInfoView {
        number_of_accumulations: g.number_of_accumulations.saturating_add(1),
        total_stake_accumulated: g.total_stake_accumulated.saturating_add(stake),
        total_staker_reward: g.total_staker_reward.saturating_add(reward),
        total_points: g.total_points.saturating_add(points),
        collator_scores: merge_scores(g.collator_scores, scores),
    }
}

/// `c` has a score in `s`.
pub open spec fn has_score(s: Seq<CollatorScore>, c: u64) -> bool {
    exists|i: int| 0 <= i < s.len() && #[trigger] s[i].collator == c
}

/// No collator has two scores in `s`.
pub open spec fn one_score_each(s: Seq<CollatorScore>) -> bool {
    forall|i: int, j: int| 0 <= i < j < s.len() ==> #[trigger] s[i].collator != #[trigger] s[j].collator
}

/// The points of `c` in `s`: the sum of the values of its scores.
pub open spec fn points_for(s: Seq<CollatorScore>, c: u64) -> int
    decreases s.len(),
{
    if s.len() == 0 {
        0
    } else {
        points_for(s.drop_last(), c) + if s.last().collator == c {
            s.last().value as int
        } else {
            0
        }
    }
}

/// The sum of all the values of `s`.
pub open spec fn points_sum(s: Seq<CollatorScore>) -> int
    decreases s.len(),
{
    if s.len() == 0 {
        0
    } else {
        points_sum(s.drop_last()) + s.last().value
    }
}

proof fn lemma_score_pos(s: Seq<CollatorScore>, who: u64)
    ensures
        score_pos(s, who) <= s.len(),
        forall|i: int| 0 <= i < score_pos(s, who) ==> s[i].collator != who,
        score_pos(s, who) < s.len() ==> s[score_pos(s, who) as int].collator == who,
    decreases s.len(),
{
    if s.len() > 0 && s[0].collator != who {
        lemma_score_pos(s.drop_first(), who);
        assert forall|i: int| 0 <= i < score_pos(s, who) implies s[i].collator != who by {
            if i > 0 {
                assert(s[i] == s.drop_first()[i - 1]);
            }
        }
        if score_pos(s, who) < s.len() {
            assert(s[score_pos(s, who) as int] == s.drop_first()[score_pos(s.drop_first(), who) as int]);
        }
    }
}

proof fn lemma_score_pos_unique(s: Seq<CollatorScore>, who: u64, k: int)
    requires
        0 <= k <= s.len(),
        forall|i: int| 0 <= i < k ==> s[i].collator != who,
        k < s.len() ==> s[k].collator == who,
    ensures
        score_pos(s, who) == k,
    decreases k,
{
    if k > 0 {
        assert forall|i: int| 0 <= i < k - 1 implies s.drop_first()[i].collator != who by {
            assert(s.drop_first()[i] == s[i + 1]);
        }
        if k - 1 < s.drop_first().len() {
            assert(s.drop_first()[k - 1] == s[k]);
        }
        lemma_score_pos_unique(s.drop_first(), who, k - 1);
    }
}

/// Adds `score` to the first score of the same collator in `scores`, or
/// appends it.
pub fn add_score_to(scores: &mut Vec<CollatorScore>, score: CollatorScore)
    ensures
        final(scores)@ == add_score(old(scores)@, score),
{
    let n = scores.len();
    let mut i: usize = 0;
    while i < n && scores[i].collator != score.collator
        invariant
            n == scores@.len(),
            i <= n,
            forall|j: int| 0 <= j < i ==> scores@[j].collator != score.collator,
        decreases n - i,
    {
        i = i + 1;
    }
    proof {
        lemma_score_pos_unique(scores@, score.collator, i as int);
    }
    if i < n {
        let v = scores[i].value.saturating_add(score.value);
        scores.set(i, CollatorScore { collator: score.collator, value: v });
    } else {
        scores.push(score);
    }
}

/// Adds every score of `new_scores` to `scores`, in order.
pub fn merge_scores_into(scores: &mut Vec<CollatorScore>, new_scores: &Vec<CollatorScore>)
    ensures
        final(scores)@ == merge_scores(old(scores)@, new_scores@),
{
    let ghost acc = scores@;
    let n = new_scores.len();
    let mut i: usize = 0;
    while i < n
        invariant
            n == new_scores@.len(),
            i <= n,
            scores@ == merge_scores(acc, new_scores@.take(i as int)),
        decreases n - i,
    {
        assert(new_scores@.take(i + 1).drop_last() =~= new_scores@.take(i as int));
        add_score_to(scores, new_scores[i]);
        i = i + 1;
    }
    assert(new_scores@.take(n as int) =~= new_scores@);
}

/// The sum of the values of `scores`, saturated at each step.
pub fn sum_scores(scores: &Vec<CollatorScore>) -> (r: u32)
    ensures
        r == total_score(scores@),
{
    let n = scores.len();
    let mut t: u32 = 0;
    let mut i: usize = 0;
    while i < n
        invariant
            n == scores@.len(),
            i <= n,
            t == total_score(scores@.take(i as int)),
        decreases n - i,
    {
        assert(scores@.take(i + 1).drop_last() =~= scores@.take(i as int));
        t = t.saturating_add(scores[i].value);
        i = i + 1;
    }
    assert(scores@.take(n as int) =~= scores@);
    t
}

/// A copy of `scores`.
pub fn copy_scores(scores: &Vec<CollatorScore>) -> (r: Vec<CollatorScore>)
    ensures
        r@ == scores@,
{
    let mut v: Vec<CollatorScore> = Vec::new();
    let n = scores.len();
    let mut i: usize = 0;
    while i < n
        invariant
            n == scores@.len(),
            i <= n,
            v@ == scores@.take(i as int),
        decreases n - i,
    {
        v.push(scores[i]);
        i = i + 1;
        assert(v@ =~= scores@.take(i as int));
    }
    assert(v@ =~= scores@);
    v
}

impl GrowthInfo {
    /// An empty growth record that counts `number_of_accumulations` eras.
    pub fn new(number_of_accumulations: u32) -> (r: GrowthInfo)
        ensures
            r@ == new_growth(number_of_accumulations),
    {
        GrowthInfo {
            number_of_accumulations,
            total_stake_accumulated: 0,
            total_staker_reward: 0,
            total_points: 0,
            collator_scores: Vec::new(),
        }
    }

    /// A copy of this record.
    pub fn copy(&self) -> (r: GrowthInfo)
        ensures
            r@ == self@,
    {
        GrowthInfo {
            number_of_accumulations: self.number_of_accumulations,
            total_stake_accumulated: self.total_stake_accumulated,
            total_staker_reward: self.total_staker_reward,
            total_points: self.total_points,
            collator_scores: copy_scores(&self.collator_scores),
        }
    }
}

impl EraInfo {
    /// Whether block `now` ends this era.
    pub fn should_update(&self, now: u64) -> (r: bool)
        ensures
            r == era_should_update(*self, now),
    {
        now.saturating_sub(self.first) >= self.length as u64
    }
}


/// Points are never negative, and no collator has more than all of them.
pub proof fn lemma_points_bounds(s: Seq<CollatorScore>, c: u64)
    ensures
        0 <= points_for(s, c) <= points_sum(s),
    decreases s.len(),
{
    if s.len() > 0 {
        lemma_points_bounds(s.drop_last(), c);
    }
}

/// With one score per collator, the points of `c` are the value of its
/// score, or none.
pub proof fn lemma_points_of_entry(s: Seq<CollatorScore>, c: u64)
    requires
        one_score_each(s),
    ensures
        has_score(s, c) ==> score_pos(s, c) < s.len() && points_for(s, c) == s[score_pos(s, c) as int].value,
        !has_score(s, c) ==> points_for(s, c) == 0,
    decreases s.len(),
{
    lemma_score_pos(s, c);
    if s.len() > 0 {
        let d = s.drop_last();
        assert(one_score_each(d)) by {
            assert forall|i: int, j: int| 0 <= i < j < d.len() implies #[trigger] d[i].collator
                != #[trigger] d[j].collator by {
                assert(d[i] == s[i] && d[j] == s[j]);
            }
        }
        lemma_points_of_entry(d, c);
        lemma_score_pos(d, c);
        if s.last().collator == c {
            assert(s[s.len() - 1].collator == c);
            if has_score(d, c) {
                let k = score_pos(d, c) as int;
                assert(d[k] == s[k]);
                assert(s[k].collator != s[s.len() - 1].collator);
            }
            assert(!has_score(d, c)) by {
                if has_score(d, c) {
                    let i = choose|i: int| 0 <= i < d.len() && #[trigger] d[i].collator == c;
                    assert(d[i] == s[i]);
                    assert(s[i].collator != s[s.len() - 1].collator);
                }
            }
            assert forall|i: int| 0 <= i < s.len() - 1 implies s[i].collator != c by {
                assert(d[i] == s[i]);
            }
            lemma_score_pos_unique(s, c, s.len() - 1);
        } else {
            if has_score(s, c) {
                let i = choose|i: int| 0 <= i < s.len() && #[trigger] s[i].collator == c;
                assert(i < s.len() - 1);
                assert(d[i] == s[i]);
                let k = score_pos(d, c) as int;
                assert(d[k] == s[k]);
                assert forall|j: int| 0 <= j < k implies s[j].collator != c by {
                    assert(d[j] == s[j]);
                }
                lemma_score_pos_unique(s, c, k);
            } else {
                assert(!has_score(d, c)) by {
                    if has_score(d, c) {
                        let i = choose|i: int| 0 <= i < d.len() && #[trigger] d[i].collator == c;
                        assert(d[i] == s[i]);
                    }
                }
            }
        }
    } else {
        assert(!has_score(s, c));
    }
}

/// Changing the value at `k` changes the sum by the difference.
pub proof fn lemma_points_sum_update(s: Seq<CollatorScore>, k: int, x: CollatorScore)
    requires
        0 <= k < s.len(),
    ensures
        points_sum(s.update(k, x)) == points_sum(s) - s[k].value + x.value,
    decreases s.len(),
{
    let u = s.update(k, x);
    if k == s.len() - 1 {
        assert(u.drop_last() =~= s.drop_last());
    } else {
        assert(u.drop_last() =~= s.drop_last().update(k, x));
        lemma_points_sum_update(s.drop_last(), k, x);
    }
}

/// The saturated total of `s` is its sum while that fits in a `u32`.
pub proof fn lemma_total_score(s: Seq<CollatorScore>)
    ensures
        points_sum(s) <= u32::MAX ==> total_score(s) == points_sum(s),
        points_sum(s) >= 0,
    decreases s.len(),
{
    if s.len() > 0 {
        lemma_total_score(s.drop_last());
    }
}

/// Awarding `x` keeps one score per collator, gives `x`'s collator a score
/// holding its points plus `x`'s value (saturated), and leaves every other
/// collator's points as they were.
pub proof fn lemma_add_score(s: Seq<CollatorScore>, x: CollatorScore)
    requires
        one_score_each(s),
    ensures
        one_score_each(add_score(s, x)),
        forall|c: u64| #[trigger] has_score(add_score(s, x), c) <==> (has_score(s, c) || c == x.collator),
        forall|c: u64| c != x.collator ==> #[trigger] points_for(add_score(s, x), c) == points_for(s, c),
        points_for(add_score(s, x), x.collator) == if points_for(s, x.collator) + x.value <= u32::MAX {
            points_for(s, x.collator) + x.value
        } else {
            u32::MAX as int
        },
        points_for(s, x.collator) + x.value <= u32::MAX ==> points_sum(add_score(s, x)) == points_sum(s)
            + x.value,
{
    let a = add_score(s, x);
    let k = score_pos(s, x.collator);
    lemma_score_pos(s, x.collator);
    lemma_points_of_entry(s, x.collator);
    if k < s.len() {
        assert(has_score(s, x.collator));
        assert(one_score_each(a)) by {
            assert forall|i: int, j: int| 0 <= i < j < a.len() implies #[trigger] a[i].collator
                != #[trigger] a[j].collator by {
                assert(a[i].collator == s[i].collator && a[j].collator == s[j].collator);
            }
        }
        assert forall|c: u64| #[trigger] has_score(a, c) <==> (has_score(s, c) || c == x.collator) by {
            if has_score(s, c) {
                let i = choose|i: int| 0 <= i < s.len() && #[trigger] s[i].collator == c;
                assert(a[i].collator == c);
            }
            if has_score(a, c) {
                let i = choose|i: int| 0 <= i < a.len() && #[trigger] a[i].collator == c;
                assert(s[i].collator == c);
            }
            if c == x.collator {
                assert(a[k as int].collator == c);
            }
        }
        lemma_points_sum_update(s, k as int, a[k as int]);
    } else {
        assert(!has_score(s, x.collator));
        assert(a.drop_last() =~= s);
        assert(one_score_each(a)) by {
            assert forall|i: int, j: int| 0 <= i < j < a.len() implies #[trigger] a[i].collator
                != #[trigger] a[j].collator by {
                if j == a.len() - 1 {
                    assert(a[i] == s[i]);
                } else {
                    assert(a[i] == s[i] && a[j] == s[j]);
                }
            }
        }
        assert forall|c: u64| #[trigger] has_score(a, c) <==> (has_score(s, c) || c == x.collator) by {
            if has_score(s, c) {
                let i = choose|i: int| 0 <= i < s.len() && #[trigger] s[i].collator == c;
                assert(a[i].collator == c);
            }
            if has_score(a, c) {
                let i = choose|i: int| 0 <= i < a.len() && #[trigger] a[i].collator == c;
                if i < s.len() {
                    assert(s[i].collator == c);
                }
            }
            if c == x.collator {
                assert(a[a.len() - 1].collator == c);
            }
        }
    }
    lemma_points_of_entry(a, x.collator);
    assert forall|c: u64| c != x.collator implies #[trigger] points_for(a, c) == points_for(s, c) by {
        lemma_points_of_entry(s, c);
        lemma_points_of_entry(a, c);
        lemma_score_pos(s, c);
        lemma_score_pos(a, c);
        if has_score(s, c) {
            let j = score_pos(s, c) as int;
            assert(a[j] == s[j]);
            assert forall|i: int| 0 <= i < j implies a[i].collator != c by {
                assert(a[i].collator == s[i].collator);
            }
            lemma_score_pos_unique(a, c, j);
        }
    }
    lemma_score_pos(a, x.collator);
    assert forall|i: int| 0 <= i < k implies a[i].collator != x.collator by {
        assert(a[i].collator == s[i].collator);
    }
    lemma_score_pos_unique(a, x.collator, k as int);
    lemma_points_bounds(s, x.collator);
}

/// Merging `scores` into `acc` keeps one score per collator, and every
/// collator with a score in either has one in the result; while the points
/// fit in a `u32`, each collator's points and the sum add up.
pub proof fn lemma_merge_scores(acc: Seq<CollatorScore>, scores: Seq<CollatorScore>)
    requires
        one_score_each(acc),
    ensures
        one_score_each(merge_scores(acc, scores)),
        forall|c: u64| #[trigger] has_score(merge_scores(acc, scores), c) <==> (has_score(acc, c) || has_score(scores, c)),
        points_sum(acc) + points_sum(scores) <= u32::MAX ==> points_sum(merge_scores(acc, scores)) == points_sum(acc)
            + points_sum(scores),
        points_sum(acc) + points_sum(scores) <= u32::MAX ==> forall|c: u64|
            #[trigger] points_for(merge_scores(acc, scores), c) == points_for(acc, c) + points_for(scores, c),
    decreases scores.len(),
{
    lemma_total_score(acc);
    lemma_total_score(scores);
    if scores.len() > 0 {
        let d = scores.drop_last();
        let x = scores.last();
        lemma_merge_scores(acc, d);
        let m = merge_scores(acc, d);
        lemma_add_score(m, x);
        lemma_total_score(d);
        assert forall|c: u64| #[trigger] has_score(scores, c) <==> (has_score(d, c) || c == x.collator) by {
            if has_score(scores, c) {
                let i = choose|i: int| 0 <= i < scores.len() && #[trigger] scores[i].collator == c;
                if i < d.len() {
                    assert(d[i] == scores[i]);
                }
            }
            if has_score(d, c) {
                let i = choose|i: int| 0 <= i < d.len() && #[trigger] d[i].collator == c;
                assert(d[i] == scores[i]);
            }
            if c == x.collator {
                assert(scores[scores.len() - 1].collator == c);
            }
        }
        if points_sum(acc) + points_sum(scores) <= u32::MAX {
            lemma_points_bounds(m, x.collator);
            assert forall|c: u64| #[trigger] points_for(merge_scores(acc, scores), c) == points_for(acc, c)
                + points_for(scores, c) by {
                assert(points_for(m, c) == points_for(acc, c) + points_for(d, c));
            }
        }
    } else {
        assert forall|c: u64| !has_score(scores, c) by {}
    }
}

} // verus!
