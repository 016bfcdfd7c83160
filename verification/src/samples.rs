//! Counting the observations behind a moment statistic.
//!
//! Skewness and kurtosis are derived from running sums of powers of the
//! observed values. Which rows enter those sums, which partial states are
//! added, and how many observations stand behind the sums is decided here,
//! on integers alone.

use vstd::prelude::*;

verus! {

/// The positions of the `true` entries of `flags`, in ascending order.
pub open spec fn selected_rows(flags: Seq<bool>) -> Seq<int>
    decreases flags.len(),
{
    if flags.len() == 0 {
        Seq::empty()
    } else if flags.last() {
        selected_rows(flags.drop_last()).push(flags.len() - 1)
    } else {
        selected_rows(flags.drop_last())
    }
}

/// Which partial states hold at least one observation.
pub open spec fn contributing(counts: Seq<u64>) -> Seq<bool> {
    counts.map_values(|c: u64| c != 0)
}

/// The sum of a run of sample counts.
pub open spec fn total_count(counts: Seq<u64>) -> nat
    decreases counts.len(),
{
    if counts.len() == 0 {
        0
    } else {
        total_count(counts.drop_last()) + counts.last() as nat
    }
}

/// The total over two runs laid end to end is the sum of the two totals.
pub proof fn lemma_total_count_concat(a: Seq<u64>, b: Seq<u64>)
    ensures
        total_count(a + b) == total_count(a) + total_count(b),
    decreases b.len(),
{
    if b.len() == 0 {
        assert(a + b == a);
    } else {
        lemma_total_count_concat(a, b.drop_last());
        assert((a + b).drop_last() == a + b.drop_last());
    }
}

/// The total of the first `n` counts, and how the next count extends it. No
/// prefix has a larger total than the whole run.
pub proof fn lemma_total_count_prefix(counts: Seq<u64>, n: int)
    requires
        0 <= n < counts.len(),
    ensures
        total_count(counts.take(n + 1)) == total_count(counts.take(n)) + counts[n],
        total_count(counts.take(n + 1)) <= total_count(counts),
{
    assert(counts.take(n + 1).drop_last() == counts.take(n));
    assert(counts == counts.take(n + 1) + counts.skip(n + 1));
    lemma_total_count_concat(counts.take(n + 1), counts.skip(n + 1));
}

/// Adds up `counts`, or gives `None` when the sum does not fit.
pub fn checked_total(counts: &[u64]) -> (total: Option<u64>)
    ensures
        total is Some <==> total_count(counts@) <= u64::MAX,
        total matches Some(t) ==> t == total_count(counts@),
{
    let mut sum: u64 = 0;
    let mut i: usize = 0;
    while i < counts.len()
        invariant
            i <= counts.len(),
            sum == total_count(counts@.take(i as int)),
        decreases counts.len() - i,
    {
        proof {
            lemma_total_count_prefix(counts@, i as int);
        }
        let c: u64 = counts[i];
        if c > u64::MAX - sum {
            return None;
        }
        sum = sum + c;
        i = i + 1;
    }
    proof {
        assert(counts@.take(i as int) == counts@);
    }
    Some(sum)
}

/// `selected_rows` lists exactly the flagged positions, each once, in order.
pub proof fn lemma_selected_rows(flags: Seq<bool>)
    ensures
        selected_rows(flags).len() <= flags.len(),
        forall|k: int|
            0 <= k < selected_rows(flags).len() ==> 0 <= #[trigger] selected_rows(flags)[k]
                < flags.len() && flags[selected_rows(flags)[k]],
        forall|j: int, k: int|
            0 <= j < k < selected_rows(flags).len() ==> selected_rows(flags)[j] < selected_rows(
                flags,
            )[k],
        forall|i: int| 0 <= i < flags.len() && flags[i] ==> selected_rows(flags).contains(i),
    decreases flags.len(),
{
    if flags.len() > 0 {
        let front = flags.drop_last();
        lemma_selected_rows(front);
        let rows = selected_rows(flags);
        let before = selected_rows(front);
        assert forall|i: int| 0 <= i < flags.len() && flags[i] implies rows.contains(i) by {
            if i < front.len() {
                assert(front[i]);
                let k = choose|k: int| 0 <= k < before.len() && before[k] == i;
                assert(rows[k] == i);
            } else {
                assert(rows[rows.len() - 1] == i);
            }
        }
    }
}

/// Rows selected from two columns laid end to end: those of the first, then
/// those of the second moved past the first.
pub proof fn lemma_selected_rows_concat(a: Seq<bool>, b: Seq<bool>)
    ensures
        selected_rows(a + b) == selected_rows(a) + selected_rows(b).map_values(
            |r: int| a.len() + r,
        ),
    decreases b.len(),
{
    if b.len() == 0 {
        assert(a + b == a);
    } else {
        lemma_selected_rows_concat(a, b.drop_last());
        assert((a + b).drop_last() == a + b.drop_last());
    }
}

/// A column of nulls selects no row.
pub proof fn lemma_nulls_select_nothing(present: Seq<bool>)
    requires
        forall|i: int| 0 <= i < present.len() ==> !present[i],
    ensures
        selected_rows(present) == Seq::<int>::empty(),
    decreases present.len(),
{
    if present.len() > 0 {
        lemma_nulls_select_nothing(present.drop_last());
    }
}

/// Three partitions, each counted by its own accumulator and the three
/// counts then merged, come to what one accumulator counts that takes in all
/// rows.
pub proof fn lemma_partitions_merge(
    g1: Seq<bool>,
    g2: Seq<bool>,
    g3: Seq<bool>,
    counts: Seq<u64>,
)
    requires
        counts.len() == 3,
        counts[0] == selected_rows(g1).len(),
        counts[1] == selected_rows(g2).len(),
        counts[2] == selected_rows(g3).len(),
    ensures
        total_count(counts) == selected_rows(g1 + g2 + g3).len(),
{
    lemma_selected_rows_concat(g1, g2);
    lemma_selected_rows_concat(g1 + g2, g3);
    reveal_with_fuel(total_count, 4);
}

/// The total of a run of counts with one of them taken out.
pub proof fn lemma_total_count_remove(counts: Seq<u64>, i: int)
    requires
        0 <= i < counts.len(),
    ensures
        total_count(counts) == total_count(counts.remove(i)) + counts[i],
{
    let front = counts.take(i);
    let back = counts.skip(i + 1);
    assert(counts == front.push(counts[i]) + back);
    assert(front.push(counts[i]).drop_last() == front);
    lemma_total_count_concat(front.push(counts[i]), back);
    lemma_total_count_concat(front, back);
}

/// Partial states may be merged in any order: the same counts in another
/// order have the same total.
pub proof fn lemma_merge_order(counts: Seq<u64>, shuffled: Seq<u64>)
    requires
        counts.to_multiset() == shuffled.to_multiset(),
    ensures
        total_count(counts) == total_count(shuffled),
    decreases counts.len(),
{
    broadcast use vstd::multiset::group_multiset_axioms;

    counts.to_multiset_ensures();
    shuffled.to_multiset_ensures();
    if counts.len() > 0 {
        let last = counts.last();
        let front = counts.drop_last();
        assert(counts[counts.len() - 1] == last);
        assert(shuffled.to_multiset().count(last) > 0);
        let i = choose|i: int| 0 <= i < shuffled.len() && shuffled[i] == last;
        front.to_multiset_ensures();
        assert(counts == front.push(last));
        assert(shuffled.remove(i).to_multiset() =~= front.to_multiset());
        lemma_merge_order(front, shuffled.remove(i));
        lemma_total_count_remove(shuffled, i);
    }
}

/// A count handed out as a partial state and merged into a fresh accumulator
/// comes back as it was.
pub proof fn lemma_state_round_trip(count: u64)
    ensures
        0 + total_count(seq![count]) == count,
{
    let one = seq![count];
    assert(total_count(one.drop_last()) == 0);
}

/// The number of values that an accumulator of a moment statistic has
/// observed, directly or through merged partial states. The view is that
/// number.
#[derive(Debug)]
pub struct SampleCount {
    count: u64,
}

impl View for SampleCount {
    type V = nat;

    closed spec fn view(&self) -> nat {
        self.count as nat
    }
}

impl SampleCount {
    /// Nothing observed yet.
    pub fn new() -> (samples: Self)
        ensures
            samples@ == 0,
    {
        SampleCount { count: 0 }
    }

    /// The number of values observed so far.
    pub fn count(&self) -> (n: u64)
        ensures
            n == self@,
    {
        self.count
    }

    /// Takes in one batch, given by the validity of its rows: `present[i]`
    /// says that row `i` holds a value. Null rows are passed over. Returns
    /// the rows whose values enter the power sums, in ascending order.
    pub fn update_batch(&mut self, present: &[bool]) -> (rows: Vec<usize>)
        requires
            old(self)@ + selected_rows(present@).len() <= u64::MAX,
        ensures
            final(self)@ >= old(self)@,
            final(self)@ == old(self)@ + selected_rows(present@).len(),
            rows@.map_values(|r: usize| r as int) == selected_rows(present@),
    {
        let mut rows: Vec<usize> = Vec::new();
        let mut i: usize = 0;
        while i < present.len()
            invariant
                i <= present.len(),
                rows@.map_values(|r: usize| r as int) == selected_rows(present@.take(i as int)),
                self@ == old(self)@ + rows@.len(),
                old(self)@ + selected_rows(present@).len() <= u64::MAX,
            decreases present.len() - i,
        {
            proof {
                assert(present@.take(i + 1).drop_last() == present@.take(i as int));
                assert(present@ == present@.take(i + 1) + present@.skip(i + 1));
                lemma_selected_rows_concat(present@.take(i + 1), present@.skip(i + 1));
            }
            if present[i] {
                rows.push(i);
                self.count = self.count + 1;
            }
            i = i + 1;
        }
        proof {
            assert(present@.take(i as int) == present@);
        }
        rows
    }

    /// Takes in a run of partial states, given by their sample counts. A
    /// partial state that observed nothing is passed over. Returns the
    /// positions of the states whose power sums are to be added, in
    /// ascending order.
    pub fn merge_batch(&mut self, counts: &[u64]) -> (rows: Vec<usize>)
        requires
            old(self)@ + total_count(counts@) <= u64::MAX,
        ensures
            final(self)@ >= old(self)@,
            final(self)@ == old(self)@ + total_count(counts@),
            rows@.map_values(|r: usize| r as int) == selected_rows(contributing(counts@)),
    {
        let mut rows: Vec<usize> = Vec::new();
        let mut i: usize = 0;
        while i < counts.len()
            invariant
                i <= counts.len(),
                rows@.map_values(|r: usize| r as int) == selected_rows(
                    contributing(counts@.take(i as int)),
                ),
                self@ == old(self)@ + total_count(counts@.take(i as int)),
                old(self)@ + total_count(counts@) <= u64::MAX,
            decreases counts.len() - i,
        {
            proof {
                assert(contributing(counts@.take(i + 1)).drop_last() == contributing(
                    counts@.take(i as int),
                ));
                lemma_total_count_prefix(counts@, i as int);
            }
            let c: u64 = counts[i];
            if c != 0 {
                rows.push(i);
                self.count = self.count + c;
            }
            i = i + 1;
        }
        proof {
            assert(counts@.take(i as int) == counts@);
        }
        rows
    }
}

} // verus!
