//! The most frequent value of a column.
//!
//! Each accumulator counts how often every value occurs. Partial states
//! carry those counts between partitions, and merging adds them up value by
//! value. Of several values that occur equally often, the smallest is the
//! mode: the result does not depend on the order of the rows or of the
//! merges.

use crate::common::{ScalarKind, Signature, StateField, Volatility};
use crate::samples::{checked_total, lemma_total_count_prefix, total_count};
use crate::ExtraFunction;
use std::collections::HashMap;
use vstd::multiset::Multiset;
use vstd::prelude::*;
use vstd::std_specs::hash::*;

verus! {

broadcast use {vstd::std_specs::hash::group_hash_axioms, vstd::multiset::group_multiset_axioms};

/// The values that a batch of nullable rows holds, with their multiplicity.
/// Null rows hold nothing.
pub open spec fn observed(values: Seq<Option<i64>>) -> Multiset<i64>
    decreases values.len(),
{
    if values.len() == 0 {
        Multiset::empty()
    } else {
        match values.last() {
            Some(v) => observed(values.drop_last()).insert(v),
            None => observed(values.drop_last()),
        }
    }
}

/// `n` occurrences of `v`.
pub open spec fn copies(v: i64, n: nat) -> Multiset<i64>
    decreases n,
{
    if n == 0 {
        Multiset::empty()
    } else {
        copies(v, (n - 1) as nat).insert(v)
    }
}

/// `copies(v, n)` holds `n` values, all of them `v`.
pub proof fn lemma_copies(v: i64, n: nat)
    ensures
        copies(v, n).len() == n,
        copies(v, n).count(v) == n,
        forall|w: i64| w != v ==> copies(v, n).count(w) == 0,
    decreases n,
{
    if n > 0 {
        lemma_copies(v, (n - 1) as nat);
    }
}

/// The distinct values in the order in which they were first observed:
/// `seen`, then each value of the batch that was not there before.
pub open spec fn seen_after(seen: Seq<i64>, values: Seq<Option<i64>>) -> Seq<i64>
    decreases values.len(),
{
    if values.len() == 0 {
        seen
    } else {
        let before = seen_after(seen, values.drop_last());
        match values.last() {
            Some(v) => if before.contains(v) {
                before
            } else {
                before.push(v)
            },
            None => before,
        }
    }
}

/// The distinct values after a partial state was merged: `seen`, then each
/// value of the state that has a count other than zero and was not there
/// before.
pub open spec fn seen_after_merge(seen: Seq<i64>, values: Seq<i64>, counts: Seq<u64>) -> Seq<i64>
    decreases values.len(),
{
    if values.len() == 0 || counts.len() == 0 {
        seen
    } else {
        let before = seen_after_merge(seen, values.drop_last(), counts.drop_last());
        if counts.last() != 0 && !before.contains(values.last()) {
            before.push(values.last())
        } else {
            before
        }
    }
}

/// No value leaves the list of distinct values when a batch is taken in: the
/// list from before is the beginning of the list after.
pub proof fn lemma_seen_after_extends(seen: Seq<i64>, values: Seq<Option<i64>>)
    ensures
        seen.is_prefix_of(seen_after(seen, values)),
    decreases values.len(),
{
    if values.len() > 0 {
        lemma_seen_after_extends(seen, values.drop_last());
    }
}

/// No value leaves the list of distinct values when a partial state is
/// merged: the list from before is the beginning of the list after.
pub proof fn lemma_seen_after_merge_extends(seen: Seq<i64>, values: Seq<i64>, counts: Seq<u64>)
    ensures
        seen.is_prefix_of(seen_after_merge(seen, values, counts)),
    decreases values.len(),
{
    if values.len() > 0 && counts.len() > 0 {
        lemma_seen_after_merge_extends(seen, values.drop_last(), counts.drop_last());
    }
}

/// The multiset that a partial state stands for: `counts[i]` occurrences of
/// `values[i]`, summed over all entries.
pub open spec fn tally(values: Seq<i64>, counts: Seq<u64>) -> Multiset<i64>
    decreases values.len(),
{
    if values.len() == 0 || counts.len() == 0 {
        Multiset::empty()
    } else {
        tally(values.drop_last(), counts.drop_last()).add(
            copies(values.last(), counts.last() as nat),
        )
    }
}

/// Whether `v` is the mode of `contents`: it occurs, nothing occurs more
/// often, and of the values that occur as often it is the smallest.
pub open spec fn is_mode(contents: Multiset<i64>, v: i64) -> bool {
    &&& contents.count(v) > 0
    &&& forall|w: i64| #[trigger] contents.count(w) <= contents.count(v)
    &&& forall|w: i64| #[trigger] contents.count(w) == contents.count(v) ==> v <= w
}

/// The mode of `contents`, if it has one.
pub open spec fn mode_of(contents: Multiset<i64>) -> Option<i64> {
    if exists|v: i64| is_mode(contents, v) {
        Some(choose|v: i64| is_mode(contents, v))
    } else {
        None
    }
}

/// A multiset has at most one mode.
pub proof fn lemma_mode_unique(contents: Multiset<i64>, a: i64, b: i64)
    requires
        is_mode(contents, a),
        is_mode(contents, b),
    ensures
        a == b,
{
    assert(contents.count(a) <= contents.count(b));
    assert(contents.count(b) <= contents.count(a));
}

/// A value that meets `is_mode` is what `mode_of` gives.
pub proof fn lemma_mode_of(contents: Multiset<i64>, v: i64)
    requires
        is_mode(contents, v),
    ensures
        mode_of(contents) == Some(v),
{
    let chosen = choose|w: i64| is_mode(contents, w);
    lemma_mode_unique(contents, chosen, v);
}

/// The empty multiset has no mode.
pub proof fn lemma_mode_of_empty(contents: Multiset<i64>)
    requires
        contents.len() == 0,
    ensures
        mode_of(contents) == None::<i64>,
{
    assert forall|v: i64| !is_mode(contents, v) by {
        assert(contents.count(v) <= contents.len());
    }
}

/// A partial state holds as many observations as its counts add up to.
pub proof fn lemma_tally_len(values: Seq<i64>, counts: Seq<u64>)
    requires
        values.len() == counts.len(),
    ensures
        tally(values, counts).len() == total_count(counts),
    decreases values.len(),
{
    if values.len() > 0 {
        lemma_tally_len(values.drop_last(), counts.drop_last());
        lemma_copies(values.last(), counts.last() as nat);
    }
}

/// How often a value occurs in a partial state whose values are distinct: as
/// often as its own entry says, and not at all when it has no entry.
pub proof fn lemma_tally_distinct(values: Seq<i64>, counts: Seq<u64>)
    requires
        values.len() == counts.len(),
        values.no_duplicates(),
    ensures
        forall|i: int|
            0 <= i < values.len() ==> tally(values, counts).count(#[trigger] values[i])
                == counts[i],
        forall|w: i64| !values.contains(w) ==> #[trigger] tally(values, counts).count(w) == 0,
    decreases values.len(),
{
    if values.len() > 0 {
        let front = values.drop_last();
        let last = values.last();
        let rest = tally(front, counts.drop_last());
        let tail = copies(last, counts.last() as nat);
        lemma_tally_distinct(front, counts.drop_last());
        lemma_copies(last, counts.last() as nat);
        assert(tally(values, counts) == rest.add(tail));
        assert forall|w: i64| !values.contains(w) implies #[trigger] tally(values, counts).count(
            w,
        ) == 0 by {
            // `w` is neither the last value nor one of those before it
            assert(values[values.len() - 1] == last);
            if front.contains(w) {
                let k = choose|k: int| 0 <= k < front.len() && front[k] == w;
                assert(values[k] == w);
            }
            assert(rest.count(w) == 0);
        }
        assert forall|i: int| 0 <= i < values.len() implies tally(values, counts).count(
            #[trigger] values[i],
        ) == counts[i] by {
            if i < front.len() {
                // an earlier value differs from the last one
                assert(front[i] == values[i]);
                assert(rest.count(front[i]) == counts.drop_last()[i]);
            } else {
                // the last value does not occur before
                if front.contains(last) {
                    let k = choose|k: int| 0 <= k < front.len() && front[k] == last;
                    assert(values[k] == values[values.len() - 1]);
                }
                assert(rest.count(last) == 0);
            }
        }
    }
}

/// A partial state as it travels between partitions: distinct or repeated
/// values, each with a count. The view is the multiset it stands for.
#[derive(Debug)]
pub struct ModeState {
    values: Vec<i64>,
    counts: Vec<u64>,
    total: u64,
}

impl View for ModeState {
    type V = Multiset<i64>;

    open spec fn view(&self) -> Multiset<i64> {
        tally(self.spec_values(), self.spec_counts())
    }
}

impl ModeState {
    /// The values of the entries, in order.
    pub closed spec fn spec_values(&self) -> Seq<i64> {
        self.values@
    }

    /// The counts of the entries, in order.
    pub closed spec fn spec_counts(&self) -> Seq<u64> {
        self.counts@
    }

    /// Every value has a count, and the counts add up within `u64`.
    pub closed spec fn wf(&self) -> bool {
        &&& self.values@.len() == self.counts@.len()
        &&& self.total == total_count(self.counts@)
    }

    /// A well-formed state has one count for each value, and holds as many
    /// observations as the counts add up to.
    pub proof fn lemma_wf(&self)
        requires
            self.wf(),
        ensures
            self.spec_values().len() == self.spec_counts().len(),
            self@.len() == total_count(self.spec_counts()),
            self@.len() <= u64::MAX,
    {
        lemma_tally_len(self.values@, self.counts@);
    }

    /// Puts a partial state together from its two columns. There is none
    /// when the columns differ in length or the counts do not add up within
    /// `u64`.
    pub fn new(values: Vec<i64>, counts: Vec<u64>) -> (state: Option<ModeState>)
        ensures
            state is Some <==> values@.len() == counts@.len() && total_count(counts@) <= u64::MAX,
            state matches Some(s) ==> s.wf() && s.spec_values() == values@ && s.spec_counts()
                == counts@,
    {
        if values.len() != counts.len() {
            return None;
        }
        match checked_total(counts.as_slice()) {
            Some(total) => Some(ModeState { values, counts, total }),
            None => None,
        }
    }

    /// The values of the entries, in order.
    pub fn values(&self) -> (values: &[i64])
        ensures
            values@ == self.spec_values(),
    {
        self.values.as_slice()
    }

    /// The counts of the entries, in order.
    pub fn counts(&self) -> (counts: &[u64])
        ensures
            counts@ == self.spec_counts(),
    {
        self.counts.as_slice()
    }

    /// The number of observations that the state stands for.
    pub fn total(&self) -> (n: u64)
        requires
            self.wf(),
        ensures
            n == self@.len(),
    {
        proof {
            self.lemma_wf();
        }
        self.total
    }
}

/// The multiset in which each key of `counts` occurs as often as `counts`
/// says.
spec fn tallies(counts: Map<i64, u64>) -> Multiset<i64> {
    Multiset::from_map(counts.map_values(|c: u64| c as nat))
}

/// How often a value occurs in `tallies(counts)`: as often as `counts` says
/// where it is a key, and not at all where it is none.
proof fn lemma_tallies(counts: Map<i64, u64>)
    requires
        counts.dom().finite(),
    ensures
        forall|v: i64|
            #[trigger] tallies(counts).count(v) == (if counts.contains_key(v) {
                counts[v] as nat
            } else {
                0
            }),
{
    let m = counts.map_values(|c: u64| c as nat);
    assert(m.dom() =~= counts.dom());
    assert forall|v: i64|
        #[trigger] tallies(counts).count(v) == (if counts.contains_key(v) {
            counts[v] as nat
        } else {
            0
        }) by {
        if counts.contains_key(v) {
            assert(m.dom().contains(v));
        } else {
            assert(!m.dom().contains(v));
        }
    }
}

/// Frequencies of the values observed so far. The view is the multiset of
/// all observations; `distinct` lists the values in the order in which they
/// were first observed.
#[derive(Debug)]
pub struct ModeAccumulator {
    values: Vec<i64>,
    counts: HashMap<i64, u64>,
    total: u64,
}

impl View for ModeAccumulator {
    type V = Multiset<i64>;

    closed spec fn view(&self) -> Multiset<i64> {
        tallies(self.counts@)
    }
}

impl ModeAccumulator {
    /// The distinct values observed, in the order of their first
    /// observation.
    pub closed spec fn distinct(&self) -> Seq<i64> {
        self.values@
    }

    /// Each distinct value is listed once and has a count of at least one,
    /// and the counts add up to the number of observations.
    pub closed spec fn wf(&self) -> bool {
        &&& self.values@.no_duplicates()
        &&& forall|v: i64| self.counts@.contains_key(v) <==> self.values@.contains(v)
        &&& forall|v: i64| self.counts@.contains_key(v) ==> self.counts@[v] >= 1
        &&& self.total == self@.len()
    }

    /// What well-formedness says of `distinct`: it lists exactly the values
    /// that occur, each once.
    pub proof fn lemma_distinct(&self)
        requires
            self.wf(),
        ensures
            self.distinct().no_duplicates(),
            forall|v: i64| self.distinct().contains(v) <==> self@.count(v) > 0,
    {
        lemma_tallies(self.counts@);
    }

    /// An accumulator that has observed nothing.
    pub fn new() -> (acc: Self)
        ensures
            acc.wf(),
            acc@ == Multiset::<i64>::empty(),
            acc.distinct() == Seq::<i64>::empty(),
    {
        let acc = ModeAccumulator { values: Vec::new(), counts: HashMap::new(), total: 0 };
        proof {
            lemma_tallies(acc.counts@);
            assert(acc@ =~= Multiset::<i64>::empty());
        }
        acc
    }

    /// Counts `v` another `n` times.
    fn add_copies(&mut self, v: i64, n: u64)
        requires
            old(self).wf(),
            n >= 1,
            old(self)@.len() + n <= u64::MAX,
        ensures
            final(self).wf(),
            final(self)@ == old(self)@.add(copies(v, n as nat)),
            final(self).distinct() == (if old(self).distinct().contains(v) {
                old(self).distinct()
            } else {
                old(self).distinct().push(v)
            }),
    {
        proof {
            lemma_copies(v, n as nat);
            lemma_tallies(self.counts@);
        }
        let current: u64 = match self.counts.get(&v) {
            Some(c) => *c,
            None => 0,
        };
        assert(current == old(self)@.count(v));
        if current == 0 {
            self.values.push(v);
        }
        self.counts.insert(v, current + n);
        self.total = self.total + n;
        proof {
            lemma_tallies(self.counts@);
            assert(self@ =~= old(self)@.add(copies(v, n as nat)));
            if current == 0 {
                // `v` is new: the list of distinct values grows by it
                assert(!old(self).values@.contains(v));
                assert(self.values@ == old(self).values@.push(v));
                assert forall|i: int, j: int|
                    0 <= i < self.values@.len() && 0 <= j < self.values@.len() && i
                        != j implies self.values@[i] != self.values@[j] by {
                    if i < old(self).values@.len() {
                        assert(old(self).values@.contains(self.values@[i]));
                    }
                    if j < old(self).values@.len() {
                        assert(old(self).values@.contains(self.values@[j]));
                    }
                }
                assert forall|w: i64| self.counts@.contains_key(w) <==> self.values@.contains(
                    w,
                ) by {
                    if old(self).values@.contains(w) {
                        let i = choose|i: int|
                            0 <= i < old(self).values@.len() && old(self).values@[i] == w;
                        assert(self.values@[i] == w);
                    }
                    assert(self.values@[self.values@.len() - 1] == v);
                }
            }
        }
    }

    /// The number of observations taken in so far.
    pub fn total(&self) -> (n: u64)
        requires
            self.wf(),
        ensures
            n == self@.len(),
    {
        self.total
    }

    /// The number of distinct values observed so far.
    pub fn len(&self) -> (n: usize)
        ensures
            n == self.distinct().len(),
    {
        self.values.len()
    }

    /// Counts each non-null value of the batch once more. Null rows are
    /// passed over.
    pub fn update_batch(&mut self, values: &[Option<i64>])
        requires
            old(self).wf(),
            old(self)@.len() + observed(values@).len() <= u64::MAX,
        ensures
            final(self).wf(),
            final(self)@ == old(self)@.add(observed(values@)),
            final(self).distinct() == seen_after(old(self).distinct(), values@),
    {
        let mut i: usize = 0;
        assert(self@ =~= old(self)@.add(observed(values@.take(0))));
        while i < values.len()
            invariant
                i <= values.len(),
                self.wf(),
                self@ == old(self)@.add(observed(values@.take(i as int))),
                self.distinct() == seen_after(old(self).distinct(), values@.take(i as int)),
                old(self)@.len() + observed(values@).len() <= u64::MAX,
            decreases values.len() - i,
        {
            proof {
                // what was observed so far is part of the whole batch
                assert(values@.take(i + 1).drop_last() == values@.take(i as int));
                assert(values@ == values@.take(i + 1) + values@.skip(i + 1));
                lemma_observed_concat(values@.take(i + 1), values@.skip(i + 1));
            }
            match values[i] {
                Some(v) => {
                    proof {
                        lemma_copies(v, 1);
                        assert(copies(v, 1) =~= Multiset::singleton(v));
                    }
                    self.add_copies(v, 1);
                    assert(self@ =~= old(self)@.add(observed(values@.take(i + 1))));
                },
                None => {},
            }
            i = i + 1;
        }
        proof {
            assert(values@.take(i as int) == values@);
        }
    }

    /// The most frequent value observed, or `None` when nothing was observed.
    /// Of several values that are equally frequent the smallest is given.
    pub fn evaluate(&self) -> (mode: Option<i64>)
        requires
            self.wf(),
        ensures
            mode == mode_of(self@),
            mode is None <==> self@.len() == 0,
            mode matches Some(v) ==> is_mode(self@, v),
    {
        proof {
            lemma_tallies(self.counts@);
        }
        let mut best: Option<(i64, u64)> = None;
        let mut i: usize = 0;
        while i < self.values.len()
            invariant
                i <= self.values.len(),
                self.wf(),
                forall|v: i64|
                    #[trigger] self@.count(v) == (if self.counts@.contains_key(v) {
                        self.counts@[v] as nat
                    } else {
                        0
                    }),
                best is None <==> i == 0,
                best matches Some((bv, bc)) ==> {
                    &&& self.values@.take(i as int).contains(bv)
                    &&& bc == self@.count(bv)
                    &&& forall|j: int|
                        0 <= j < i ==> {
                            &&& self@.count(#[trigger] self.values@[j]) <= bc
                            &&& self@.count(self.values@[j]) == bc ==> bv <= self.values@[j]
                        }
                },
            decreases self.values.len() - i,
        {
            let v: i64 = self.values[i];
            assert(self.values@.contains(v));
            let c: u64 = match self.counts.get(&v) {
                Some(c) => *c,
                None => 0,
            };
            let better: bool = match best {
                None => true,
                Some((bv, bc)) => c > bc || (c == bc && v < bv),
            };
            if better {
                best = Some((v, c));
            }
            proof {
                // the value kept is among the first `i + 1`
                assert(self.values@.take(i + 1)[i as int] == v);
                if let Some((bv, bc)) = best {
                    if !better {
                        let k = choose|k: int|
                            0 <= k < self.values@.take(i as int).len() && self.values@.take(
                                i as int,
                            )[k] == bv;
                        assert(self.values@.take(i + 1)[k] == bv);
                    }
                }
            }
            i = i + 1;
        }
        match best {
            None => {
                proof {
                    // without a distinct value nothing was counted
                    assert forall|v: i64| self@.count(v) == 0 by {
                        if self.counts@.contains_key(v) {
                            assert(self.values@.contains(v));
                        }
                    }
                    assert(self@ =~= Multiset::<i64>::empty());
                    lemma_mode_of_empty(self@);
                }
                None
            },
            Some((bv, bc)) => {
                proof {
                    assert(self.values@.contains(bv));
                    assert forall|w: i64| #[trigger] self@.count(w) <= self@.count(bv) by {
                        if self.counts@.contains_key(w) {
                            assert(self.values@.contains(w));
                            let j = choose|j: int|
                                0 <= j < self.values@.len() && self.values@[j] == w;
                            assert(self@.count(self.values@[j]) <= bc);
                        }
                    }
                    assert forall|w: i64| #[trigger]
                        self@.count(w) == self@.count(bv) implies bv <= w by {
                        assert(self.values@.contains(w));
                        let j = choose|j: int| 0 <= j < self.values@.len() && self.values@[j] == w;
                        assert(self@.count(self.values@[j]) <= bc);
                    }
                    lemma_mode_of(self@, bv);
                    assert(self@.count(bv) <= self@.len());
                }
                Some(bv)
            },
        }
    }

    /// The partial state to hand to another partition: each distinct value
    /// once, in the order of `distinct`, with the number of times it was
    /// observed.
    pub fn state(&self) -> (state: ModeState)
        requires
            self.wf(),
        ensures
            state.wf(),
            state@ == self@,
            state.spec_values() == self.distinct(),
            state.spec_counts().len() == self.distinct().len(),
            forall|i: int|
                0 <= i < self.distinct().len() ==> #[trigger] state.spec_counts()[i]
                    == self@.count(self.distinct()[i]),
    {
        proof {
            lemma_tallies(self.counts@);
        }
        let mut values: Vec<i64> = Vec::new();
        let mut counts: Vec<u64> = Vec::new();
        let mut i: usize = 0;
        while i < self.values.len()
            invariant
                i <= self.values.len(),
                self.wf(),
                values@ == self.values@.take(i as int),
                counts@.len() == i,
                forall|j: int|
                    0 <= j < i ==> #[trigger] counts@[j] == self.counts@[self.values@[j]]
                        && counts@[j] >= 1,
            decreases self.values.len() - i,
        {
            let v: i64 = self.values[i];
            assert(self.values@.contains(v));
            let c: u64 = match self.counts.get(&v) {
                Some(c) => *c,
                None => 0,
            };
            values.push(v);
            counts.push(c);
            assert(values@ == self.values@.take(i + 1));
            i = i + 1;
        }
        proof {
            assert(self.values@.take(i as int) == self.values@);
            lemma_tally_distinct(values@, counts@);
            lemma_tally_len(values@, counts@);
            assert forall|w: i64| tally(values@, counts@).count(w) == self@.count(w) by {
                if self.values@.contains(w) {
                    let j = choose|j: int| 0 <= j < self.values@.len() && self.values@[j] == w;
                    assert(tally(values@, counts@).count(values@[j]) == counts@[j]);
                }
            }
            assert(tally(values@, counts@) =~= self@);
        }
        ModeState { values, counts, total: self.total }
    }

    /// Takes in the partial state of another partition: every value of it
    /// is counted as often as the state says, on top of what was counted
    /// here.
    pub fn merge(&mut self, state: &ModeState)
        requires
            old(self).wf(),
            state.wf(),
            old(self)@.len() + state@.len() <= u64::MAX,
        ensures
            final(self).wf(),
            final(self)@ == old(self)@.add(state@),
            final(self).distinct() == seen_after_merge(
                old(self).distinct(),
                state.spec_values(),
                state.spec_counts(),
            ),
    {
        let mut i: usize = 0;
        proof {
            state.lemma_wf();
            assert(self@ =~= old(self)@.add(tally(state.values@.take(0), state.counts@.take(0))));
        }
        while i < state.values.len()
            invariant
                i <= state.values.len(),
                state.values@.len() == state.counts@.len(),
                self.wf(),
                self@ == old(self)@.add(
                    tally(state.values@.take(i as int), state.counts@.take(i as int)),
                ),
                self.distinct() == seen_after_merge(
                    old(self).distinct(),
                    state.values@.take(i as int),
                    state.counts@.take(i as int),
                ),
                old(self)@.len() + total_count(state.counts@) <= u64::MAX,
            decreases state.values.len() - i,
        {
            let v: i64 = state.values[i];
            let c: u64 = state.counts[i];
            proof {
                // the entries merged so far hold no more than the whole state
                assert(state.values@.take(i + 1).drop_last() == state.values@.take(i as int));
                assert(state.counts@.take(i + 1).drop_last() == state.counts@.take(i as int));
                lemma_total_count_prefix(state.counts@, i as int);
                lemma_tally_len(state.values@.take(i as int), state.counts@.take(i as int));
                lemma_tally_len(state.values@.take(i + 1), state.counts@.take(i + 1));
            }
            if c != 0 {
                self.add_copies(v, c);
            }
            assert(self@ =~= old(self)@.add(
                tally(state.values@.take(i + 1), state.counts@.take(i + 1)),
            ));
            i = i + 1;
        }
        proof {
            assert(state.values@.take(i as int) == state.values@);
            assert(state.counts@.take(i as int) == state.counts@);
        }
    }
}

/// The values of two batches laid end to end are those of the first together
/// with those of the second.
pub proof fn lemma_observed_concat(a: Seq<Option<i64>>, b: Seq<Option<i64>>)
    ensures
        observed(a + b) == observed(a).add(observed(b)),
    decreases b.len(),
{
    if b.len() == 0 {
        assert(a + b == a);
    } else {
        lemma_observed_concat(a, b.drop_last());
        assert((a + b).drop_last() == a + b.drop_last());
    }
    assert(observed(a + b) =~= observed(a).add(observed(b)));
}

/// How often a value was observed in a batch: as often as a row holds it.
pub proof fn lemma_observed_count(values: Seq<Option<i64>>, v: i64)
    ensures
        observed(values).count(v) == values.to_multiset().count(Some(v)),
    decreases values.len(),
{
    if values.len() == 0 {
        values.to_multiset_ensures();
        assert(values.to_multiset().count(Some(v)) <= values.to_multiset().len());
    } else {
        let front = values.drop_last();
        lemma_observed_count(front, v);
        front.to_multiset_ensures();
        assert(values == front.push(values.last()));
    }
}

/// The rows of a batch in another order hold the same values.
pub proof fn lemma_observed_reordered(values: Seq<Option<i64>>, shuffled: Seq<Option<i64>>)
    requires
        values.to_multiset() == shuffled.to_multiset(),
    ensures
        observed(values) == observed(shuffled),
{
    assert forall|v: i64| observed(values).count(v) == observed(shuffled).count(v) by {
        lemma_observed_count(values, v);
        lemma_observed_count(shuffled, v);
    }
    assert(observed(values) =~= observed(shuffled));
}

/// A batch of nulls holds no value, and so has no mode.
pub proof fn lemma_observed_nulls(values: Seq<Option<i64>>)
    requires
        forall|i: int| 0 <= i < values.len() ==> values[i] is None,
    ensures
        observed(values) == Multiset::<i64>::empty(),
        mode_of(observed(values)) == None::<i64>,
    decreases values.len(),
{
    if values.len() > 0 {
        lemma_observed_nulls(values.drop_last());
    }
    lemma_mode_of_empty(observed(values));
}

/// Three partitions, each counted by its own accumulator and the partial
/// states then merged, hold what one accumulator holds that counted all
/// rows; and so they have the same mode.
pub proof fn lemma_partitions_merge(
    g1: Seq<Option<i64>>,
    g2: Seq<Option<i64>>,
    g3: Seq<Option<i64>>,
)
    ensures
        observed(g1).add(observed(g2)).add(observed(g3)) == observed(g1 + g2 + g3),
        mode_of(observed(g1).add(observed(g2)).add(observed(g3))) == mode_of(
            observed(g1 + g2 + g3),
        ),
{
    lemma_observed_concat(g1, g2);
    lemma_observed_concat(g1 + g2, g3);
}

/// Three partitions may be merged in any order: each of the six orders
/// holds what one accumulator holds that counted all rows.
pub proof fn lemma_partitions_merge_in_any_order(
    g1: Seq<Option<i64>>,
    g2: Seq<Option<i64>>,
    g3: Seq<Option<i64>>,
)
    ensures
        ({
            let whole = observed(g1 + g2 + g3);
            let m1 = observed(g1);
            let m2 = observed(g2);
            let m3 = observed(g3);
            &&& m1.add(m2).add(m3) == whole
            &&& m1.add(m3).add(m2) == whole
            &&& m2.add(m1).add(m3) == whole
            &&& m2.add(m3).add(m1) == whole
            &&& m3.add(m1).add(m2) == whole
            &&& m3.add(m2).add(m1) == whole
        }),
{
    lemma_partitions_merge(g1, g2, g3);
    let whole = observed(g1 + g2 + g3);
    let m1 = observed(g1);
    let m2 = observed(g2);
    let m3 = observed(g3);
    assert(m1.add(m3).add(m2) =~= whole);
    assert(m2.add(m1).add(m3) =~= whole);
    assert(m2.add(m3).add(m1) =~= whole);
    assert(m3.add(m1).add(m2) =~= whole);
    assert(m3.add(m2).add(m1) =~= whole);
}

/// Partial states may be merged in any order and any grouping.
pub proof fn lemma_merge_order(a: Multiset<i64>, b: Multiset<i64>, c: Multiset<i64>)
    ensures
        a.add(b) == b.add(a),
        a.add(b).add(c) == a.add(b.add(c)),
{
    assert(a.add(b) =~= b.add(a));
    assert(a.add(b).add(c) =~= a.add(b.add(c)));
}

/// A value that occurs more often than every other value is the mode.
pub proof fn lemma_dominant_value(contents: Multiset<i64>, v: i64)
    requires
        forall|w: i64| w != v ==> #[trigger] contents.count(w) < contents.count(v),
    ensures
        mode_of(contents) == Some(v),
{
    // some other value exists, and `v` occurs more often than it
    let other: i64 = if v == 0 {
        1
    } else {
        0
    };
    assert(contents.count(other) < contents.count(v));
    lemma_mode_of(contents, v);
}

/// An accumulator rebuilt from a partial state alone holds what the state
/// holds: merging into an empty accumulator adds nothing else.
pub proof fn lemma_state_round_trip(contents: Multiset<i64>)
    ensures
        Multiset::<i64>::empty().add(contents) == contents,
        mode_of(Multiset::<i64>::empty().add(contents)) == mode_of(contents),
{
    assert(Multiset::<i64>::empty().add(contents) =~= contents);
}

/// The fields of a partial state of the mode aggregate, in the order in which
/// they travel: the distinct values, then the count of each.
pub open spec fn state_schema() -> Seq<(Seq<char>, ScalarKind, bool)> {
    seq![("values"@, ScalarKind::Int64List, true), ("counts"@, ScalarKind::UInt64List, true)]
}

/// The most frequent value of a column of 64-bit integers.
#[derive(Debug, PartialEq, Eq, Hash)]
pub struct ModeFunction {
    signature: Signature,
}

impl Default for ModeFunction {
    fn default() -> (function: Self)
        ensures
            function.spec_signature().arguments@ == seq![ScalarKind::Int64],
            function.spec_signature().volatility == Volatility::Immutable,
    {
        ModeFunction::new()
    }
}

impl ModeFunction {
    /// What the function takes.
    pub closed spec fn spec_signature(&self) -> Signature {
        self.signature
    }

    /// The function takes one 64-bit integer argument, and its result
    /// depends on the argument alone.
    pub fn new() -> (function: Self)
        ensures
            function.spec_signature().arguments@ == seq![ScalarKind::Int64],
            function.spec_signature().volatility == Volatility::Immutable,
    {
        let mut arguments: Vec<ScalarKind> = Vec::new();
        arguments.push(ScalarKind::Int64);
        ModeFunction { signature: Signature { arguments, volatility: Volatility::Immutable } }
    }

    /// The name under which the function is looked up.
    pub fn name(&self) -> (name: &'static str)
        ensures
            name@ == ExtraFunction::Mode.spec_name(),
    {
        "mode"
    }

    /// What the function takes.
    pub fn signature(&self) -> (signature: &Signature)
        ensures
            *signature == self.spec_signature(),
    {
        &self.signature
    }

    /// The type of the result: that of the argument.
    pub fn return_type(&self) -> (kind: ScalarKind)
        ensures
            kind == ScalarKind::Int64,
    {
        ScalarKind::Int64
    }

    /// A fresh accumulator for one partition.
    pub fn accumulator(&self) -> (acc: ModeAccumulator)
        ensures
            acc.wf(),
            acc@ == Multiset::<i64>::empty(),
            acc.distinct() == Seq::<i64>::empty(),
    {
        ModeAccumulator::new()
    }

    /// The fields of the record in which a partial state travels.
    pub fn state_fields(&self) -> (fields: Vec<StateField>)
        ensures
            fields@.len() == state_schema().len(),
            forall|i: int|
                0 <= i < fields@.len() ==> (
                    (#[trigger] fields@[i]).name@,
                    fields@[i].kind,
                    fields@[i].nullable,
                ) == state_schema()[i],
    {
        let mut fields: Vec<StateField> = Vec::new();
        fields.push(StateField { name: "values", kind: ScalarKind::Int64List, nullable: true });
        fields.push(StateField { name: "counts", kind: ScalarKind::UInt64List, nullable: true });
        fields
    }
}

} // verus!
