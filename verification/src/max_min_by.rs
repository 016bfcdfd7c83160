//! The payload that stands beside the largest or the smallest key of a
//! column of pairs.
//!
//! An accumulator holds the best pair seen so far. A later pair replaces it
//! only with a key that is strictly better, so of several pairs with the
//! best key the first one seen stays. Merging partial states applies the
//! same rule. The key of the result never depends on the order of rows or
//! merges; the payload depends on it only where the best key occurs with
//! different payloads.

use crate::common::{ScalarKind, Signature, StateField, Volatility};
use crate::ExtraFunction;
use vstd::prelude::*;

verus! {

/// Which end of the keys is looked for.
#[derive(Clone, Copy, Debug, PartialEq, Eq, Hash, Structural)]
pub enum Extremum {
    /// The largest key.
    Max,
    /// The smallest key.
    Min,
}

/// A key with its payload, where the row held both.
pub type Candidate<V> = Option<(i64, V)>;

/// Whether `challenger` lies strictly further towards the wanted end than
/// `holder`.
pub open spec fn beats(direction: Extremum, challenger: i64, holder: i64) -> bool {
    match direction {
        Extremum::Max => challenger > holder,
        Extremum::Min => challenger < holder,
    }
}

/// The candidate that a row gives: a row with a null key or a null payload
/// gives none.
pub open spec fn candidate<V>(key: Option<i64>, payload: Option<V>) -> Candidate<V> {
    match (key, payload) {
        (Some(k), Some(p)) => Some((k, p)),
        _ => None,
    }
}

/// The better of two candidates. The second replaces the first only where
/// its key beats the first's: on equal keys the first stays.
pub open spec fn pick<V>(direction: Extremum, first: Candidate<V>, second: Candidate<V>)
    -> Candidate<V> {
    match (first, second) {
        (None, _) => second,
        (_, None) => first,
        (Some(a), Some(b)) => if beats(direction, b.0, a.0) {
            second
        } else {
            first
        },
    }
}

/// The best candidate of a run of rows, taken in order.
pub open spec fn best_of<V>(direction: Extremum, rows: Seq<(Option<i64>, Option<V>)>)
    -> Candidate<V>
    decreases rows.len(),
{
    if rows.len() == 0 {
        None
    } else {
        pick(
            direction,
            best_of(direction, rows.drop_last()),
            candidate(rows.last().0, rows.last().1),
        )
    }
}

/// The best pair seen so far. The view is that pair, or `None` while no row
/// held both a key and a payload.
#[derive(Debug)]
pub struct ExtremumAccumulator<V> {
    direction: Extremum,
    best: Option<(i64, V)>,
}

impl<V> View for ExtremumAccumulator<V> {
    type V = Candidate<V>;

    closed spec fn view(&self) -> Candidate<V> {
        self.best
    }
}

impl<V> ExtremumAccumulator<V> {
    /// The end of the keys that this accumulator looks for.
    pub closed spec fn spec_direction(&self) -> Extremum {
        self.direction
    }

    /// An accumulator that has seen no pair.
    pub fn new(direction: Extremum) -> (acc: Self)
        ensures
            acc@ is None,
            acc.spec_direction() == direction,
    {
        ExtremumAccumulator { direction, best: None }
    }

    /// The end of the keys that this accumulator looks for.
    pub fn direction(&self) -> (direction: Extremum)
        ensures
            direction == self.spec_direction(),
    {
        self.direction
    }

    /// Takes in a candidate: it replaces the pair held where its key beats
    /// the key held, or where nothing is held yet.
    fn offer(&mut self, key: i64, payload: V)
        ensures
            final(self).spec_direction() == old(self).spec_direction(),
            final(self)@ == pick(old(self).spec_direction(), old(self)@, Some((key, payload))),
    {
        let replace: bool = match &self.best {
            None => true,
            Some(held) => match self.direction {
                Extremum::Max => key > held.0,
                Extremum::Min => key < held.0,
            },
        };
        if replace {
            self.best = Some((key, payload));
        }
    }

    /// Takes in one row. A row whose key or payload is null is passed over.
    pub fn update(&mut self, key: Option<i64>, payload: Option<V>)
        ensures
            final(self).spec_direction() == old(self).spec_direction(),
            final(self)@ == pick(old(self).spec_direction(), old(self)@, candidate(key, payload)),
    {
        match key {
            Some(k) => match payload {
                Some(p) => {
                    self.offer(k, p);
                },
                None => {},
            },
            None => {},
        }
    }

    /// Takes in a batch of rows, in order.
    pub fn update_batch(&mut self, rows: Vec<(Option<i64>, Option<V>)>)
        ensures
            final(self).spec_direction() == old(self).spec_direction(),
            final(self)@ == pick(
                old(self).spec_direction(),
                old(self)@,
                best_of(old(self).spec_direction(), rows@),
            ),
    {
        let ghost all = rows@;
        for row in it: rows
            invariant
                it.seq() == all,
                self.spec_direction() == old(self).spec_direction(),
                self@ == pick(
                    old(self).spec_direction(),
                    old(self)@,
                    best_of(old(self).spec_direction(), all.take(it.index())),
                ),
        {
            proof {
                let i = it.index();
                assert(all.take(i + 1).drop_last() == all.take(i));
                lemma_pick_associative(
                    self.spec_direction(),
                    old(self)@,
                    best_of(self.spec_direction(), all.take(i)),
                    candidate(row.0, row.1),
                );
            }
            self.update(row.0, row.1);
        }
        proof {
            assert(all.take(all.len() as int) == all);
        }
    }

    /// Takes in the partial state of another partition, by the rule that
    /// `update` applies to rows: the pair held here stays unless the other
    /// key beats it.
    pub fn merge(&mut self, state: Candidate<V>)
        ensures
            final(self).spec_direction() == old(self).spec_direction(),
            final(self)@ == pick(old(self).spec_direction(), old(self)@, state),
    {
        match state {
            Some((k, p)) => {
                self.offer(k, p);
            },
            None => {},
        }
    }

    /// The payload of the best pair, or `None` when no pair was seen.
    pub fn evaluate(&self) -> (payload: Option<&V>)
        ensures
            match (payload, self@) {
                (Some(p), Some(held)) => *p == held.1,
                (None, None) => true,
                _ => false,
            },
    {
        match &self.best {
            Some(held) => Some(&held.1),
            None => None,
        }
    }

    /// The key of the best pair, or `None` when no pair was seen.
    pub fn best_key(&self) -> (key: Option<i64>)
        ensures
            match (key, self@) {
                (Some(k), Some(held)) => k == held.0,
                (None, None) => true,
                _ => false,
            },
    {
        match &self.best {
            Some(held) => Some(held.0),
            None => None,
        }
    }

    /// The partial state to hand to another partition: the pair held.
    pub fn state(&self) -> (state: Option<(i64, &V)>)
        ensures
            match (state, self@) {
                (Some(s), Some(held)) => s.0 == held.0 && *s.1 == held.1,
                (None, None) => true,
                _ => false,
            },
    {
        match &self.best {
            Some(held) => Some((held.0, &held.1)),
            None => None,
        }
    }
}

/// Whether no candidate of `rows` beats `key`.
pub open spec fn unbeaten<V>(
    direction: Extremum,
    rows: Seq<(Option<i64>, Option<V>)>,
    key: i64,
) -> bool {
    forall|j: int|
        0 <= j < rows.len() ==> match #[trigger] candidate(rows[j].0, rows[j].1) {
            Some(c) => !beats(direction, c.0, key),
            None => true,
        }
}

/// Picking is associative: three partial states may be combined as
/// `(a, b), c` or as `a, (b, c)`.
pub proof fn lemma_pick_associative<V>(
    direction: Extremum,
    a: Candidate<V>,
    b: Candidate<V>,
    c: Candidate<V>,
)
    ensures
        pick(direction, pick(direction, a, b), c) == pick(direction, a, pick(direction, b, c)),
{
}

/// Picking is commutative but for which payload survives a tie: two partial
/// states may be combined in either order unless both hold the same key
/// with different payloads.
pub proof fn lemma_pick_commutative<V>(direction: Extremum, a: Candidate<V>, b: Candidate<V>)
    requires
        a matches Some(x) ==> (b matches Some(y) ==> x.0 != y.0 || x.1 == y.1),
    ensures
        pick(direction, a, b) == pick(direction, b, a),
{
}

/// On a tie the two orders agree on the key, whatever the payloads.
pub proof fn lemma_pick_key_commutative<V>(direction: Extremum, a: Candidate<V>, b: Candidate<V>)
    ensures
        pick(direction, a, b) is Some <==> pick(direction, b, a) is Some,
        pick(direction, a, b) matches Some(x) ==> (pick(direction, b, a) matches Some(y) ==> x.0
            == y.0),
{
}

/// The best of two runs of rows laid end to end is the pick of their bests.
pub proof fn lemma_best_of_concat<V>(
    direction: Extremum,
    a: Seq<(Option<i64>, Option<V>)>,
    b: Seq<(Option<i64>, Option<V>)>,
)
    ensures
        best_of(direction, a + b) == pick(direction, best_of(direction, a), best_of(direction, b)),
    decreases b.len(),
{
    if b.len() == 0 {
        assert(a + b == a);
    } else {
        lemma_best_of_concat(direction, a, b.drop_last());
        assert((a + b).drop_last() == a + b.drop_last());
        lemma_pick_associative(
            direction,
            best_of(direction, a),
            best_of(direction, b.drop_last()),
            candidate(b.last().0, b.last().1),
        );
    }
}

/// Three partitions, each taken in by its own accumulator and the partial
/// states then merged in order, give what one accumulator gives that takes
/// in all rows.
pub proof fn lemma_partitions_merge<V>(
    direction: Extremum,
    g1: Seq<(Option<i64>, Option<V>)>,
    g2: Seq<(Option<i64>, Option<V>)>,
    g3: Seq<(Option<i64>, Option<V>)>,
)
    ensures
        pick(
            direction,
            pick(direction, best_of(direction, g1), best_of(direction, g2)),
            best_of(direction, g3),
        ) == best_of(direction, g1 + g2 + g3),
{
    lemma_best_of_concat(direction, g1, g2);
    lemma_best_of_concat(direction, g1 + g2, g3);
}

/// What `best_of` gives: nothing exactly when no row has both key and
/// payload; else the pair of the first row whose key no other candidate
/// beats.
pub proof fn lemma_best_of_extremal<V>(direction: Extremum, rows: Seq<(Option<i64>, Option<V>)>)
    ensures
        best_of(direction, rows) is None <==> forall|j: int|
            0 <= j < rows.len() ==> #[trigger] candidate(rows[j].0, rows[j].1) is None,
        best_of(direction, rows) matches Some(best) ==> {
            &&& unbeaten(direction, rows, best.0)
            &&& exists|i: int|
                0 <= i < rows.len() && #[trigger] candidate(rows[i].0, rows[i].1) == Some(best)
                    && forall|j: int|
                    0 <= j < i ==> match #[trigger] candidate(rows[j].0, rows[j].1) {
                        Some(c) => c.0 != best.0,
                        None => true,
                    }
        },
    decreases rows.len(),
{
    if rows.len() > 0 {
        let front = rows.drop_last();
        let before = best_of(direction, front);
        lemma_best_of_extremal(direction, front);
        // the rows before the last are the rows of `front`
        assert forall|j: int| 0 <= j < front.len() implies front[j] == rows[j] by {}
        if let Some(best) = best_of(direction, rows) {
            if before == Some(best) {
                // the pair held before the last row stays, and so does its row
                let i = choose|i: int|
                    0 <= i < front.len() && #[trigger] candidate(front[i].0, front[i].1) == Some(
                        best,
                    ) && forall|j: int|
                        0 <= j < i ==> match #[trigger] candidate(front[j].0, front[j].1) {
                            Some(c) => c.0 != best.0,
                            None => true,
                        };
                assert(candidate(rows[i].0, rows[i].1) == Some(best));
            } else {
                // the last row took the place: it beats every candidate before it
                let i = rows.len() - 1;
                assert(candidate(rows[i].0, rows[i].1) == Some(best));
            }
        }
    }
}

/// Whether the rows leave no doubt about the payload: all candidates whose
/// key no other beats carry the same payload. This holds in particular when
/// the best key occurs once.
pub open spec fn unambiguous<V>(direction: Extremum, rows: Seq<(Option<i64>, Option<V>)>) -> bool {
    forall|i: int, j: int|
        0 <= i < rows.len() && 0 <= j < rows.len() ==> match (
            #[trigger] candidate(rows[i].0, rows[i].1),
            #[trigger] candidate(rows[j].0, rows[j].1),
        ) {
            (Some(a), Some(b)) => a.0 == b.0 && unbeaten(direction, rows, a.0) ==> a.1 == b.1,
            _ => true,
        }
}

/// The same rows in another order, and so in any partitioning, give the same
/// result, provided that they leave no doubt about the payload.
pub proof fn lemma_best_of_reordered<V>(
    direction: Extremum,
    rows: Seq<(Option<i64>, Option<V>)>,
    shuffled: Seq<(Option<i64>, Option<V>)>,
)
    requires
        rows.to_multiset() == shuffled.to_multiset(),
        unambiguous(direction, rows),
    ensures
        best_of(direction, rows) == best_of(direction, shuffled),
{
    lemma_best_of_extremal(direction, rows);
    lemma_best_of_extremal(direction, shuffled);
    rows.to_multiset_ensures();
    shuffled.to_multiset_ensures();
    // The row behind either result is a row of the other run too. So neither
    // key beats the other, the keys are equal, and the payloads with them.
    if let Some(b1) = best_of(direction, rows) {
        let i1 = choose|i: int|
            0 <= i < rows.len() && #[trigger] candidate(rows[i].0, rows[i].1) == Some(b1);
        assert(shuffled.to_multiset().count(rows[i1]) > 0);
        let k1 = choose|k: int| 0 <= k < shuffled.len() && shuffled[k] == rows[i1];
        assert(candidate(shuffled[k1].0, shuffled[k1].1) == Some(b1));
    }
    if let Some(b2) = best_of(direction, shuffled) {
        let i2 = choose|i: int|
            0 <= i < shuffled.len() && #[trigger] candidate(shuffled[i].0, shuffled[i].1) == Some(
                b2,
            );
        assert(rows.to_multiset().count(shuffled[i2]) > 0);
        let k2 = choose|k: int| 0 <= k < rows.len() && rows[k] == shuffled[i2];
        assert(candidate(rows[k2].0, rows[k2].1) == Some(b2));
    }
}

/// Partial states of groups `a`, `b`, `c` merged in this order give what
/// one accumulator gives on `rows`, where the groups together hold the rows
/// of `rows` and these leave no doubt about the payload.
proof fn lemma_merged_groups<V>(
    direction: Extremum,
    a: Seq<(Option<i64>, Option<V>)>,
    b: Seq<(Option<i64>, Option<V>)>,
    c: Seq<(Option<i64>, Option<V>)>,
    rows: Seq<(Option<i64>, Option<V>)>,
)
    requires
        rows.to_multiset() == a.to_multiset().add(b.to_multiset()).add(c.to_multiset()),
        unambiguous(direction, rows),
    ensures
        pick(
            direction,
            pick(direction, best_of(direction, a), best_of(direction, b)),
            best_of(direction, c),
        ) == best_of(direction, rows),
{
    lemma_partitions_merge(direction, a, b, c);
    vstd::seq_lib::lemma_multiset_commutative(a, b);
    vstd::seq_lib::lemma_multiset_commutative(a + b, c);
    lemma_best_of_reordered(direction, rows, a + b + c);
}

/// Three partitions may be merged in any order: each of the six orders gives
/// what one accumulator gives that takes in all rows, provided that the rows
/// leave no doubt about the payload.
pub proof fn lemma_partitions_merge_in_any_order<V>(
    direction: Extremum,
    g1: Seq<(Option<i64>, Option<V>)>,
    g2: Seq<(Option<i64>, Option<V>)>,
    g3: Seq<(Option<i64>, Option<V>)>,
)
    requires
        unambiguous(direction, g1 + g2 + g3),
    ensures
        ({
            let whole = best_of(direction, g1 + g2 + g3);
            let b1 = best_of(direction, g1);
            let b2 = best_of(direction, g2);
            let b3 = best_of(direction, g3);
            &&& pick(direction, pick(direction, b1, b2), b3) == whole
            &&& pick(direction, pick(direction, b1, b3), b2) == whole
            &&& pick(direction, pick(direction, b2, b1), b3) == whole
            &&& pick(direction, pick(direction, b2, b3), b1) == whole
            &&& pick(direction, pick(direction, b3, b1), b2) == whole
            &&& pick(direction, pick(direction, b3, b2), b1) == whole
        }),
{
    broadcast use vstd::multiset::group_multiset_axioms;

    let rows = g1 + g2 + g3;
    let m1 = g1.to_multiset();
    let m2 = g2.to_multiset();
    let m3 = g3.to_multiset();
    vstd::seq_lib::lemma_multiset_commutative(g1, g2);
    vstd::seq_lib::lemma_multiset_commutative(g1 + g2, g3);
    assert(rows.to_multiset() =~= m1.add(m2).add(m3));
    assert(rows.to_multiset() =~= m1.add(m3).add(m2));
    assert(rows.to_multiset() =~= m2.add(m1).add(m3));
    assert(rows.to_multiset() =~= m2.add(m3).add(m1));
    assert(rows.to_multiset() =~= m3.add(m1).add(m2));
    assert(rows.to_multiset() =~= m3.add(m2).add(m1));
    lemma_merged_groups(direction, g1, g2, g3, rows);
    lemma_merged_groups(direction, g1, g3, g2, rows);
    lemma_merged_groups(direction, g2, g1, g3, rows);
    lemma_merged_groups(direction, g2, g3, g1, rows);
    lemma_merged_groups(direction, g3, g1, g2, rows);
    lemma_merged_groups(direction, g3, g2, g1, rows);
}

/// An accumulator rebuilt from a partial state alone holds that state.
pub proof fn lemma_state_round_trip<V>(direction: Extremum, state: Candidate<V>)
    ensures
        pick(direction, None, state) == state,
{
}

/// Rows that all lack a key or a payload give no result.
pub proof fn lemma_best_of_nulls<V>(direction: Extremum, rows: Seq<(Option<i64>, Option<V>)>)
    requires
        forall|i: int| 0 <= i < rows.len() ==> (#[trigger] rows[i]).0 is None || rows[i].1 is None,
    ensures
        best_of(direction, rows) is None,
{
    lemma_best_of_extremal(direction, rows);
    assert forall|j: int| 0 <= j < rows.len() implies #[trigger] candidate(
        rows[j].0,
        rows[j].1,
    ) is None by {
        assert(rows[j].0 is None || rows[j].1 is None);
    }
}

/// The fields of a partial state of `max_by` and `min_by`, in the order in
/// which they travel: the payload of the best pair, then its key.
pub open spec fn state_schema(payload: ScalarKind) -> Seq<(Seq<char>, ScalarKind, bool)> {
    seq![("payload"@, payload, true), ("key"@, ScalarKind::Int64, true)]
}

fn extremum_state_fields(payload: ScalarKind) -> (fields: Vec<StateField>)
    ensures
        fields@.len() == state_schema(payload).len(),
        forall|i: int|
            0 <= i < fields@.len() ==> (
                (#[trigger] fields@[i]).name@,
                fields@[i].kind,
                fields@[i].nullable,
            ) == state_schema(payload)[i],
{
    let mut fields: Vec<StateField> = Vec::new();
    fields.push(StateField { name: "payload", kind: payload, nullable: true });
    fields.push(StateField { name: "key", kind: ScalarKind::Int64, nullable: true });
    fields
}

/// The payload that stands beside the largest key.
#[derive(Debug, PartialEq, Eq, Hash)]
pub struct MaxByFunction {
    payload: ScalarKind,
    signature: Signature,
}

impl MaxByFunction {
    /// The type of the payload.
    pub closed spec fn spec_payload(&self) -> ScalarKind {
        self.payload
    }

    /// What the function takes.
    pub closed spec fn spec_signature(&self) -> Signature {
        self.signature
    }

    /// The function takes a payload of the given type and a 64-bit integer
    /// key, and its result depends on the arguments alone.
    pub fn new(payload: ScalarKind) -> (function: Self)
        ensures
            function.spec_payload() == payload,
            function.spec_signature().arguments@ == seq![payload, ScalarKind::Int64],
            function.spec_signature().volatility == Volatility::Immutable,
    {
        let mut arguments: Vec<ScalarKind> = Vec::new();
        arguments.push(payload);
        arguments.push(ScalarKind::Int64);
        MaxByFunction {
            payload,
            signature: Signature { arguments, volatility: Volatility::Immutable },
        }
    }

    /// The name under which the function is looked up.
    pub fn name(&self) -> (name: &'static str)
        ensures
            name@ == ExtraFunction::MaxBy.spec_name(),
    {
        "max_by"
    }

    /// What the function takes.
    pub fn signature(&self) -> (signature: &Signature)
        ensures
            *signature == self.spec_signature(),
    {
        &self.signature
    }

    /// The type of the result: that of the payload.
    pub fn return_type(&self) -> (kind: ScalarKind)
        ensures
            kind == self.spec_payload(),
    {
        self.payload
    }

    /// A fresh accumulator for one partition.
    pub fn accumulator<V>(&self) -> (acc: ExtremumAccumulator<V>)
        ensures
            acc@ is None,
            acc.spec_direction() == Extremum::Max,
    {
        ExtremumAccumulator::new(Extremum::Max)
    }

    /// The fields of the record in which a partial state travels.
    pub fn state_fields(&self) -> (fields: Vec<StateField>)
        ensures
            fields@.len() == state_schema(self.spec_payload()).len(),
            forall|i: int|
                0 <= i < fields@.len() ==> (
                    (#[trigger] fields@[i]).name@,
                    fields@[i].kind,
                    fields@[i].nullable,
                ) == state_schema(self.spec_payload())[i],
    {
        extremum_state_fields(self.payload)
    }
}

/// The payload that stands beside the smallest key.
#[derive(Debug, PartialEq, Eq, Hash)]
pub struct MinByFunction {
    payload: ScalarKind,
    signature: Signature,
}

impl MinByFunction {
    /// The type of the payload.
    pub closed spec fn spec_payload(&self) -> ScalarKind {
        self.payload
    }

    /// What the function takes.
    pub closed spec fn spec_signature(&self) -> Signature {
        self.signature
    }

    /// The function takes a payload of the given type and a 64-bit integer
    /// key, and its result depends on the arguments alone.
    pub fn new(payload: ScalarKind) -> (function: Self)
        ensures
            function.spec_payload() == payload,
            function.spec_signature().arguments@ == seq![payload, ScalarKind::Int64],
            function.spec_signature().volatility == Volatility::Immutable,
    {
        let mut arguments: Vec<ScalarKind> = Vec::new();
        arguments.push(payload);
        arguments.push(ScalarKind::Int64);
        MinByFunction {
            payload,
            signature: Signature { arguments, volatility: Volatility::Immutable },
        }
    }

    /// The name under which the function is looked up.
    pub fn name(&self) -> (name: &'static str)
        ensures
            name@ == ExtraFunction::MinBy.spec_name(),
    {
        "min_by"
    }

    /// What the function takes.
    pub fn signature(&self) -> (signature: &Signature)
        ensures
            *signature == self.spec_signature(),
    {
        &self.signature
    }

    /// The type of the result: that of the payload.
    pub fn return_type(&self) -> (kind: ScalarKind)
        ensures
            kind == self.spec_payload(),
    {
        self.payload
    }

    /// A fresh accumulator for one partition.
    pub fn accumulator<V>(&self) -> (acc: ExtremumAccumulator<V>)
        ensures
            acc@ is None,
            acc.spec_direction() == Extremum::Min,
    {
        ExtremumAccumulator::new(Extremum::Min)
    }

    /// The fields of the record in which a partial state travels.
    pub fn state_fields(&self) -> (fields: Vec<StateField>)
        ensures
            fields@.len() == state_schema(self.spec_payload()).len(),
            forall|i: int|
                0 <= i < fields@.len() ==> (
                    (#[trigger] fields@[i]).name@,
                    fields@[i].kind,
                    fields@[i].nullable,
                ) == state_schema(self.spec_payload())[i],
    {
        extremum_state_fields(self.payload)
    }
}

} // verus!
