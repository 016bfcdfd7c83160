//! The excess kurtosis aggregate: its description, and the rule for when a
//! sample is large enough for the statistic to exist.

use crate::common::{ScalarKind, Signature, StateField, Volatility};
use crate::samples::{lemma_nulls_select_nothing, selected_rows, SampleCount};
use crate::ExtraFunction;
use vstd::prelude::*;

verus! {

/// The largest sample for which the bias-corrected statistic is still
/// undefined: with three values or fewer the factor `(n - 2)(n - 3)` that it
/// is divided by is zero or the estimate is meaningless.
pub const LARGEST_UNDEFINED_SAMPLE: u64 = 3;

/// Whether a sample of `n` values is large enough for the statistic to be
/// defined.
pub open spec fn sample_suffices(n: nat) -> bool {
    n > LARGEST_UNDEFINED_SAMPLE
}

/// A column with exactly three values is too small, a column of nulls too,
/// whatever the values are.
pub proof fn lemma_small_samples(present: Seq<bool>)
    requires
        selected_rows(present).len() <= LARGEST_UNDEFINED_SAMPLE,
    ensures
        !sample_suffices(0 + selected_rows(present).len()),
{
}

/// A column with four values or more is large enough: whether the result is
/// null then depends on the spread of the values alone.
pub proof fn lemma_large_samples(present: Seq<bool>)
    requires
        selected_rows(present).len() > LARGEST_UNDEFINED_SAMPLE,
    ensures
        sample_suffices(0 + selected_rows(present).len()),
{
}

/// A column of nulls yields null.
pub proof fn lemma_nulls_yield_null(present: Seq<bool>)
    requires
        forall|i: int| 0 <= i < present.len() ==> !present[i],
    ensures
        !sample_suffices(0 + selected_rows(present).len()),
{
    lemma_nulls_select_nothing(present);
}

/// The integral side of a kurtosis accumulator. Its view is the number of
/// values observed so far, directly or through merged partial states.
#[derive(Debug)]
pub struct KurtosisAccumulator {
    pub samples: SampleCount,
}

impl View for KurtosisAccumulator {
    type V = nat;

    open spec fn view(&self) -> nat {
        self.samples@
    }
}

impl Default for KurtosisAccumulator {
    fn default() -> (acc: Self)
        ensures
            acc@ == 0,
    {
        KurtosisAccumulator::new()
    }
}

impl KurtosisAccumulator {
    /// An accumulator that has observed nothing.
    pub fn new() -> (acc: Self)
        ensures
            acc@ == 0,
    {
        KurtosisAccumulator { samples: SampleCount::new() }
    }

    /// Whether the sample is large enough for the statistic to be defined.
    /// With three observations or fewer the result is null, whatever the
    /// power sums hold.
    pub fn enough_samples(&self) -> (enough: bool)
        ensures
            enough == sample_suffices(self@),
    {
        self.samples.count() > LARGEST_UNDEFINED_SAMPLE
    }
}

/// The fields of a partial state of the kurtosis aggregate, in the order in
/// which they travel: the sample count, then the sums of the first to the
/// fourth powers.
pub open spec fn state_schema() -> Seq<(Seq<char>, ScalarKind, bool)> {
    seq![
        ("count"@, ScalarKind::UInt64, true),
        ("sum"@, ScalarKind::Float64, true),
        ("sum_sqr"@, ScalarKind::Float64, true),
        ("sum_cub"@, ScalarKind::Float64, true),
        ("sum_four"@, ScalarKind::Float64, true),
    ]
}

/// The excess kurtosis (Fisher's definition) of a column, corrected for bias
/// according to the sample size.
#[derive(Debug, PartialEq, Eq, Hash)]
pub struct KurtosisFunction {
    signature: Signature,
}

impl Default for KurtosisFunction {
    fn default() -> (function: Self)
        ensures
            function.spec_signature().arguments@ == seq![ScalarKind::Float64],
            function.spec_signature().volatility == Volatility::Immutable,
    {
        KurtosisFunction::new()
    }
}

impl KurtosisFunction {
    /// What the function takes.
    pub closed spec fn spec_signature(&self) -> Signature {
        self.signature
    }

    /// The function takes one 64-bit floating point argument, and its
    /// result depends on the argument alone.
    pub fn new() -> (function: Self)
        ensures
            function.spec_signature().arguments@ == seq![ScalarKind::Float64],
            function.spec_signature().volatility == Volatility::Immutable,
    {
        let mut arguments: Vec<ScalarKind> = Vec::new();
        arguments.push(ScalarKind::Float64);
        KurtosisFunction { signature: Signature { arguments, volatility: Volatility::Immutable } }
    }

    /// The name under which the function is looked up.
    pub fn name(&self) -> (name: &'static str)
        ensures
            name@ == ExtraFunction::Kurtosis.spec_name(),
    {
        "kurtosis"
    }

    /// What the function takes.
    pub fn signature(&self) -> (signature: &Signature)
        ensures
            *signature == self.spec_signature(),
    {
        &self.signature
    }

    /// The type of the result, whatever the arguments.
    pub fn return_type(&self) -> (kind: ScalarKind)
        ensures
            kind == ScalarKind::Float64,
    {
        ScalarKind::Float64
    }

    /// A fresh accumulator for one partition.
    pub fn accumulator(&self) -> (acc: KurtosisAccumulator)
        ensures
            acc@ == 0,
    {
        KurtosisAccumulator::new()
    }

    /// The fields of the record in which a partial state travels.
    pub fn state_fields(&self) -> (fields: Vec<StateField>)
        ensures
            fields@.len() == state_schema().len(),
            forall|i: int|
                0 <= i < fields@.len() ==> (
                    (#[trigger] fields@[i]).name@,
                    fields@[i].kind,
                    fields@[i].nullable,
                ) == state_schema()[i],
    {
        let mut fields: Vec<StateField> = Vec::new();
        fields.push(StateField { name: "count", kind: ScalarKind::UInt64, nullable: true });
        fields.push(StateField { name: "sum", kind: ScalarKind::Float64, nullable: true });
        fields.push(StateField { name: "sum_sqr", kind: ScalarKind::Float64, nullable: true });
        fields.push(StateField { name: "sum_cub", kind: ScalarKind::Float64, nullable: true });
        fields.push(StateField { name: "sum_four", kind: ScalarKind::Float64, nullable: true });
        fields
    }
}

} // verus!
