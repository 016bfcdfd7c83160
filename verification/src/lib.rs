//! Streaming aggregate state for statistical functions that a query engine
//! evaluates partition by partition: sample counting for the moment-based
//! statistics, value frequencies for the mode, and extremum selection with a
//! payload.
//!
//! Every accumulator follows one protocol: it starts empty, takes in batches
//! of rows, hands out a partial state, takes in the partial states of other
//! partitions, and is evaluated once at the end.

use vstd::prelude::*;

pub mod common;
pub mod kurtosis;
pub mod kurtosis_pop;
pub mod max_min_by;
pub mod mode;
pub mod samples;
pub mod skewness;

verus! {

/// The aggregate functions of this library.
#[derive(Clone, Copy, Debug, PartialEq, Eq, Hash, Structural)]
pub enum ExtraFunction {
    /// The most frequent value.
    Mode,
    /// The payload beside the largest key.
    MaxBy,
    /// The payload beside the smallest key.
    MinBy,
    /// The excess kurtosis, corrected for bias.
    Kurtosis,
    /// The skewness, corrected for bias.
    Skewness,
    /// The excess kurtosis of a population.
    KurtosisPop,
}

impl ExtraFunction {
    /// The name under which the function is registered and looked up.
    pub open spec fn spec_name(&self) -> Seq<char> {
        match self {
            ExtraFunction::Mode => "mode"@,
            ExtraFunction::MaxBy => "max_by"@,
            ExtraFunction::MinBy => "min_by"@,
            ExtraFunction::Kurtosis => "kurtosis"@,
            ExtraFunction::Skewness => "skewness"@,
            ExtraFunction::KurtosisPop => "kurtosis_pop"@,
        }
    }

    /// The name under which the function is registered and looked up.
    pub fn name(&self) -> (name: &'static str)
        ensures
            name@ == self.spec_name(),
    {
        match self {
            ExtraFunction::Mode => "mode",
            ExtraFunction::MaxBy => "max_by",
            ExtraFunction::MinBy => "min_by",
            ExtraFunction::Kurtosis => "kurtosis",
            ExtraFunction::Skewness => "skewness",
            ExtraFunction::KurtosisPop => "kurtosis_pop",
        }
    }
}

/// All functions, in the order in which they are registered.
pub open spec fn all_functions() -> Seq<ExtraFunction> {
    seq![
        ExtraFunction::Mode,
        ExtraFunction::MaxBy,
        ExtraFunction::MinBy,
        ExtraFunction::Kurtosis,
        ExtraFunction::Skewness,
        ExtraFunction::KurtosisPop,
    ]
}

/// All functions, in the order in which they are registered.
pub fn all_extra_aggregate_functions() -> (functions: Vec<ExtraFunction>)
    ensures
        functions@ == all_functions(),
{
    let mut functions: Vec<ExtraFunction> = Vec::new();
    functions.push(ExtraFunction::Mode);
    functions.push(ExtraFunction::MaxBy);
    functions.push(ExtraFunction::MinBy);
    functions.push(ExtraFunction::Kurtosis);
    functions.push(ExtraFunction::Skewness);
    functions.push(ExtraFunction::KurtosisPop);
    functions
}

/// The entries that a run of registrations displaced, in order.
pub open spec fn displaced<P>(answers: Seq<Option<P>>) -> Seq<P>
    decreases answers.len(),
{
    if answers.len() == 0 {
        Seq::empty()
    } else {
        match answers.last() {
            Some(previous) => displaced(answers.drop_last()).push(previous),
            None => displaced(answers.drop_last()),
        }
    }
}

/// Whether `answers` is what `register` may have said to the first
/// `answers.len()` functions, each accepted.
pub open spec fn accepted<P, E, F: Fn(ExtraFunction) -> Result<Option<P>, E>>(
    register: F,
    answers: Seq<Option<P>>,
) -> bool {
    &&& answers.len() <= all_functions().len()
    &&& forall|i: int|
        0 <= i < answers.len() ==> call_ensures(
            register,
            (all_functions()[i],),
            Ok::<Option<P>, E>(#[trigger] answers[i]),
        )
}

/// Registers every function of the library through `register`, in the order
/// of `all_extra_aggregate_functions`. `register` puts one function into a
/// registry and says what stood there under that name before. A name that
/// is taken is no error: the earlier entry is displaced, and handed back
/// here so that the caller can report it. The first error ends the run and
/// is returned; the functions after it are not registered.
pub fn register_all_extra_functions<P, E, F: Fn(ExtraFunction) -> Result<Option<P>, E>>(
    register: F,
) -> (outcome: Result<Vec<P>, E>)
    requires
        forall|function: ExtraFunction| call_requires(register, (function,)),
    ensures
        match outcome {
            Ok(previous) => exists|answers: Seq<Option<P>>|
                #[trigger] accepted(register, answers) && answers.len() == all_functions().len()
                    && previous@ == displaced(answers),
            Err(error) => exists|answers: Seq<Option<P>>|
                #[trigger] accepted(register, answers) && answers.len() < all_functions().len()
                    && call_ensures(
                    register,
                    (all_functions()[answers.len() as int],),
                    Err::<Option<P>, E>(error),
                ),
        },
{
    let functions = all_extra_aggregate_functions();
    let mut previous: Vec<P> = Vec::new();
    let ghost mut answers: Seq<Option<P>> = Seq::empty();
    let mut i: usize = 0;
    while i < functions.len()
        invariant
            i <= functions.len(),
            functions@ == all_functions(),
            forall|function: ExtraFunction| call_requires(register, (function,)),
            answers.len() == i,
            accepted(register, answers),
            previous@ == displaced(answers),
        decreases functions.len() - i,
    {
        match register(functions[i]) {
            Ok(answer) => {
                proof {
                    let extended = answers.push(answer);
                    assert(extended.drop_last() == answers);
                    answers = extended;
                }
                match answer {
                    Some(entry) => {
                        previous.push(entry);
                    },
                    None => {},
                }
            },
            Err(error) => {
                return Err(error);
            },
        }
        i = i + 1;
    }
    Ok(previous)
}

} // verus!
