use datafusion_functions_extra::common::{ScalarKind, Volatility};
use datafusion_functions_extra::kurtosis::{KurtosisAccumulator, KurtosisFunction};
use datafusion_functions_extra::samples::{checked_total, SampleCount};

#[test]
fn new_accumulator_has_seen_nothing() {
    let acc = KurtosisAccumulator::new();
    assert_eq!(acc.samples.count(), 0);
    assert!(!acc.enough_samples());
}

#[test]
fn update_skips_null_rows() {
    let mut acc = KurtosisAccumulator::new();
    let rows = acc.samples.update_batch(&[true, false, true, true, false]);
    assert_eq!(rows, vec![0, 2, 3]);
    assert_eq!(acc.samples.count(), 3);
}

#[test]
fn update_of_empty_batch_changes_nothing() {
    let mut acc = KurtosisAccumulator::new();
    let rows = acc.samples.update_batch(&[]);
    assert_eq!(rows, Vec::<usize>::new());
    assert_eq!(acc.samples.count(), 0);
}

#[test]
fn column_of_nulls_yields_null() {
    let mut acc = KurtosisAccumulator::new();
    let rows = acc.samples.update_batch(&[false, false, false, false, false, false]);
    assert!(rows.is_empty());
    assert_eq!(acc.samples.count(), 0);
    assert!(!acc.enough_samples());
}

#[test]
fn three_values_are_too_few() {
    let mut acc = KurtosisAccumulator::new();
    acc.samples.update_batch(&[true, true, true]);
    assert_eq!(acc.samples.count(), 3);
    assert!(!acc.enough_samples());
}

#[test]
fn four_values_are_enough() {
    let mut acc = KurtosisAccumulator::new();
    acc.samples.update_batch(&[true, true, false, true, true]);
    assert_eq!(acc.samples.count(), 4);
    assert!(acc.enough_samples());
}

#[test]
fn updates_add_up_over_batches() {
    let mut acc = KurtosisAccumulator::new();
    acc.samples.update_batch(&[true, true]);
    acc.samples.update_batch(&[false, true]);
    acc.samples.update_batch(&[true]);
    assert_eq!(acc.samples.count(), 4);
}

#[test]
fn merge_skips_empty_partial_states() {
    let mut acc = KurtosisAccumulator::new();
    let rows = acc.samples.merge_batch(&[0, 5, 0, 7, 1]);
    assert_eq!(rows, vec![1, 3, 4]);
    assert_eq!(acc.samples.count(), 13);
}

#[test]
fn merge_of_only_empty_states_changes_nothing() {
    let mut acc = KurtosisAccumulator::new();
    acc.samples.update_batch(&[true, true]);
    let rows = acc.samples.merge_batch(&[0, 0, 0]);
    assert!(rows.is_empty());
    assert_eq!(acc.samples.count(), 2);
}

#[test]
fn merged_partitions_count_like_one_pass() {
    let g1 = [true, false, true];
    let g2 = [false, false];
    let g3 = [true, true, true, false];

    let mut a = KurtosisAccumulator::new();
    a.samples.update_batch(&g1);
    let mut b = KurtosisAccumulator::new();
    b.samples.update_batch(&g2);
    let mut c = KurtosisAccumulator::new();
    c.samples.update_batch(&g3);

    let mut merged = KurtosisAccumulator::new();
    merged.samples.merge_batch(&[a.samples.count(), b.samples.count()]);
    merged.samples.merge_batch(&[c.samples.count()]);

    let mut single = KurtosisAccumulator::new();
    let all: Vec<bool> = g1.iter().chain(g2.iter()).chain(g3.iter()).copied().collect();
    single.samples.update_batch(&all);

    assert_eq!(merged.samples.count(), 5);
    assert_eq!(merged.samples.count(), single.samples.count());
    assert_eq!(merged.enough_samples(), single.enough_samples());
}

#[test]
fn merge_in_any_order_gives_the_same_count() {
    let mut forward = KurtosisAccumulator::new();
    forward.samples.merge_batch(&[2, 0, 9]);
    let mut backward = KurtosisAccumulator::new();
    backward.samples.merge_batch(&[9]);
    backward.samples.merge_batch(&[0, 2]);
    assert_eq!(forward.samples.count(), 11);
    assert_eq!(backward.samples.count(), 11);
}

#[test]
fn rebuilt_from_state_evaluates_alike() {
    let mut acc = KurtosisAccumulator::new();
    acc.samples.update_batch(&[true, true, true, true, true]);
    let mut rebuilt = KurtosisAccumulator::new();
    rebuilt.samples.merge_batch(&[acc.samples.count()]);
    assert_eq!(rebuilt.samples.count(), acc.samples.count());
    assert_eq!(rebuilt.enough_samples(), acc.enough_samples());
}

#[test]
fn merge_up_to_the_largest_count() {
    let mut acc = KurtosisAccumulator::new();
    acc.samples.merge_batch(&[u64::MAX - 1]);
    acc.samples.update_batch(&[true]);
    assert_eq!(acc.samples.count(), u64::MAX);
    assert!(acc.enough_samples());
}

#[test]
fn checked_total_adds_up() {
    assert_eq!(checked_total(&[]), Some(0));
    assert_eq!(checked_total(&[1, 2, 3]), Some(6));
    assert_eq!(checked_total(&[u64::MAX, 0]), Some(u64::MAX));
}

#[test]
fn checked_total_refuses_overflow() {
    assert_eq!(checked_total(&[u64::MAX, 1]), None);
    assert_eq!(checked_total(&[1, u64::MAX, 5]), None);
}

#[test]
fn kurtosis_function_describes_itself() {
    let function = KurtosisFunction::new();
    assert_eq!(function.name(), "kurtosis");
    assert_eq!(function.signature().arguments, vec![ScalarKind::Float64]);
    assert_eq!(function.signature().volatility, Volatility::Immutable);
    assert_eq!(function.return_type(), ScalarKind::Float64);
    assert_eq!(function.accumulator().samples.count(), 0);
}

#[test]
fn kurtosis_default_is_new() {
    let function = KurtosisFunction::default();
    assert_eq!(function.name(), "kurtosis");
    assert_eq!(function.signature().arguments, vec![ScalarKind::Float64]);
    assert_eq!(KurtosisAccumulator::default().samples.count(), 0);
}

#[test]
fn kurtosis_state_fields_are_fixed() {
    let fields = KurtosisFunction::new().state_fields();
    let names: Vec<&str> = fields.iter().map(|f| f.name).collect();
    assert_eq!(names, vec!["count", "sum", "sum_sqr", "sum_cub", "sum_four"]);
    assert_eq!(fields[0].kind, ScalarKind::UInt64);
    for field in &fields[1..] {
        assert_eq!(field.kind, ScalarKind::Float64);
    }
    for field in &fields {
        assert!(field.nullable);
    }
}

#[test]
fn sample_count_starts_at_zero() {
    let samples = SampleCount::new();
    assert_eq!(samples.count(), 0);
}
