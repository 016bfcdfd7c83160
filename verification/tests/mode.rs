use datafusion_functions_extra::common::{ScalarKind, Volatility};
use datafusion_functions_extra::mode::{ModeAccumulator, ModeFunction, ModeState};

fn mode_of(values: &[Option<i64>]) -> Option<i64> {
    let mut acc = ModeAccumulator::new();
    acc.update_batch(values);
    acc.evaluate()
}

#[test]
fn mode_of_simple_column() {
    let values = [Some(1), Some(2), Some(2), Some(3), Some(3), Some(3)];
    assert_eq!(mode_of(&values), Some(3));
}

#[test]
fn mode_of_nothing_is_null() {
    assert_eq!(mode_of(&[]), None);
    assert_eq!(ModeAccumulator::new().evaluate(), None);
}

#[test]
fn mode_of_nulls_is_null() {
    assert_eq!(mode_of(&[None, None, None]), None);
}

#[test]
fn mode_skips_nulls() {
    let values = [None, Some(7), None, Some(7), Some(-1), None];
    assert_eq!(mode_of(&values), Some(7));
}

#[test]
fn mode_tie_goes_to_smallest_value() {
    assert_eq!(mode_of(&[Some(5), Some(2), Some(5), Some(2)]), Some(2));
    assert_eq!(mode_of(&[Some(2), Some(5), Some(2), Some(5)]), Some(2));
    assert_eq!(mode_of(&[Some(9), Some(-4), Some(3)]), Some(-4));
    assert_eq!(mode_of(&[Some(i64::MAX), Some(i64::MIN)]), Some(i64::MIN));
}

#[test]
fn mode_does_not_depend_on_row_order() {
    let orders: [[Option<i64>; 6]; 4] = [
        [Some(1), Some(2), Some(2), Some(3), Some(3), Some(3)],
        [Some(3), Some(3), Some(3), Some(2), Some(2), Some(1)],
        [Some(3), Some(1), Some(3), Some(2), Some(3), Some(2)],
        [Some(2), Some(3), Some(1), Some(3), Some(2), Some(3)],
    ];
    for order in orders.iter() {
        assert_eq!(mode_of(order), Some(3));
    }
}

#[test]
fn mode_does_not_depend_on_batching() {
    let mut acc = ModeAccumulator::new();
    acc.update_batch(&[Some(4), Some(8)]);
    acc.update_batch(&[]);
    acc.update_batch(&[Some(8), None]);
    acc.update_batch(&[Some(4), Some(8)]);
    assert_eq!(acc.total(), 5);
    assert_eq!(acc.evaluate(), Some(8));
}

#[test]
fn mode_total_counts_non_null_rows() {
    let mut acc = ModeAccumulator::new();
    assert_eq!(acc.total(), 0);
    acc.update_batch(&[Some(1), None, Some(1), Some(2)]);
    assert_eq!(acc.total(), 3);
}

#[test]
fn mode_state_lists_each_value_once() {
    let mut acc = ModeAccumulator::new();
    acc.update_batch(&[Some(10), Some(20), Some(10), None, Some(30), Some(10)]);
    let state = acc.state();
    let mut entries: Vec<(i64, u64)> =
        state.values().iter().copied().zip(state.counts().iter().copied()).collect();
    entries.sort();
    assert_eq!(entries, vec![(10, 3), (20, 1), (30, 1)]);
    assert_eq!(state.total(), 5);
}

#[test]
fn mode_state_of_empty_accumulator_is_empty() {
    let state = ModeAccumulator::new().state();
    assert!(state.values().is_empty());
    assert!(state.counts().is_empty());
    assert_eq!(state.total(), 0);
}

#[test]
fn mode_rebuilt_from_state_evaluates_alike() {
    let mut acc = ModeAccumulator::new();
    acc.update_batch(&[Some(6), Some(6), Some(1), Some(1), Some(6), None]);
    let mut rebuilt = ModeAccumulator::new();
    rebuilt.merge(&acc.state());
    assert_eq!(rebuilt.evaluate(), acc.evaluate());
    assert_eq!(rebuilt.evaluate(), Some(6));
    assert_eq!(rebuilt.total(), acc.total());
}

#[test]
fn mode_merge_sums_counts_per_value() {
    let mut left = ModeAccumulator::new();
    left.update_batch(&[Some(1), Some(1), Some(2)]);
    let mut right = ModeAccumulator::new();
    right.update_batch(&[Some(2), Some(2), Some(3)]);
    left.merge(&right.state());
    let state = left.state();
    let mut entries: Vec<(i64, u64)> =
        state.values().iter().copied().zip(state.counts().iter().copied()).collect();
    entries.sort();
    assert_eq!(entries, vec![(1, 2), (2, 3), (3, 1)]);
    assert_eq!(left.evaluate(), Some(2));
}

#[test]
fn mode_merged_partitions_match_one_pass() {
    let g1 = [Some(1), Some(2), None];
    let g2 = [Some(2), Some(3), Some(3)];
    let g3 = [Some(3), None, Some(1)];
    let mut a = ModeAccumulator::new();
    a.update_batch(&g1);
    let mut b = ModeAccumulator::new();
    b.update_batch(&g2);
    let mut c = ModeAccumulator::new();
    c.update_batch(&g3);

    let mut merged = ModeAccumulator::new();
    merged.merge(&a.state());
    merged.merge(&b.state());
    merged.merge(&c.state());

    let mut shuffled = ModeAccumulator::new();
    shuffled.merge(&c.state());
    shuffled.merge(&a.state());
    shuffled.merge(&b.state());

    let all: Vec<Option<i64>> = g1.iter().chain(g2.iter()).chain(g3.iter()).copied().collect();
    assert_eq!(merged.evaluate(), mode_of(&all));
    assert_eq!(shuffled.evaluate(), mode_of(&all));
    assert_eq!(merged.evaluate(), Some(3));
    assert_eq!(merged.total(), 7);
}

#[test]
fn mode_merge_of_empty_state_changes_nothing() {
    let mut acc = ModeAccumulator::new();
    acc.update_batch(&[Some(4), Some(4)]);
    acc.merge(&ModeAccumulator::new().state());
    assert_eq!(acc.evaluate(), Some(4));
    assert_eq!(acc.total(), 2);
}

#[test]
fn mode_state_from_columns() {
    let state = ModeState::new(vec![7, 8, 7], vec![2, 5, 4]).unwrap();
    assert_eq!(state.values(), &[7, 8, 7]);
    assert_eq!(state.counts(), &[2, 5, 4]);
    assert_eq!(state.total(), 11);
    let mut acc = ModeAccumulator::new();
    acc.merge(&state);
    assert_eq!(acc.evaluate(), Some(7));
    assert_eq!(acc.total(), 11);
}

#[test]
fn mode_state_with_zero_count_adds_nothing() {
    let state = ModeState::new(vec![1, 2], vec![0, 1]).unwrap();
    let mut acc = ModeAccumulator::new();
    acc.merge(&state);
    assert_eq!(acc.evaluate(), Some(2));
    let rebuilt = acc.state();
    assert_eq!(rebuilt.values(), &[2]);
    assert_eq!(rebuilt.counts(), &[1]);
}

#[test]
fn mode_state_refuses_columns_of_different_length() {
    assert!(ModeState::new(vec![1, 2], vec![1]).is_none());
    assert!(ModeState::new(vec![], vec![1]).is_none());
}

#[test]
fn mode_state_refuses_counts_beyond_u64() {
    assert!(ModeState::new(vec![1, 2], vec![u64::MAX, 1]).is_none());
    assert!(ModeState::new(vec![1, 2], vec![u64::MAX, 0]).is_some());
}

#[test]
fn mode_len_counts_distinct_values() {
    let mut acc = ModeAccumulator::new();
    assert_eq!(acc.len(), 0);
    acc.update_batch(&[Some(3), Some(3), None, Some(-3), Some(3)]);
    assert_eq!(acc.len(), 2);
}

#[test]
fn mode_state_keeps_order_of_first_observation() {
    let mut acc = ModeAccumulator::new();
    acc.update_batch(&[Some(30), Some(10), None, Some(30), Some(20)]);
    acc.update_batch(&[Some(10), Some(40)]);
    let state = acc.state();
    assert_eq!(state.values(), &[30, 10, 20, 40]);
    assert_eq!(state.counts(), &[2, 2, 1, 1]);

    let other = ModeState::new(vec![50, 10, 60, 50], vec![1, 4, 0, 2]).unwrap();
    acc.merge(&other);
    let merged = acc.state();
    assert_eq!(merged.values(), &[30, 10, 20, 40, 50]);
    assert_eq!(merged.counts(), &[2, 6, 1, 1, 3]);
    assert_eq!(acc.evaluate(), Some(10));
}

#[test]
fn mode_function_describes_itself() {
    let function = ModeFunction::new();
    assert_eq!(function.name(), "mode");
    assert_eq!(function.signature().arguments, vec![ScalarKind::Int64]);
    assert_eq!(function.signature().volatility, Volatility::Immutable);
    assert_eq!(function.return_type(), ScalarKind::Int64);
    assert_eq!(function, ModeFunction::default());
    let acc = function.accumulator();
    assert_eq!(acc.total(), 0);
    assert_eq!(acc.evaluate(), None);
    let fields = function.state_fields();
    assert_eq!(fields.len(), 2);
    assert_eq!(fields[0].name, "values");
    assert_eq!(fields[0].kind, ScalarKind::Int64List);
    assert_eq!(fields[1].name, "counts");
    assert_eq!(fields[1].kind, ScalarKind::UInt64List);
    assert!(fields.iter().all(|f| f.nullable));
}
