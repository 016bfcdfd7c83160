use datafusion_functions_extra::common::{ScalarKind, Volatility};
use datafusion_functions_extra::max_min_by::{
    Extremum, ExtremumAccumulator, MaxByFunction, MinByFunction,
};

fn pairs() -> Vec<(Option<i64>, Option<&'static str>)> {
    vec![(Some(1), Some("a")), (Some(5), Some("b")), (Some(3), Some("c"))]
}

#[test]
fn max_by_returns_payload_of_largest_key() {
    let mut acc = ExtremumAccumulator::new(Extremum::Max);
    acc.update_batch(pairs());
    assert_eq!(acc.evaluate(), Some(&"b"));
    assert_eq!(acc.best_key(), Some(5));
}

#[test]
fn min_by_returns_payload_of_smallest_key() {
    let mut acc = ExtremumAccumulator::new(Extremum::Min);
    acc.update_batch(pairs());
    assert_eq!(acc.evaluate(), Some(&"a"));
    assert_eq!(acc.best_key(), Some(1));
}

#[test]
fn extremum_of_nothing_is_null() {
    let acc: ExtremumAccumulator<String> = ExtremumAccumulator::new(Extremum::Max);
    assert_eq!(acc.evaluate(), None);
    assert_eq!(acc.best_key(), None);
    assert_eq!(acc.state(), None);
    assert_eq!(acc.direction(), Extremum::Max);
}

#[test]
fn extremum_skips_null_keys_and_null_payloads() {
    let mut acc = ExtremumAccumulator::new(Extremum::Max);
    acc.update(None, Some("no key"));
    acc.update(Some(100), None);
    acc.update(None, None);
    assert_eq!(acc.evaluate(), None);
    acc.update(Some(-3), Some("kept"));
    acc.update(Some(100), None);
    assert_eq!(acc.evaluate(), Some(&"kept"));
    assert_eq!(acc.best_key(), Some(-3));
}

#[test]
fn extremum_column_of_nulls_yields_null() {
    let mut max = ExtremumAccumulator::new(Extremum::Max);
    max.update_batch(vec![(None, Some(1u8)), (Some(2), None), (None, None)]);
    assert_eq!(max.evaluate(), None);
    let mut min = ExtremumAccumulator::new(Extremum::Min);
    min.update_batch(vec![(None, Some(1u8)), (Some(2), None), (None, None)]);
    assert_eq!(min.evaluate(), None);
}

#[test]
fn extremum_tie_keeps_first_seen_pair() {
    let mut max = ExtremumAccumulator::new(Extremum::Max);
    max.update(Some(4), Some("first"));
    max.update(Some(4), Some("second"));
    max.update(Some(2), Some("smaller"));
    assert_eq!(max.evaluate(), Some(&"first"));

    let mut min = ExtremumAccumulator::new(Extremum::Min);
    min.update(Some(4), Some("first"));
    min.update(Some(4), Some("second"));
    min.update(Some(9), Some("larger"));
    assert_eq!(min.evaluate(), Some(&"first"));
}

#[test]
fn extremum_handles_extreme_keys() {
    let mut max = ExtremumAccumulator::new(Extremum::Max);
    max.update(Some(i64::MIN), Some("lowest"));
    assert_eq!(max.evaluate(), Some(&"lowest"));
    max.update(Some(i64::MAX), Some("highest"));
    assert_eq!(max.evaluate(), Some(&"highest"));

    let mut min = ExtremumAccumulator::new(Extremum::Min);
    min.update(Some(i64::MAX), Some("highest"));
    min.update(Some(i64::MIN), Some("lowest"));
    assert_eq!(min.evaluate(), Some(&"lowest"));
}

#[test]
fn extremum_state_is_the_pair_held() {
    let mut acc = ExtremumAccumulator::new(Extremum::Min);
    acc.update(Some(8), Some(String::from("x")));
    acc.update(Some(6), Some(String::from("y")));
    assert_eq!(acc.state(), Some((6, &String::from("y"))));
}

#[test]
fn extremum_merge_applies_the_update_rule() {
    let mut acc = ExtremumAccumulator::new(Extremum::Max);
    acc.merge(None);
    assert_eq!(acc.evaluate(), None);
    acc.merge(Some((3, "c")));
    assert_eq!(acc.evaluate(), Some(&"c"));
    acc.merge(Some((1, "a")));
    assert_eq!(acc.evaluate(), Some(&"c"));
    acc.merge(Some((3, "tie")));
    assert_eq!(acc.evaluate(), Some(&"c"));
    acc.merge(Some((5, "b")));
    assert_eq!(acc.evaluate(), Some(&"b"));
    acc.merge(None);
    assert_eq!(acc.evaluate(), Some(&"b"));
}

fn merged(direction: Extremum, order: [usize; 3]) -> Option<&'static str> {
    let rows = pairs();
    let mut parts: Vec<ExtremumAccumulator<&'static str>> = Vec::new();
    for row in rows {
        let mut part = ExtremumAccumulator::new(direction);
        part.update(row.0, row.1);
        parts.push(part);
    }
    let mut total = ExtremumAccumulator::new(direction);
    for i in order {
        total.merge(parts[i].state().map(|(k, p)| (k, *p)));
    }
    total.evaluate().copied()
}

#[test]
fn extremum_does_not_depend_on_merge_order() {
    let orders = [[0, 1, 2], [0, 2, 1], [1, 0, 2], [1, 2, 0], [2, 0, 1], [2, 1, 0]];
    for order in orders {
        assert_eq!(merged(Extremum::Max, order), Some("b"));
        assert_eq!(merged(Extremum::Min, order), Some("a"));
    }
}

#[test]
fn extremum_merged_partitions_match_one_pass() {
    let g1 = vec![(Some(2), Some("p")), (None, Some("q"))];
    let g2 = vec![(Some(7), Some("r")), (Some(7), Some("s"))];
    let g3 = vec![(Some(-1), Some("t")), (Some(7), None)];

    let mut a = ExtremumAccumulator::new(Extremum::Max);
    a.update_batch(g1.clone());
    let mut b = ExtremumAccumulator::new(Extremum::Max);
    b.update_batch(g2.clone());
    let mut c = ExtremumAccumulator::new(Extremum::Max);
    c.update_batch(g3.clone());

    let mut total = ExtremumAccumulator::new(Extremum::Max);
    total.merge(a.state().map(|(k, p)| (k, *p)));
    total.merge(b.state().map(|(k, p)| (k, *p)));
    total.merge(c.state().map(|(k, p)| (k, *p)));

    let mut single = ExtremumAccumulator::new(Extremum::Max);
    let mut all = g1;
    all.extend(g2);
    all.extend(g3);
    single.update_batch(all);

    assert_eq!(total.evaluate(), Some(&"r"));
    assert_eq!(total.evaluate(), single.evaluate());
    assert_eq!(total.best_key(), single.best_key());
}

#[test]
fn extremum_rebuilt_from_state_evaluates_alike() {
    let mut acc = ExtremumAccumulator::new(Extremum::Min);
    acc.update_batch(pairs());
    let mut rebuilt = ExtremumAccumulator::new(Extremum::Min);
    rebuilt.merge(acc.state().map(|(k, p)| (k, *p)));
    assert_eq!(rebuilt.evaluate(), acc.evaluate());
    assert_eq!(rebuilt.best_key(), acc.best_key());
}

#[test]
fn max_by_function_describes_itself() {
    let function = MaxByFunction::new(ScalarKind::Utf8);
    assert_eq!(function.name(), "max_by");
    assert_eq!(function.signature().arguments, vec![ScalarKind::Utf8, ScalarKind::Int64]);
    assert_eq!(function.signature().volatility, Volatility::Immutable);
    assert_eq!(function.return_type(), ScalarKind::Utf8);
    let mut acc = function.accumulator();
    assert_eq!(acc.direction(), Extremum::Max);
    acc.update_batch(pairs());
    assert_eq!(acc.evaluate(), Some(&"b"));
    let fields = function.state_fields();
    assert_eq!(fields.len(), 2);
    assert_eq!((fields[0].name, fields[0].kind, fields[0].nullable), ("payload", ScalarKind::Utf8, true));
    assert_eq!((fields[1].name, fields[1].kind, fields[1].nullable), ("key", ScalarKind::Int64, true));
}

#[test]
fn min_by_function_describes_itself() {
    let function = MinByFunction::new(ScalarKind::Float64);
    assert_eq!(function.name(), "min_by");
    assert_eq!(function.signature().arguments, vec![ScalarKind::Float64, ScalarKind::Int64]);
    assert_eq!(function.signature().volatility, Volatility::Immutable);
    assert_eq!(function.return_type(), ScalarKind::Float64);
    let mut acc = function.accumulator();
    assert_eq!(acc.direction(), Extremum::Min);
    acc.update_batch(pairs());
    assert_eq!(acc.evaluate(), Some(&"a"));
    let fields = function.state_fields();
    assert_eq!(fields.len(), 2);
    assert_eq!((fields[0].name, fields[0].kind, fields[0].nullable), ("payload", ScalarKind::Float64, true));
    assert_eq!((fields[1].name, fields[1].kind, fields[1].nullable), ("key", ScalarKind::Int64, true));
}
