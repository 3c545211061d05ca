use raptor_trace::{StopIndex, StopRecord, parse, resolve_round_stops};

fn record(offset: i64, lon: f64, lat: f64, name: &str) -> StopRecord {
    StopRecord { offset, lon_bits: lon.to_bits(), lat_bits: lat.to_bits(), name: name.to_string() }
}

fn scenario_trace() -> raptor_trace::RaptorOutput {
    let input = "round,0,\n1,2,3,\nround,1,\nroute,43,\nroute,42,1,2,3,4,5,6,7,8,9,\nround,2,\nmarked_stop,42,\nmarked_stop,43,45,89,78,\n";
    parse(input).unwrap()
}

#[test]
fn unmatched_offsets_are_silently_absent() {
    let index = StopIndex::new(vec![record(1, 10.0, 20.0, "A")]);
    let trace = scenario_trace();
    let resolved = resolve_round_stops(&trace, &index, 0);
    assert_eq!(resolved.len(), 1);
    assert_eq!(resolved[0].offset, 1);
    assert_eq!(f64::from_bits(resolved[0].lon_bits), 10.0);
    assert_eq!(f64::from_bits(resolved[0].lat_bits), 20.0);
    assert_eq!(resolved[0].name, "A");
}

#[test]
fn out_of_range_round_resolves_to_empty() {
    let index = StopIndex::new(vec![record(1, 10.0, 20.0, "A")]);
    let trace = scenario_trace();
    assert!(resolve_round_stops(&trace, &index, 3).is_empty());
    assert!(resolve_round_stops(&trace, &index, 17).is_empty());
    let empty_trace = parse("").unwrap();
    assert!(resolve_round_stops(&empty_trace, &index, 0).is_empty());
}

#[test]
fn route_round_resolves_concatenated_explored_stops() {
    let index = StopIndex::new(vec![
        record(5, 1.0, 2.0, "five"),
        record(43, 3.0, 4.0, "fortythree"),
        record(9, 5.0, 6.0, "nine"),
    ]);
    let trace = scenario_trace();
    // Round 1 refers to stops 1..=9; route ids (43, 42) are not references.
    let resolved = resolve_round_stops(&trace, &index, 1);
    assert_eq!(resolved.len(), 2);
    assert_eq!(resolved[0].offset, 5);
    assert_eq!(resolved[1].offset, 9);
}

#[test]
fn transfer_round_resolves_reached_stops_only() {
    let index = StopIndex::new(vec![
        record(42, 1.0, 1.0, "fortytwo"),
        record(43, 2.0, 2.0, "fortythree"),
        record(89, 3.0, 3.0, "eightynine"),
    ]);
    let trace = scenario_trace();
    // Round 2 reaches stops 45, 89, 78; marked stops 42 and 43 are labels.
    let resolved = resolve_round_stops(&trace, &index, 2);
    assert_eq!(resolved.len(), 1);
    assert_eq!(resolved[0].offset, 89);
}

#[test]
fn result_follows_table_order_not_reference_order() {
    let index = StopIndex::new(vec![record(3, 0.0, 0.0, "three"), record(1, 0.0, 0.0, "one")]);
    let trace = parse("round,0\n1,3\n").unwrap();
    let resolved = resolve_round_stops(&trace, &index, 0);
    assert_eq!(resolved.len(), 2);
    assert_eq!(resolved[0].offset, 3);
    assert_eq!(resolved[1].offset, 1);
}

#[test]
fn duplicate_references_collapse() {
    let index = StopIndex::new(vec![record(1, 0.0, 0.0, "one"), record(2, 0.0, 0.0, "two")]);
    let trace = parse("round,0\n1,1,2,1\n").unwrap();
    let resolved = resolve_round_stops(&trace, &index, 0);
    assert_eq!(resolved.len(), 2);
    assert_eq!(resolved[0].offset, 1);
    assert_eq!(resolved[1].offset, 2);
}

#[test]
fn lookup_one_returns_first_matching_row() {
    let index = StopIndex::new(vec![
        record(7, 1.0, 2.0, "first"),
        record(8, 3.0, 4.0, "other"),
        record(7, 5.0, 6.0, "second"),
    ]);
    assert_eq!(index.row_count(), 3);
    let found = index.lookup_one(7).unwrap();
    assert_eq!(found.name, "first");
    assert_eq!(f64::from_bits(found.lon_bits), 1.0);
    assert!(index.lookup_one(99).is_none());
}
