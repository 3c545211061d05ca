use raptor_trace::{ParseError, Round, RoundKind, echo, parse, parse_and_process_raptor_output};

#[test]
fn test_echo() {
    assert_eq!(echo("123"), "123");
}

#[test]
fn test_parse_and_process_raptor_output() {
    let input = r#"round,0,
1,2,3,
round,1,
route,43,
route,42,1,2,3,4,5,6,7,8,9,
round,2,
marked_stop,42,
marked_stop,43,45,89,78,
"#;
    let raptor_output = parse_and_process_raptor_output(input).unwrap();
    assert_eq!(raptor_output.rounds.len(), 3);
}

#[test]
fn three_round_trace_contents() {
    let input = "round,0,\n1,2,3,\nround,1,\nroute,43,\nroute,42,1,2,3,4,5,6,7,8,9,\nround,2,\nmarked_stop,42,\nmarked_stop,43,45,89,78,\n";
    let trace = parse(input).unwrap();
    assert_eq!(trace.rounds_number(), 3);
    match &trace.rounds[0] {
        Round::Init { marked_stops } => assert_eq!(marked_stops, &vec![1, 2, 3]),
        _ => panic!("round 0 should be Init"),
    }
    match &trace.rounds[1] {
        Round::Route { explorations } => {
            assert_eq!(explorations.len(), 2);
            assert_eq!(explorations[0].route_id, 43);
            assert_eq!(explorations[0].explored_stops, vec![]);
            assert_eq!(explorations[1].route_id, 42);
            assert_eq!(explorations[1].explored_stops, vec![1, 2, 3, 4, 5, 6, 7, 8, 9]);
        },
        _ => panic!("round 1 should be Route"),
    }
    match &trace.rounds[2] {
        Round::Transfer { explorations } => {
            assert_eq!(explorations.len(), 2);
            assert_eq!(explorations[0].marked_stop, 42);
            assert_eq!(explorations[0].reached_stops, vec![]);
            assert_eq!(explorations[1].marked_stop, 43);
            assert_eq!(explorations[1].reached_stops, vec![45, 89, 78]);
        },
        _ => panic!("round 2 should be Transfer"),
    }
}

#[test]
fn header_without_number_is_malformed() {
    let err = parse("round,\n").unwrap_err();
    assert_eq!(err, ParseError::MalformedHeader { line: 1 });
}

#[test]
fn lone_round_zero_header_gives_one_empty_init_round() {
    for input in ["round,0,", "round,0,\n"] {
        let trace = parse(input).unwrap();
        assert_eq!(trace.rounds_number(), 1);
        match &trace.rounds[0] {
            Round::Init { marked_stops } => assert!(marked_stops.is_empty()),
            _ => panic!("round 0 should be Init"),
        }
    }
}

#[test]
fn header_label_must_be_the_exact_first_token() {
    // `roundish,7` is a data line: its first token is not the literal label.
    let trace = parse("round,0\nroundish,7\n").unwrap();
    assert_eq!(trace.rounds_number(), 1);
    match &trace.rounds[0] {
        Round::Init { marked_stops } => assert_eq!(marked_stops, &vec![7]),
        _ => panic!("round 0 should be Init"),
    }
}

#[test]
fn empty_input_gives_empty_trace() {
    assert_eq!(parse("").unwrap().rounds_number(), 0);
    assert_eq!(parse("\n\n\n").unwrap().rounds_number(), 0);
}

#[test]
fn data_before_first_round_is_discarded() {
    let trace = parse("1,2,3\nround,0\n4\n").unwrap();
    assert_eq!(trace.rounds_number(), 1);
    match &trace.rounds[0] {
        Round::Init { marked_stops } => assert_eq!(marked_stops, &vec![4]),
        _ => panic!("round 0 should be Init"),
    }
}

#[test]
fn round_zero_after_open_round_is_malformed() {
    let err = parse("round,0\nround,0\n").unwrap_err();
    assert_eq!(err, ParseError::MalformedHeader { line: 2 });
}

#[test]
fn header_number_is_last_parsable_token() {
    let trace = parse("round,junk,3,xyz,7,\n").unwrap();
    assert_eq!(trace.rounds_number(), 1);
    assert!(matches!(&trace.rounds[0], Round::Route { .. }));
}

#[test]
fn large_header_numbers_are_accepted() {
    let trace = parse("round,256\n").unwrap();
    assert_eq!(trace.rounds_number(), 1);
    assert!(matches!(&trace.rounds[0], Round::Transfer { .. }));
    let trace = parse("round,4294967297\n").unwrap();
    assert!(matches!(&trace.rounds[0], Round::Route { .. }));
    let trace = parse("round,18446744073709551615\n").unwrap();
    assert!(matches!(&trace.rounds[0], Round::Route { .. }));
}

#[test]
fn header_number_beyond_machine_width_is_malformed() {
    let err = parse("round,18446744073709551616\n").unwrap_err();
    assert_eq!(err, ParseError::MalformedHeader { line: 1 });
}

#[test]
fn route_line_without_route_id_aborts() {
    let err = parse("round,1\nroute,x,\n").unwrap_err();
    assert_eq!(err, ParseError::MissingRequiredField { line: 2, kind: RoundKind::Route });
}

#[test]
fn transfer_line_without_marked_stop_aborts() {
    let err = parse("round,2\nmarked_stop\n").unwrap_err();
    assert_eq!(err, ParseError::MissingRequiredField { line: 2, kind: RoundKind::Transfer });
}

#[test]
fn init_fields_parse_independently() {
    let input = "round,0\n9223372036854775807,-9223372036854775808,9223372036854775808,+5,oops\n";
    let trace = parse(input).unwrap();
    match &trace.rounds[0] {
        Round::Init { marked_stops } => {
            assert_eq!(marked_stops, &vec![i64::MAX, i64::MIN, 5]);
        },
        _ => panic!("round 0 should be Init"),
    }
}

#[test]
fn crlf_input_parses_like_lf_input() {
    let trace = parse("round,0\r\n1,2\r\nround,1\r\nroute,9,4\r\n").unwrap();
    assert_eq!(trace.rounds_number(), 2);
    match &trace.rounds[0] {
        Round::Init { marked_stops } => assert_eq!(marked_stops, &vec![1, 2]),
        _ => panic!("round 0 should be Init"),
    }
    match &trace.rounds[1] {
        Round::Route { explorations } => {
            assert_eq!(explorations[0].route_id, 9);
            assert_eq!(explorations[0].explored_stops, vec![4]);
        },
        _ => panic!("round 1 should be Route"),
    }
}

#[test]
fn parity_rule_orders_round_kinds() {
    let trace = parse("round,0\nround,1\nround,2\nround,3\nround,4\n").unwrap();
    assert_eq!(trace.rounds_number(), 5);
    assert!(matches!(&trace.rounds[0], Round::Init { .. }));
    assert!(matches!(&trace.rounds[1], Round::Route { .. }));
    assert!(matches!(&trace.rounds[2], Round::Transfer { .. }));
    assert!(matches!(&trace.rounds[3], Round::Route { .. }));
    assert!(matches!(&trace.rounds[4], Round::Transfer { .. }));
}

#[test]
fn trace_without_round_zero_starts_with_parity_kind() {
    let trace = parse("round,1\nroute,5,1\n").unwrap();
    assert_eq!(trace.rounds_number(), 1);
    assert!(matches!(&trace.rounds[0], Round::Route { .. }));
}

#[test]
fn parse_is_deterministic() {
    let input = "round,0\n1,2\nround,1\nroute,7,8,9\n";
    let a = parse(input).unwrap();
    let b = parse(input).unwrap();
    assert_eq!(a.rounds_number(), b.rounds_number());
    match (&a.rounds[1], &b.rounds[1]) {
        (Round::Route { explorations: ea }, Round::Route { explorations: eb }) => {
            assert_eq!(ea[0].route_id, eb[0].route_id);
            assert_eq!(ea[0].explored_stops, eb[0].explored_stops);
        },
        _ => panic!("round 1 should be Route in both"),
    }
}

#[test]
fn called_by_ts_returns_marker() {
    let trace = parse("").unwrap();
    assert_eq!(trace.called_by_TS(), "TOTO");
}
