use stimcircuit::{Arg, Circuit, Gate, Pauli, Target, parse_bytes, parse_string, parse_target};

fn error_of(text: &str) -> (usize, String) {
    let e = parse_string(text).unwrap_err();
    (e.line, e.message)
}

#[test]
fn unknown_gate_is_reported_with_its_line() {
    assert_eq!(error_of("H 0\nFOO 1\n"), (2, "Unknown gate: FOO".to_string()));
}

#[test]
fn gate_names_are_case_sensitive() {
    assert_eq!(error_of("h 0"), (1, "Unknown gate: h".to_string()));
}

#[test]
fn alternative_spellings_are_read() {
    let c = parse_string("CNOT 0 1\nMZ 2\nH_XZ 3\nCORRELATED_ERROR(0.1) X1").unwrap();
    assert_eq!(c.instructions()[0].gate(), Gate::CX);
    assert_eq!(c.instructions()[1].gate(), Gate::M);
    assert_eq!(c.instructions()[2].gate(), Gate::H);
    assert_eq!(c.instructions()[3].gate(), Gate::E);
}

#[test]
fn wrong_argument_count_is_reported() {
    assert_eq!(
        error_of("DEPOLARIZE1(0.1, 0.2) 0"),
        (1, "Incorrect number of arguments for gate DEPOLARIZE1: 2".to_string())
    );
}

#[test]
fn missing_parentheses_skip_the_argument_count() {
    let c = parse_string("DEPOLARIZE1 0").unwrap();
    assert_eq!(c.instructions()[0].args().len(), 0);
}

#[test]
fn arguments_of_gates_without_arguments_are_dropped() {
    let c = parse_string("H(0.5) 0").unwrap();
    assert_eq!(c.instructions()[0].gate(), Gate::H);
    assert_eq!(c.instructions()[0].args().len(), 0);
}

#[test]
fn index_argument_must_be_unsigned() {
    assert_eq!(
        error_of("\nOBSERVABLE_INCLUDE(0.5) rec[-1]"),
        (2, "Expected an unsigned integer for gate OBSERVABLE_INCLUDE, found: 0.5".to_string())
    );
}

#[test]
fn target_of_wrong_kind_is_reported() {
    assert_eq!(error_of("H rec[-1]"), (1, "Invalid target for gate H: rec[-1]".to_string()));
    assert_eq!(error_of("DETECTOR !7"), (1, "Invalid target for gate DETECTOR: !7".to_string()));
    assert_eq!(error_of("MPAD 0"), (1, "Invalid target for gate MPAD: 0".to_string()));
}

#[test]
fn wrong_target_count_is_reported() {
    assert_eq!(error_of("CX 0 1 2"), (1, "Incorrect number of targets for gate CX: 3".to_string()));
    assert_eq!(error_of("H"), (0, "Incorrect number of targets for gate H: 0".to_string()));
}

#[test]
fn syntax_errors_come_first() {
    assert_eq!(error_of("FOO 0\nX 0 $\n"), (2, "invalid syntax".to_string()));
    assert_eq!(error_of("X 0\n}\n"), (2, "invalid syntax".to_string()));
    assert_eq!(error_of("REPEAT 2 {\nX 0\n"), (3, "invalid syntax".to_string()));
    assert_eq!(error_of("X(0.1)0"), (1, "invalid syntax".to_string()));
    assert_eq!(error_of("X 0rec[-1]"), (1, "invalid syntax".to_string()));
}

#[test]
fn too_large_numbers_are_refused() {
    assert!(parse_bytes(b"X 99999999999999999999999").is_none());
    assert!(parse_bytes(b"REPEAT 99999999999999999999999 {\n}\n").is_none());
    assert!(parse_bytes(b"FOO 0\nX 99999999999999999999999").unwrap().is_err());
}

#[test]
fn targets_of_every_shape_are_read() {
    let c = parse_string("MPP !X1*Y2*Z3 Z4\nCX rec[-2] 5 !6 7\n").unwrap();
    assert_eq!(
        c.instructions()[0].targets()[0],
        Target::PauliString(vec![(Pauli::X, 1), (Pauli::Y, 2), (Pauli::Z, 3)], true)
    );
    assert_eq!(c.instructions()[0].targets()[1], Target::PauliString(vec![(Pauli::Z, 4)], false));
    assert_eq!(c.instructions()[1].targets()[0], Target::MeasurementRecord(2));
    assert_eq!(c.instructions()[1].targets()[1], Target::Qubit(5, false));
    assert_eq!(c.instructions()[1].targets()[2], Target::Qubit(6, true));
}

#[test]
fn arguments_keep_their_literal() {
    let c = parse_string("DETECTOR(1, -2.5, 3e-2) rec[-1]\nX_ERROR(0.125) 0").unwrap();
    assert_eq!(
        c.instructions()[0].args(),
        &[
            Arg::Coord("1".to_string()),
            Arg::Coord("-2.5".to_string()),
            Arg::Coord("3e-2".to_string())
        ][..]
    );
    assert_eq!(c.instructions()[1].args()[0], Arg::Probability("0.125".to_string()));
}

#[test]
fn comments_blank_lines_and_windows_line_ends_are_ignored() {
    let c = parse_string("# header\r\n\r\n  H 0  # hadamard\r\n\tTICK\n").unwrap();
    assert_eq!(c.len(), 2);
    assert_eq!(c.instructions()[0].gate(), Gate::H);
    assert_eq!(c.instructions()[1].gate(), Gate::TICK);
}

#[test]
fn repeat_without_brace_is_an_instruction() {
    assert_eq!(error_of("REPEAT 5"), (1, "Invalid target for gate REPEAT: 5".to_string()));
    let c = parse_string("REPEAT").unwrap();
    assert_eq!(c.instructions()[0].gate(), Gate::REPEAT);
    assert!(c.instructions()[0].block().is_none());
}

#[test]
fn parse_target_always_fails() {
    let e = parse_target("rec[-3] junk").unwrap_err();
    assert_eq!((e.line, e.message), (1, "Invalid target for gate NOT_A_GATE: rec[-3]".to_string()));
    let e = parse_target(" 5").unwrap_err();
    assert_eq!((e.line, e.message), (1, "invalid syntax".to_string()));
}

#[test]
fn error_text_names_the_line() {
    let e = parse_string("FOO").unwrap_err();
    assert_eq!(e.to_string(), "Parse error on line 1:\nUnknown gate: FOO");
}

#[test]
fn printing_then_reading_gives_the_circuit_back() {
    let text = "QUBIT_COORDS(1, 1) 1\nREPEAT 3 {\n    H 0\n    REPEAT 2 {\n        CX rec[-1] 2\n    }\n    DEPOLARIZE1(0.001) 2 3\n}\nMPP !X1*Z2\n";
    let c = parse_string(text).unwrap();
    assert_eq!(c.to_string(), text);
    let again = parse_string(&c.to_string()).unwrap();
    assert_eq!(again, c);
}

#[test]
fn empty_text_is_an_empty_circuit() {
    let c: Circuit = parse_string("").unwrap();
    assert!(c.is_empty());
}

#[test]
fn built_circuit_reads_back_after_printing() {
    let mut inner = Circuit::new();
    inner.append(
        Gate::X_ERROR,
        vec![Target::Qubit(0, false)],
        vec![Arg::Probability("0.25".to_string())],
    );
    inner.append(Gate::MPP, vec![Target::PauliString(vec![(Pauli::Y, 3)], true)], vec![]);
    let mut nested = Circuit::new();
    nested.append(Gate::TICK, vec![], vec![]);
    inner.append_repeat(2, nested);
    let mut c = Circuit::new();
    c.append(Gate::CX, vec![Target::MeasurementRecord(1), Target::Qubit(2, true)], vec![]);
    c.append_repeat(4, inner);
    c.append(
        Gate::DETECTOR,
        vec![Target::MeasurementRecord(2)],
        vec![Arg::Coord("-1.5e3".to_string()), Arg::Coord("7".to_string())],
    );
    let text = c.to_string();
    assert_eq!(
        text,
        "CX rec[-1] !2\nREPEAT 4 {\n    X_ERROR(0.25) 0\n    MPP !Y3\n    REPEAT 2 {\n        TICK\n    }\n}\nDETECTOR(-1.5e3, 7) rec[-2]\n"
    );
    let back = parse_string(&text).unwrap();
    assert_eq!(back, c);
}

#[test]
fn repeat_with_parentheses_drops_its_arguments_and_reads_back() {
    let c = parse_string("REPEAT(5)").unwrap();
    assert_eq!(c.instructions()[0].gate(), Gate::REPEAT);
    assert_eq!(c.instructions()[0].args().len(), 0);
    assert!(c.instructions()[0].block().is_none());
    assert_eq!(c.to_string(), "REPEAT\n");
    assert_eq!(parse_string(&c.to_string()).unwrap(), c);
}

#[test]
fn any_parsed_circuit_reads_back_after_printing() {
    let text = "# setup\r\n  CNOT 0 1 # pair\nMZ(0.01) !007\nH(0.5) 2\nREPEAT 2 {\n\tE(1.) X1*Z02\n  DETECTOR(-1e-3, 2E+1) rec[-1]\n}\nREPEAT\nOBSERVABLE_INCLUDE(3) Y4\n";
    let c = parse_string(text).unwrap();
    let printed = c.to_string();
    assert_eq!(
        printed,
        "CX 0 1\nM(0.01) !7\nH 2\nREPEAT 2 {\n    E(1.) X1*Z2\n    DETECTOR(-1e-3, 2E+1) rec[-1]\n}\nREPEAT\nOBSERVABLE_INCLUDE(3) Y4\n"
    );
    assert_eq!(parse_string(&printed).unwrap(), c);
}

#[test]
fn unrolled_circuits_hold_no_blocks() {
    let c = parse_string("REPEAT 2 {\n REPEAT 3 {\n  X 0\n }\n H 1\n}\n").unwrap();
    let u = c.unrolled();
    assert_eq!(u.len(), 8);
    for i in u.instructions() {
        assert!(i.block().is_none());
        assert!(i.gate() != Gate::REPEAT);
    }
}
