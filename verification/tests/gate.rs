use stimcircuit::{ArgType, Gate, NUM_GATES, TargetType};

#[test]
fn gate_data_aligned() {
    // each gate name reads back as that gate
    for i in 0..NUM_GATES {
        let g = Gate::from(i);
        let g1 = Gate::from(g.name());
        assert_eq!(g, g1);
    }
}

#[test]
fn gate_properties() {
    assert_eq!(Gate::S.name(), "S");
    assert_eq!(Gate::S.arg_type(), ArgType::Empty);
    assert_eq!(Gate::S.block(), false);
    assert_eq!(Gate::S.fusable(), true);
    assert_eq!(Gate::S.inverse(), Gate::S_DAG);
    assert_eq!(Gate::S.noisy(), false);
    assert_eq!(Gate::S.noop_on_qubits(), false);
    assert_eq!(Gate::S.produces_results(), false);
    assert_eq!(Gate::S.reset(), false);
    assert_eq!(Gate::S.target_type(), TargetType::Single);
    assert_eq!(Gate::S.unitary(), true);
}
