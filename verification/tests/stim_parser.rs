use stimcircuit::{Arg, Gate, Target, parse_string};

    #[test]
    fn simple_stim_file() {
        let input = r#"
        REPEAT 10 {
          X 0 # comment

          Y 1
        }
        "#;
        let result = parse_string(input);
        assert!(
            result.is_ok(),
            "Failed to parse simple stim file:\n{:}",
            result.as_ref().unwrap_err().message
        );

        let circuit = result.unwrap();
        assert_eq!(circuit.instructions().len(), 1);
        assert_eq!(circuit.instructions()[0].gate(), Gate::REPEAT);
        assert_eq!(circuit.instructions()[0].args()[0], Arg::Index(10));

        let circuit1 = circuit.instructions()[0].block().unwrap();
        assert_eq!(circuit1.instructions().len(), 2);
        assert_eq!(circuit1.instructions()[0].gate(), Gate::X);
        assert_eq!(
            circuit1.instructions()[0].targets()[0],
            Target::Qubit(0, false)
        );
        assert_eq!(circuit1.instructions()[1].gate(), Gate::Y);
        assert_eq!(
            circuit1.instructions()[1].targets()[0],
            Target::Qubit(1, false)
        );
    }

    #[test]
    fn big_stim_file() {
        // Test comes from the stim documentation: https://github.com/quantumlib/Stim/blob/9898718/doc/file_format_stim_circuit.md
        let input = r#"
# Generated surface_code circuit.
# task: rotated_memory_x
# rounds: 1000
# distance: 3
# before_round_data_depolarization: 0
# before_measure_flip_probability: 0
# after_reset_flip_probability: 0
# after_clifford_depolarization: 0.001
# layout:
#                 X25
#     L15     d17     d19
# Z14     X16     Z18
#     L8      d10     d12
#         Z9      X11     Z13
#     L1      d3      d5 
#         X2 
# Legend:
#     d# = data qubit
#     L# = data qubit with logical observable crossing
#     X# = measurement qubit (X stabilizer)
#     Z# = measurement qubit (Z stabilizer)
QUBIT_COORDS(1, 1) 1
QUBIT_COORDS(2, 0) 2
QUBIT_COORDS(3, 1) 3
QUBIT_COORDS(5, 1) 5
QUBIT_COORDS(1, 3) 8
QUBIT_COORDS(2, 2) 9
QUBIT_COORDS(3, 3) 10
QUBIT_COORDS(4, 2) 11
QUBIT_COORDS(5, 3) 12
QUBIT_COORDS(6, 2) 13
QUBIT_COORDS(0, 4) 14
QUBIT_COORDS(1, 5) 15
QUBIT_COORDS(2, 4) 16
QUBIT_COORDS(3, 5) 17
QUBIT_COORDS(4, 4) 18
QUBIT_COORDS(5, 5) 19
QUBIT_COORDS(4, 6) 25
RX 1 3 5 8 10 12 15 17 19
R 2 9 11 13 14 16 18 25
TICK
H 2 11 16 25
DEPOLARIZE1(0.001) 2 11 16 25
TICK
CX 2 3 16 17 11 12 15 14 10 9 19 18
DEPOLARIZE2(0.001) 2 3 16 17 11 12 15 14 10 9 19 18
TICK
CX 2 1 16 15 11 10 8 14 3 9 12 18
DEPOLARIZE2(0.001) 2 1 16 15 11 10 8 14 3 9 12 18
TICK
CX 16 10 11 5 25 19 8 9 17 18 12 13
DEPOLARIZE2(0.001) 16 10 11 5 25 19 8 9 17 18 12 13
TICK
CX 16 8 11 3 25 17 1 9 10 18 5 13
DEPOLARIZE2(0.001) 16 8 11 3 25 17 1 9 10 18 5 13
TICK
H 2 11 16 25
DEPOLARIZE1(0.001) 2 11 16 25
TICK
MR 2 9 11 13 14 16 18 25
DETECTOR(2, 0, 0) rec[-8]
DETECTOR(2, 4, 0) rec[-3]
DETECTOR(4, 2, 0) rec[-6]
DETECTOR(4, 6, 0) rec[-1]
REPEAT 999 {
    TICK
    H 2 11 16 25
    DEPOLARIZE1(0.001) 2 11 16 25
    TICK
    CX 2 3 16 17 11 12 15 14 10 9 19 18
    DEPOLARIZE2(0.001) 2 3 16 17 11 12 15 14 10 9 19 18
    TICK
    CX 2 1 16 15 11 10 8 14 3 9 12 18
    DEPOLARIZE2(0.001) 2 1 16 15 11 10 8 14 3 9 12 18
    TICK
    CX 16 10 11 5 25 19 8 9 17 18 12 13
    DEPOLARIZE2(0.001) 16 10 11 5 25 19 8 9 17 18 12 13
    TICK
    CX 16 8 11 3 25 17 1 9 10 18 5 13
    DEPOLARIZE2(0.001) 16 8 11 3 25 17 1 9 10 18 5 13
    TICK
    H 2 11 16 25
    DEPOLARIZE1(0.001) 2 11 16 25
    TICK
    MR 2 9 11 13 14 16 18 25
    SHIFT_COORDS(0, 0, 1)
    DETECTOR(2, 0, 0) rec[-8] rec[-16]
    DETECTOR(2, 2, 0) rec[-7] rec[-15]
    DETECTOR(4, 2, 0) rec[-6] rec[-14]
    DETECTOR(6, 2, 0) rec[-5] rec[-13]
    DETECTOR(0, 4, 0) rec[-4] rec[-12]
    DETECTOR(2, 4, 0) rec[-3] rec[-11]
    DETECTOR(4, 4, 0) rec[-2] rec[-10]
    DETECTOR(4, 6, 0) rec[-1] rec[-9]
}
MX 1 3 5 8 10 12 15 17 19
DETECTOR(2, 0, 1) rec[-8] rec[-9] rec[-17]
DETECTOR(2, 4, 1) rec[-2] rec[-3] rec[-5] rec[-6] rec[-12]
DETECTOR(4, 2, 1) rec[-4] rec[-5] rec[-7] rec[-8] rec[-15]
DETECTOR(4, 6, 1) rec[-1] rec[-2] rec[-10]
OBSERVABLE_INCLUDE(0) rec[-3] rec[-6] rec[-9]
"#;
        let result = parse_string(input);

        assert!(
            result.is_ok(),
            "Failed to parse big stim file:\n{:}",
            result.as_ref().unwrap_err().message
        );

        println!("Parsed circuit:\n{}", result.unwrap().to_string());
    }

    #[test]
    fn nested_repeat() {
        let input = r#"
        H 0
        REPEAT 2 {
            X 0
            REPEAT 3 {
                Y 0
                REPEAT 4 {
                    Z 0
                }
                Y 1
            }
            X 1
        }
        H 1
        "#;
        let result = parse_string(input);
        assert!(
            result.is_ok(),
            "Failed to parse nested repeat:\n{:}",
            result.as_ref().unwrap_err().message
        );
        let circuit = result.unwrap();
        println!("Parsed circuit:\n{}", circuit.to_string());
    }
