use vstd::prelude::*;
use vstd::string::StrSliceExecFns;
use vstd::string::StringExecFns;

verus! {

/// A single-qubit Pauli operator, as it appears in a Pauli-string target such as `X3*Z4`.
#[derive(Debug, Clone, Copy, PartialEq, Eq, Structural)]
pub enum Pauli {
    I,
    X,
    Y,
    Z,
}

/// The error returned when a text does not name a Pauli operator.
#[derive(Debug, PartialEq, Eq)]
pub struct GateError(pub String);

/// The letter that stands for a Pauli operator.
pub open spec fn spec_pauli_letter(p: Pauli) -> char {
    match p {
        Pauli::I => 'I',
        Pauli::X => 'X',
        Pauli::Y => 'Y',
        Pauli::Z => 'Z',
    }
}

/// The Pauli operator that a one-letter text names, if any.
pub open spec fn spec_pauli_named(s: Seq<char>) -> Option<Pauli> {
    if s == seq!['I'] {
        Some(Pauli::I)
    } else if s == seq!['X'] {
        Some(Pauli::X)
    } else if s == seq!['Y'] {
        Some(Pauli::Y)
    } else if s == seq!['Z'] {
        Some(Pauli::Z)
    } else {
        None
    }
}

/// Whether two texts hold the same characters.
pub fn str_eq(a: &str, b: &str) -> (r: bool)
    ensures
        r == (a@ == b@),
{
    let n = a.unicode_len();
    if n != b.unicode_len() {
        return false;
    }
    let mut i: usize = 0;
    while i < n
        invariant
            n == a@.len(),
            n == b@.len(),
            i <= n,
            forall|j: int| 0 <= j < i ==> a@[j] == b@[j],
        decreases n - i,
    {
        if a.get_char(i) != b.get_char(i) {
            return false;
        }
        i = i + 1;
    }
    assert(a@ =~= b@);
    true
}

impl Pauli {
    /// The letter of this operator (`I`, `X`, `Y` or `Z`).
    pub fn letter(&self) -> (c: char)
        ensures
            c == spec_pauli_letter(*self),
    {
        match self {
            Pauli::I => 'I',
            Pauli::X => 'X',
            Pauli::Y => 'Y',
            Pauli::Z => 'Z',
        }
    }

    /// Reads a Pauli operator from its one-letter name.
    pub fn from_letter(s: &str) -> (r: Result<Pauli, GateError>)
        ensures
            match spec_pauli_named(s@) {
                Some(p) => r == Ok::<Pauli, GateError>(p),
                None => r matches Err(e) && e.0@ == "not a Pauli operator: "@ + s@,
            },
    {
        if s.unicode_len() == 1 {
            let c = s.get_char(0);
            proof {
                assert(s@ =~= seq![c]);
            }
            if c == 'I' {
                return Ok(Pauli::I);
            } else if c == 'X' {
                return Ok(Pauli::X);
            } else if c == 'Y' {
                return Ok(Pauli::Y);
            } else if c == 'Z' {
                return Ok(Pauli::Z);
            }
        }
        let mut m = String::from_str("not a Pauli operator: ");
        m.append(s);
        Err(GateError(m))
    }
}

/// Every gate type that a `.stim` file can name.
#[allow(non_camel_case_types)]
#[derive(Debug, Clone, Copy, PartialEq, Eq, Structural)]
pub enum Gate {
    NOT_A_GATE,
    // Annotations
    DETECTOR,
    OBSERVABLE_INCLUDE,
    TICK,
    QUBIT_COORDS,
    SHIFT_COORDS,
    // Control flow
    REPEAT,
    // Collapsing gates
    MPAD,
    MX,
    MY,
    M, // also read as: MZ
    MRX,
    MRY,
    MR, // also read as: MRZ
    RX,
    RY,
    R, // also read as: RZ
    // Controlled gates
    XCX,
    XCY,
    XCZ,
    YCX,
    YCY,
    YCZ,
    CX, // also read as: CNOT, ZCX
    CY, // also read as: ZCY
    CZ, // also read as: ZCZ
    // Hadamard-like gates
    H, // also read as: H_XZ
    H_XY,
    H_YZ,
    // Noise channels
    DEPOLARIZE1,
    DEPOLARIZE2,
    X_ERROR,
    Y_ERROR,
    Z_ERROR,
    PAULI_CHANNEL_1,
    PAULI_CHANNEL_2,
    E, // also read as: CORRELATED_ERROR
    ELSE_CORRELATED_ERROR,
    // Heralded noise channels
    HERALDED_ERASE,
    HERALDED_PAULI_CHANNEL_1,
    // Pauli gates
    I,
    X,
    Y,
    Z,
    // Period 3 gates
    C_XYZ,
    C_ZYX,
    // Period 4 gates
    SQRT_X,
    SQRT_X_DAG,
    SQRT_Y,
    SQRT_Y_DAG,
    S, // also read as: SQRT_Z
    S_DAG, // also read as: SQRT_Z_DAG
    // Pair measurement gates
    SQRT_XX,
    SQRT_XX_DAG,
    SQRT_YY,
    SQRT_YY_DAG,
    SQRT_ZZ,
    SQRT_ZZ_DAG,
    // Pauli product gates
    MPP,
    SPP,
    SPP_DAG,
    // Swap gates
    SWAP,
    ISWAP,
    CXSWAP,
    SWAPCX,
    CZSWAP,
    ISWAP_DAG,
    // Pair measurement gates
    MXX,
    MYY,
    MZZ,
}

impl Default for Gate {
    fn default() -> (g: Gate)
        ensures
            g == Gate::NOT_A_GATE,
    {
        Gate::NOT_A_GATE
    }
}

/// The number of gate types; `Gate::from(i)` names a real gate for each `i` below it.
pub const NUM_GATES: usize = 70;

/// The kind of targets that a gate takes.
#[derive(Debug, Clone, Copy, PartialEq, Eq, Structural)]
pub enum TargetType {
    Empty,
    Single,
    SingleCQ,
    Pair,
    PairCQ,
    Pauli,
    MeasurementRecord,
    PauliOrMeasurementRecord,
    Bool,
}

/// The kind of parenthesised arguments that a gate takes.
#[derive(Debug, Clone, Copy, PartialEq, Eq, Structural)]
pub enum ArgType {
    Empty,
    ProbabilityOpt,
    Probability(usize),
    Coords,
    Index,
}

/// The static description of one gate type.
pub struct GateData {
    name: &'static str,
    arg_type: ArgType,
    block: bool,
    flow_data: &'static [&'static str],
    fusable: bool,
    inverse: Gate,
    noisy: bool,
    noop_on_qubits: bool,
    produces_results: bool,
    reset: bool,
    target_type: TargetType,
    unitary: bool,
}

impl GateData {
    /// The description of a gate that is none of the known ones.
    pub closed spec fn is_default(self) -> bool {
        &&& self.name@ == ""@
        &&& self.arg_type == ArgType::Empty
        &&& !self.block
        &&& self.flow_data@.len() == 0
        &&& self.fusable
        &&& self.inverse == Gate::NOT_A_GATE
        &&& !self.noisy
        &&& !self.noop_on_qubits
        &&& !self.produces_results
        &&& !self.reset
        &&& self.target_type == TargetType::Empty
        &&& !self.unitary
    }

    /// The description of gate `g`.
    pub closed spec fn describes(self, g: Gate) -> bool {
        &&& self.name@ == spec_name(g)
        &&& self.arg_type == spec_arg_type(g)
        &&& self.block == spec_block(g)
        &&& self.flow_data@.len() == 0
        &&& self.fusable == spec_fusable(g)
        &&& self.inverse == spec_inverse(g)
        &&& self.noisy == spec_noisy(g)
        &&& self.noop_on_qubits == spec_noop_on_qubits(g)
        &&& self.produces_results == spec_produces_results(g)
        &&& self.reset == spec_reset(g)
        &&& self.target_type == spec_target_type(g)
        &&& self.unitary == spec_unitary(g)
    }
}

impl Default for GateData {
    fn default() -> (d: GateData)
        ensures
            d.is_default(),
    {
        GateData {
            name: "",
            arg_type: ArgType::Empty,
            block: false,
            flow_data: &[],
            fusable: true,
            inverse: Gate::NOT_A_GATE,
            noisy: false,
            noop_on_qubits: false,
            produces_results: false,
            reset: false,
            target_type: TargetType::Empty,
            unitary: false,
        }
    }
}

/// The name under which a gate is written (and printed).
pub open spec fn spec_name(g: Gate) -> Seq<char> {
    match g {
        Gate::NOT_A_GATE => "NOT_A_GATE"@,
        Gate::DETECTOR => "DETECTOR"@,
        Gate::OBSERVABLE_INCLUDE => "OBSERVABLE_INCLUDE"@,
        Gate::TICK => "TICK"@,
        Gate::QUBIT_COORDS => "QUBIT_COORDS"@,
        Gate::SHIFT_COORDS => "SHIFT_COORDS"@,
        Gate::REPEAT => "REPEAT"@,
        Gate::MPAD => "MPAD"@,
        Gate::MX => "MX"@,
        Gate::MY => "MY"@,
        Gate::M => "M"@,
        Gate::MRX => "MRX"@,
        Gate::MRY => "MRY"@,
        Gate::MR => "MR"@,
        Gate::RX => "RX"@,
        Gate::RY => "RY"@,
        Gate::R => "R"@,
        Gate::XCX => "XCX"@,
        Gate::XCY => "XCY"@,
        Gate::XCZ => "XCZ"@,
        Gate::YCX => "YCX"@,
        Gate::YCY => "YCY"@,
        Gate::YCZ => "YCZ"@,
        Gate::CX => "CX"@,
        Gate::CY => "CY"@,
        Gate::CZ => "CZ"@,
        Gate::H => "H"@,
        Gate::H_XY => "H_XY"@,
        Gate::H_YZ => "H_YZ"@,
        Gate::DEPOLARIZE1 => "DEPOLARIZE1"@,
        Gate::DEPOLARIZE2 => "DEPOLARIZE2"@,
        Gate::X_ERROR => "X_ERROR"@,
        Gate::Y_ERROR => "Y_ERROR"@,
        Gate::Z_ERROR => "Z_ERROR"@,
        Gate::PAULI_CHANNEL_1 => "PAULI_CHANNEL_1"@,
        Gate::PAULI_CHANNEL_2 => "PAULI_CHANNEL_2"@,
        Gate::E => "E"@,
        Gate::ELSE_CORRELATED_ERROR => "ELSE_CORRELATED_ERROR"@,
        Gate::HERALDED_ERASE => "HERALDED_ERASE"@,
        Gate::HERALDED_PAULI_CHANNEL_1 => "HERALDED_PAULI_CHANNEL_1"@,
        Gate::I => "I"@,
        Gate::X => "X"@,
        Gate::Y => "Y"@,
        Gate::Z => "Z"@,
        Gate::C_XYZ => "C_XYZ"@,
        Gate::C_ZYX => "C_ZYX"@,
        Gate::SQRT_X => "SQRT_X"@,
        Gate::SQRT_X_DAG => "SQRT_X_DAG"@,
        Gate::SQRT_Y => "SQRT_Y"@,
        Gate::SQRT_Y_DAG => "SQRT_Y_DAG"@,
        Gate::S => "S"@,
        Gate::S_DAG => "S_DAG"@,
        Gate::SQRT_XX => "SQRT_XX"@,
        Gate::SQRT_XX_DAG => "SQRT_XX_DAG"@,
        Gate::SQRT_YY => "SQRT_YY"@,
        Gate::SQRT_YY_DAG => "SQRT_YY_DAG"@,
        Gate::SQRT_ZZ => "SQRT_ZZ"@,
        Gate::SQRT_ZZ_DAG => "SQRT_ZZ_DAG"@,
        Gate::MPP => "MPP"@,
        Gate::SPP => "SPP"@,
        Gate::SPP_DAG => "SPP_DAG"@,
        Gate::SWAP => "SWAP"@,
        Gate::ISWAP => "ISWAP"@,
        Gate::CXSWAP => "CXSWAP"@,
        Gate::SWAPCX => "SWAPCX"@,
        Gate::CZSWAP => "CZSWAP"@,
        Gate::ISWAP_DAG => "ISWAP_DAG"@,
        Gate::MXX => "MXX"@,
        Gate::MYY => "MYY"@,
        Gate::MZZ => "MZZ"@,
    }
}

/// The position of a gate in the declaration order of `Gate`.
pub open spec fn gate_index(g: Gate) -> nat {
    match g {
        Gate::NOT_A_GATE => 0,
        Gate::DETECTOR => 1,
        Gate::OBSERVABLE_INCLUDE => 2,
        Gate::TICK => 3,
        Gate::QUBIT_COORDS => 4,
        Gate::SHIFT_COORDS => 5,
        Gate::REPEAT => 6,
        Gate::MPAD => 7,
        Gate::MX => 8,
        Gate::MY => 9,
        Gate::M => 10,
        Gate::MRX => 11,
        Gate::MRY => 12,
        Gate::MR => 13,
        Gate::RX => 14,
        Gate::RY => 15,
        Gate::R => 16,
        Gate::XCX => 17,
        Gate::XCY => 18,
        Gate::XCZ => 19,
        Gate::YCX => 20,
        Gate::YCY => 21,
        Gate::YCZ => 22,
        Gate::CX => 23,
        Gate::CY => 24,
        Gate::CZ => 25,
        Gate::H => 26,
        Gate::H_XY => 27,
        Gate::H_YZ => 28,
        Gate::DEPOLARIZE1 => 29,
        Gate::DEPOLARIZE2 => 30,
        Gate::X_ERROR => 31,
        Gate::Y_ERROR => 32,
        Gate::Z_ERROR => 33,
        Gate::PAULI_CHANNEL_1 => 34,
        Gate::PAULI_CHANNEL_2 => 35,
        Gate::E => 36,
        Gate::ELSE_CORRELATED_ERROR => 37,
        Gate::HERALDED_ERASE => 38,
        Gate::HERALDED_PAULI_CHANNEL_1 => 39,
        Gate::I => 40,
        Gate::X => 41,
        Gate::Y => 42,
        Gate::Z => 43,
        Gate::C_XYZ => 44,
        Gate::C_ZYX => 45,
        Gate::SQRT_X => 46,
        Gate::SQRT_X_DAG => 47,
        Gate::SQRT_Y => 48,
        Gate::SQRT_Y_DAG => 49,
        Gate::S => 50,
        Gate::S_DAG => 51,
        Gate::SQRT_XX => 52,
        Gate::SQRT_XX_DAG => 53,
        Gate::SQRT_YY => 54,
        Gate::SQRT_YY_DAG => 55,
        Gate::SQRT_ZZ => 56,
        Gate::SQRT_ZZ_DAG => 57,
        Gate::MPP => 58,
        Gate::SPP => 59,
        Gate::SPP_DAG => 60,
        Gate::SWAP => 61,
        Gate::ISWAP => 62,
        Gate::CXSWAP => 63,
        Gate::SWAPCX => 64,
        Gate::CZSWAP => 65,
        Gate::ISWAP_DAG => 66,
        Gate::MXX => 67,
        Gate::MYY => 68,
        Gate::MZZ => 69,
    }
}

/// What sits at position `i` of the declaration order, or `NOT_A_GATE` past the end.
pub open spec fn spec_gate_at(i: int) -> Gate {
    if 0 <= i < NUM_GATES {
        choose|g: Gate| gate_index(g) == i
    } else {
        Gate::NOT_A_GATE
    }
}

/// What an alternative spelling stands for, or `NOT_A_GATE` for any other text.
pub open spec fn spec_alias(s: Seq<char>) -> Gate {
    if s == "MZ"@ {
        Gate::M
    } else if s == "MRZ"@ {
        Gate::MR
    } else if s == "RZ"@ {
        Gate::R
    } else if s == "CNOT"@ {
        Gate::CX
    } else if s == "ZCX"@ {
        Gate::CX
    } else if s == "ZCY"@ {
        Gate::CY
    } else if s == "ZCZ"@ {
        Gate::CZ
    } else if s == "H_XZ"@ {
        Gate::H
    } else if s == "CORRELATED_ERROR"@ {
        Gate::E
    } else if s == "SQRT_Z"@ {
        Gate::S
    } else if s == "SQRT_Z_DAG"@ {
        Gate::S_DAG
    } else {
        Gate::NOT_A_GATE
    }
}

/// What a text names: that gate with that name, else that gate with that
/// alternative spelling, else `NOT_A_GATE`.
pub open spec fn spec_gate_named(s: Seq<char>) -> Gate {
    if exists|g: Gate| spec_name(g) == s {
        choose|g: Gate| spec_name(g) == s
    } else {
        spec_alias(s)
    }
}

/// What parenthesised arguments a gate takes.
pub open spec fn spec_arg_type(g: Gate) -> ArgType {
    match g {
        Gate::MPAD | Gate::MX | Gate::MY | Gate::M | Gate::MRX | Gate::MRY | Gate::MR |
            Gate::MPP | Gate::MXX | Gate::MYY | Gate::MZZ => ArgType::ProbabilityOpt,
        Gate::DEPOLARIZE1 | Gate::DEPOLARIZE2 | Gate::X_ERROR | Gate::Y_ERROR |
            Gate::Z_ERROR | Gate::E | Gate::ELSE_CORRELATED_ERROR | Gate::HERALDED_ERASE => ArgType::Probability(1),
        Gate::DETECTOR | Gate::QUBIT_COORDS | Gate::SHIFT_COORDS => ArgType::Coords,
        Gate::OBSERVABLE_INCLUDE => ArgType::Index,
        Gate::PAULI_CHANNEL_1 => ArgType::Probability(3),
        Gate::PAULI_CHANNEL_2 => ArgType::Probability(15),
        Gate::HERALDED_PAULI_CHANNEL_1 => ArgType::Probability(4),
        _ => ArgType::Empty,
    }
}

/// What targets a gate takes.
pub open spec fn spec_target_type(g: Gate) -> TargetType {
    match g {
        Gate::XCX | Gate::XCY | Gate::YCX | Gate::YCY | Gate::DEPOLARIZE2 |
            Gate::PAULI_CHANNEL_2 | Gate::SQRT_XX | Gate::SQRT_XX_DAG | Gate::SQRT_YY |
            Gate::SQRT_YY_DAG | Gate::SQRT_ZZ | Gate::SQRT_ZZ_DAG | Gate::SWAP |
            Gate::ISWAP | Gate::CXSWAP | Gate::SWAPCX | Gate::CZSWAP | Gate::ISWAP_DAG |
            Gate::MXX | Gate::MYY | Gate::MZZ => TargetType::Pair,
        Gate::XCZ | Gate::YCZ | Gate::CX | Gate::CY | Gate::CZ => TargetType::PairCQ,
        Gate::E | Gate::ELSE_CORRELATED_ERROR | Gate::MPP | Gate::SPP | Gate::SPP_DAG => TargetType::Pauli,
        Gate::NOT_A_GATE | Gate::TICK | Gate::SHIFT_COORDS | Gate::REPEAT => TargetType::Empty,
        Gate::DETECTOR => TargetType::MeasurementRecord,
        Gate::OBSERVABLE_INCLUDE => TargetType::PauliOrMeasurementRecord,
        Gate::MPAD => TargetType::Bool,
        _ => TargetType::Single,
    }
}

/// The inverse of each gate (for measurements and resets: the matching measurement).
pub open spec fn spec_inverse(g: Gate) -> Gate {
    match g {
        Gate::REPEAT => Gate::NOT_A_GATE,
        Gate::RX => Gate::MX,
        Gate::RY => Gate::MY,
        Gate::R => Gate::M,
        Gate::C_XYZ => Gate::C_ZYX,
        Gate::C_ZYX => Gate::C_XYZ,
        Gate::SQRT_X => Gate::SQRT_X_DAG,
        Gate::SQRT_X_DAG => Gate::SQRT_X,
        Gate::SQRT_Y => Gate::SQRT_Y_DAG,
        Gate::SQRT_Y_DAG => Gate::SQRT_Y,
        Gate::S => Gate::S_DAG,
        Gate::S_DAG => Gate::S,
        Gate::SQRT_XX => Gate::SQRT_XX_DAG,
        Gate::SQRT_XX_DAG => Gate::SQRT_XX,
        Gate::SQRT_YY => Gate::SQRT_YY_DAG,
        Gate::SQRT_YY_DAG => Gate::SQRT_YY,
        Gate::SQRT_ZZ => Gate::SQRT_ZZ_DAG,
        Gate::SQRT_ZZ_DAG => Gate::SQRT_ZZ,
        Gate::SPP => Gate::SPP_DAG,
        Gate::SPP_DAG => Gate::SPP,
        Gate::ISWAP => Gate::ISWAP_DAG,
        Gate::CXSWAP => Gate::SWAPCX,
        Gate::SWAPCX => Gate::CXSWAP,
        Gate::ISWAP_DAG => Gate::ISWAP,
        _ => g,
    }
}

/// Gates that are unitary operations.
pub open spec fn spec_unitary(g: Gate) -> bool {
    match g {
        Gate::NOT_A_GATE | Gate::DETECTOR | Gate::OBSERVABLE_INCLUDE | Gate::TICK |
            Gate::QUBIT_COORDS | Gate::SHIFT_COORDS | Gate::REPEAT | Gate::MPAD |
            Gate::MX | Gate::MY | Gate::M | Gate::MRX | Gate::MRY | Gate::MR | Gate::RX |
            Gate::RY | Gate::R | Gate::DEPOLARIZE1 | Gate::DEPOLARIZE2 | Gate::X_ERROR |
            Gate::Y_ERROR | Gate::Z_ERROR | Gate::PAULI_CHANNEL_1 | Gate::PAULI_CHANNEL_2 |
            Gate::E | Gate::ELSE_CORRELATED_ERROR | Gate::HERALDED_ERASE |
            Gate::HERALDED_PAULI_CHANNEL_1 | Gate::MPP | Gate::MXX | Gate::MYY | Gate::MZZ => false,
        _ => true,
    }
}

/// Gates that take a noise argument or are noise channels.
pub open spec fn spec_noisy(g: Gate) -> bool {
    match g {
        Gate::MX | Gate::MY | Gate::M | Gate::MRX | Gate::MRY | Gate::MR |
            Gate::DEPOLARIZE1 | Gate::DEPOLARIZE2 | Gate::X_ERROR | Gate::Y_ERROR |
            Gate::Z_ERROR | Gate::PAULI_CHANNEL_1 | Gate::PAULI_CHANNEL_2 | Gate::E |
            Gate::ELSE_CORRELATED_ERROR | Gate::HERALDED_ERASE |
            Gate::HERALDED_PAULI_CHANNEL_1 | Gate::MPP | Gate::MXX | Gate::MYY | Gate::MZZ => true,
        _ => false,
    }
}

/// Gates that add measurement results to the record.
pub open spec fn spec_produces_results(g: Gate) -> bool {
    match g {
        Gate::MPAD | Gate::MX | Gate::MY | Gate::M | Gate::MRX | Gate::MRY | Gate::MR |
            Gate::HERALDED_ERASE | Gate::HERALDED_PAULI_CHANNEL_1 | Gate::MPP | Gate::MXX |
            Gate::MYY | Gate::MZZ => true,
        _ => false,
    }
}

/// Gates that reset qubits.
pub open spec fn spec_reset(g: Gate) -> bool {
    match g {
        Gate::MRX | Gate::MRY | Gate::MR | Gate::RX | Gate::RY | Gate::R => true,
        _ => false,
    }
}

/// Gates that leave the qubits' state alone.
pub open spec fn spec_noop_on_qubits(g: Gate) -> bool {
    match g {
        Gate::NOT_A_GATE | Gate::DETECTOR | Gate::OBSERVABLE_INCLUDE | Gate::TICK |
            Gate::QUBIT_COORDS | Gate::SHIFT_COORDS | Gate::REPEAT => true,
        _ => false,
    }
}

/// Gates whose consecutive uses may be merged into one instruction.
pub open spec fn spec_fusable(g: Gate) -> bool {
    match g {
        Gate::DETECTOR | Gate::TICK | Gate::QUBIT_COORDS | Gate::SHIFT_COORDS |
            Gate::E | Gate::ELSE_CORRELATED_ERROR => false,
        _ => true,
    }
}

/// Gates that carry a nested block of instructions.
pub open spec fn spec_block(g: Gate) -> bool {
    match g {
        Gate::REPEAT => true,
        _ => false,
    }
}

/// Whether a gate accepts `count` parenthesised arguments.
pub open spec fn spec_accepts_arg_count(g: Gate, count: int) -> bool {
    match spec_arg_type(g) {
        ArgType::Empty => count == 0,
        ArgType::ProbabilityOpt => count <= 1,
        ArgType::Probability(n) => count == n,
        ArgType::Coords => 1 <= count <= 16,
        ArgType::Index => count == 1,
    }
}

/// Whether a gate accepts `count` targets.
pub open spec fn spec_accepts_target_count(g: Gate, count: int) -> bool {
    match spec_target_type(g) {
        TargetType::Empty => count == 0,
        TargetType::Pair | TargetType::PairCQ => count > 0 && count % 2 == 0,
        TargetType::Bool => count == 1,
        _ => count > 0,
    }
}

/// Whether a gate accepts measurement-record targets such as `rec[-1]`.
pub open spec fn spec_accepts_measurement_record(g: Gate) -> bool {
    match spec_target_type(g) {
        TargetType::MeasurementRecord | TargetType::PauliOrMeasurementRecord
        | TargetType::SingleCQ | TargetType::PairCQ => true,
        _ => false,
    }
}

/// Whether a gate accepts qubit targets such as `5` or `!5`.
pub open spec fn spec_accepts_qubit(g: Gate) -> bool {
    match spec_target_type(g) {
        TargetType::Single | TargetType::SingleCQ | TargetType::Pair | TargetType::PairCQ => true,
        _ => false,
    }
}

/// Whether a gate accepts Pauli-string targets such as `X1*Z2`.
pub open spec fn spec_accepts_pauli_str(g: Gate) -> bool {
    match spec_target_type(g) {
        TargetType::Pauli | TargetType::PauliOrMeasurementRecord => true,
        _ => false,
    }
}

/// Distinct gates sit at distinct positions.
proof fn lemma_index_injective(g: Gate, h: Gate)
    requires
        gate_index(g) == gate_index(h),
    ensures
        g == h,
{
}

/// Every position below `NUM_GATES` holds a gate.
proof fn lemma_index_onto(i: int)
    requires
        0 <= i < NUM_GATES,
    ensures
        gate_index(spec_gate_at(i)) == i,
{
    if i == 0 {
        assert(gate_index(Gate::NOT_A_GATE) == 0);
    } else if i == 1 {
        assert(gate_index(Gate::DETECTOR) == 1);
    } else if i == 2 {
        assert(gate_index(Gate::OBSERVABLE_INCLUDE) == 2);
    } else if i == 3 {
        assert(gate_index(Gate::TICK) == 3);
    } else if i == 4 {
        assert(gate_index(Gate::QUBIT_COORDS) == 4);
    } else if i == 5 {
        assert(gate_index(Gate::SHIFT_COORDS) == 5);
    } else if i == 6 {
        assert(gate_index(Gate::REPEAT) == 6);
    } else if i == 7 {
        assert(gate_index(Gate::MPAD) == 7);
    } else if i == 8 {
        assert(gate_index(Gate::MX) == 8);
    } else if i == 9 {
        assert(gate_index(Gate::MY) == 9);
    } else if i == 10 {
        assert(gate_index(Gate::M) == 10);
    } else if i == 11 {
        assert(gate_index(Gate::MRX) == 11);
    } else if i == 12 {
        assert(gate_index(Gate::MRY) == 12);
    } else if i == 13 {
        assert(gate_index(Gate::MR) == 13);
    } else if i == 14 {
        assert(gate_index(Gate::RX) == 14);
    } else if i == 15 {
        assert(gate_index(Gate::RY) == 15);
    } else if i == 16 {
        assert(gate_index(Gate::R) == 16);
    } else if i == 17 {
        assert(gate_index(Gate::XCX) == 17);
    } else if i == 18 {
        assert(gate_index(Gate::XCY) == 18);
    } else if i == 19 {
        assert(gate_index(Gate::XCZ) == 19);
    } else if i == 20 {
        assert(gate_index(Gate::YCX) == 20);
    } else if i == 21 {
        assert(gate_index(Gate::YCY) == 21);
    } else if i == 22 {
        assert(gate_index(Gate::YCZ) == 22);
    } else if i == 23 {
        assert(gate_index(Gate::CX) == 23);
    } else if i == 24 {
        assert(gate_index(Gate::CY) == 24);
    } else if i == 25 {
        assert(gate_index(Gate::CZ) == 25);
    } else if i == 26 {
        assert(gate_index(Gate::H) == 26);
    } else if i == 27 {
        assert(gate_index(Gate::H_XY) == 27);
    } else if i == 28 {
        assert(gate_index(Gate::H_YZ) == 28);
    } else if i == 29 {
        assert(gate_index(Gate::DEPOLARIZE1) == 29);
    } else if i == 30 {
        assert(gate_index(Gate::DEPOLARIZE2) == 30);
    } else if i == 31 {
        assert(gate_index(Gate::X_ERROR) == 31);
    } else if i == 32 {
        assert(gate_index(Gate::Y_ERROR) == 32);
    } else if i == 33 {
        assert(gate_index(Gate::Z_ERROR) == 33);
    } else if i == 34 {
        assert(gate_index(Gate::PAULI_CHANNEL_1) == 34);
    } else if i == 35 {
        assert(gate_index(Gate::PAULI_CHANNEL_2) == 35);
    } else if i == 36 {
        assert(gate_index(Gate::E) == 36);
    } else if i == 37 {
        assert(gate_index(Gate::ELSE_CORRELATED_ERROR) == 37);
    } else if i == 38 {
        assert(gate_index(Gate::HERALDED_ERASE) == 38);
    } else if i == 39 {
        assert(gate_index(Gate::HERALDED_PAULI_CHANNEL_1) == 39);
    } else if i == 40 {
        assert(gate_index(Gate::I) == 40);
    } else if i == 41 {
        assert(gate_index(Gate::X) == 41);
    } else if i == 42 {
        assert(gate_index(Gate::Y) == 42);
    } else if i == 43 {
        assert(gate_index(Gate::Z) == 43);
    } else if i == 44 {
        assert(gate_index(Gate::C_XYZ) == 44);
    } else if i == 45 {
        assert(gate_index(Gate::C_ZYX) == 45);
    } else if i == 46 {
        assert(gate_index(Gate::SQRT_X) == 46);
    } else if i == 47 {
        assert(gate_index(Gate::SQRT_X_DAG) == 47);
    } else if i == 48 {
        assert(gate_index(Gate::SQRT_Y) == 48);
    } else if i == 49 {
        assert(gate_index(Gate::SQRT_Y_DAG) == 49);
    } else if i == 50 {
        assert(gate_index(Gate::S) == 50);
    } else if i == 51 {
        assert(gate_index(Gate::S_DAG) == 51);
    } else if i == 52 {
        assert(gate_index(Gate::SQRT_XX) == 52);
    } else if i == 53 {
        assert(gate_index(Gate::SQRT_XX_DAG) == 53);
    } else if i == 54 {
        assert(gate_index(Gate::SQRT_YY) == 54);
    } else if i == 55 {
        assert(gate_index(Gate::SQRT_YY_DAG) == 55);
    } else if i == 56 {
        assert(gate_index(Gate::SQRT_ZZ) == 56);
    } else if i == 57 {
        assert(gate_index(Gate::SQRT_ZZ_DAG) == 57);
    } else if i == 58 {
        assert(gate_index(Gate::MPP) == 58);
    } else if i == 59 {
        assert(gate_index(Gate::SPP) == 59);
    } else if i == 60 {
        assert(gate_index(Gate::SPP_DAG) == 60);
    } else if i == 61 {
        assert(gate_index(Gate::SWAP) == 61);
    } else if i == 62 {
        assert(gate_index(Gate::ISWAP) == 62);
    } else if i == 63 {
        assert(gate_index(Gate::CXSWAP) == 63);
    } else if i == 64 {
        assert(gate_index(Gate::SWAPCX) == 64);
    } else if i == 65 {
        assert(gate_index(Gate::CZSWAP) == 65);
    } else if i == 66 {
        assert(gate_index(Gate::ISWAP_DAG) == 66);
    } else if i == 67 {
        assert(gate_index(Gate::MXX) == 67);
    } else if i == 68 {
        assert(gate_index(Gate::MYY) == 68);
    } else {
        assert(gate_index(Gate::MZZ) == 69);
    }
}

/// Distinct gates have distinct names.
pub proof fn lemma_name_injective(g: Gate, h: Gate)
    requires
        spec_name(g) == spec_name(h),
    ensures
        g == h,
{
    reveal_strlit("NOT_A_GATE");
    reveal_strlit("DETECTOR");
    reveal_strlit("OBSERVABLE_INCLUDE");
    reveal_strlit("TICK");
    reveal_strlit("QUBIT_COORDS");
    reveal_strlit("SHIFT_COORDS");
    reveal_strlit("REPEAT");
    reveal_strlit("MPAD");
    reveal_strlit("MX");
    reveal_strlit("MY");
    reveal_strlit("M");
    reveal_strlit("MRX");
    reveal_strlit("MRY");
    reveal_strlit("MR");
    reveal_strlit("RX");
    reveal_strlit("RY");
    reveal_strlit("R");
    reveal_strlit("XCX");
    reveal_strlit("XCY");
    reveal_strlit("XCZ");
    reveal_strlit("YCX");
    reveal_strlit("YCY");
    reveal_strlit("YCZ");
    reveal_strlit("CX");
    reveal_strlit("CY");
    reveal_strlit("CZ");
    reveal_strlit("H");
    reveal_strlit("H_XY");
    reveal_strlit("H_YZ");
    reveal_strlit("DEPOLARIZE1");
    reveal_strlit("DEPOLARIZE2");
    reveal_strlit("X_ERROR");
    reveal_strlit("Y_ERROR");
    reveal_strlit("Z_ERROR");
    reveal_strlit("PAULI_CHANNEL_1");
    reveal_strlit("PAULI_CHANNEL_2");
    reveal_strlit("E");
    reveal_strlit("ELSE_CORRELATED_ERROR");
    reveal_strlit("HERALDED_ERASE");
    reveal_strlit("HERALDED_PAULI_CHANNEL_1");
    reveal_strlit("I");
    reveal_strlit("X");
    reveal_strlit("Y");
    reveal_strlit("Z");
    reveal_strlit("C_XYZ");
    reveal_strlit("C_ZYX");
    reveal_strlit("SQRT_X");
    reveal_strlit("SQRT_X_DAG");
    reveal_strlit("SQRT_Y");
    reveal_strlit("SQRT_Y_DAG");
    reveal_strlit("S");
    reveal_strlit("S_DAG");
    reveal_strlit("SQRT_XX");
    reveal_strlit("SQRT_XX_DAG");
    reveal_strlit("SQRT_YY");
    reveal_strlit("SQRT_YY_DAG");
    reveal_strlit("SQRT_ZZ");
    reveal_strlit("SQRT_ZZ_DAG");
    reveal_strlit("MPP");
    reveal_strlit("SPP");
    reveal_strlit("SPP_DAG");
    reveal_strlit("SWAP");
    reveal_strlit("ISWAP");
    reveal_strlit("CXSWAP");
    reveal_strlit("SWAPCX");
    reveal_strlit("CZSWAP");
    reveal_strlit("ISWAP_DAG");
    reveal_strlit("MXX");
    reveal_strlit("MYY");
    reveal_strlit("MZZ");
    let n = spec_name(g);
    let m = spec_name(h);
    assert(n.len() == m.len());
    assert(0 < n.len() ==> n[0] == m[0]);
    assert(1 < n.len() ==> n[1] == m[1]);
    assert(2 < n.len() ==> n[2] == m[2]);
    assert(3 < n.len() ==> n[3] == m[3]);
    assert(4 < n.len() ==> n[4] == m[4]);
    assert(5 < n.len() ==> n[5] == m[5]);
    assert(6 < n.len() ==> n[6] == m[6]);
    assert(7 < n.len() ==> n[7] == m[7]);
    assert(8 < n.len() ==> n[8] == m[8]);
    assert(9 < n.len() ==> n[9] == m[9]);
    assert(10 < n.len() ==> n[10] == m[10]);
    assert(11 < n.len() ==> n[11] == m[11]);
    assert(12 < n.len() ==> n[12] == m[12]);
    assert(13 < n.len() ==> n[13] == m[13]);
    assert(14 < n.len() ==> n[14] == m[14]);
    assert(15 < n.len() ==> n[15] == m[15]);
    assert(16 < n.len() ==> n[16] == m[16]);
    assert(17 < n.len() ==> n[17] == m[17]);
    assert(18 < n.len() ==> n[18] == m[18]);
    assert(19 < n.len() ==> n[19] == m[19]);
    assert(20 < n.len() ==> n[20] == m[20]);
    assert(21 < n.len() ==> n[21] == m[21]);
    assert(22 < n.len() ==> n[22] == m[22]);
    assert(23 < n.len() ==> n[23] == m[23]);
}

/// Whether a character may stand in a gate name (letters, digits, `_`).
pub open spec fn is_name_char(c: char) -> bool {
    ('A' <= c <= 'Z') || ('a' <= c <= 'z') || ('0' <= c <= '9') || c == '_'
}

/// Every gate name starts with a capital letter, holds only letters, digits and `_`, and
/// is at most 24 characters long.
pub proof fn lemma_name_shape(g: Gate)
    ensures
        0 < spec_name(g).len() <= 24,
        'A' <= spec_name(g)[0] <= 'Z',
        forall|k: int| 0 <= k < spec_name(g).len() ==> is_name_char(#[trigger] spec_name(g)[k]),
{
    reveal_strlit("NOT_A_GATE");
    reveal_strlit("DETECTOR");
    reveal_strlit("OBSERVABLE_INCLUDE");
    reveal_strlit("TICK");
    reveal_strlit("QUBIT_COORDS");
    reveal_strlit("SHIFT_COORDS");
    reveal_strlit("REPEAT");
    reveal_strlit("MPAD");
    reveal_strlit("MX");
    reveal_strlit("MY");
    reveal_strlit("M");
    reveal_strlit("MRX");
    reveal_strlit("MRY");
    reveal_strlit("MR");
    reveal_strlit("RX");
    reveal_strlit("RY");
    reveal_strlit("R");
    reveal_strlit("XCX");
    reveal_strlit("XCY");
    reveal_strlit("XCZ");
    reveal_strlit("YCX");
    reveal_strlit("YCY");
    reveal_strlit("YCZ");
    reveal_strlit("CX");
    reveal_strlit("CY");
    reveal_strlit("CZ");
    reveal_strlit("H");
    reveal_strlit("H_XY");
    reveal_strlit("H_YZ");
    reveal_strlit("DEPOLARIZE1");
    reveal_strlit("DEPOLARIZE2");
    reveal_strlit("X_ERROR");
    reveal_strlit("Y_ERROR");
    reveal_strlit("Z_ERROR");
    reveal_strlit("PAULI_CHANNEL_1");
    reveal_strlit("PAULI_CHANNEL_2");
    reveal_strlit("E");
    reveal_strlit("ELSE_CORRELATED_ERROR");
    reveal_strlit("HERALDED_ERASE");
    reveal_strlit("HERALDED_PAULI_CHANNEL_1");
    reveal_strlit("I");
    reveal_strlit("X");
    reveal_strlit("Y");
    reveal_strlit("Z");
    reveal_strlit("C_XYZ");
    reveal_strlit("C_ZYX");
    reveal_strlit("SQRT_X");
    reveal_strlit("SQRT_X_DAG");
    reveal_strlit("SQRT_Y");
    reveal_strlit("SQRT_Y_DAG");
    reveal_strlit("S");
    reveal_strlit("S_DAG");
    reveal_strlit("SQRT_XX");
    reveal_strlit("SQRT_XX_DAG");
    reveal_strlit("SQRT_YY");
    reveal_strlit("SQRT_YY_DAG");
    reveal_strlit("SQRT_ZZ");
    reveal_strlit("SQRT_ZZ_DAG");
    reveal_strlit("MPP");
    reveal_strlit("SPP");
    reveal_strlit("SPP_DAG");
    reveal_strlit("SWAP");
    reveal_strlit("ISWAP");
    reveal_strlit("CXSWAP");
    reveal_strlit("SWAPCX");
    reveal_strlit("CZSWAP");
    reveal_strlit("ISWAP_DAG");
    reveal_strlit("MXX");
    reveal_strlit("MYY");
    reveal_strlit("MZZ");
    let n = spec_name(g);
    assert forall|k: int| 0 <= k < n.len() implies is_name_char(#[trigger] n[k]) by {
        if k == 0 {

        } else if k == 1 {

        } else if k == 2 {

        } else if k == 3 {

        } else if k == 4 {

        } else if k == 5 {

        } else if k == 6 {

        } else if k == 7 {

        } else if k == 8 {

        } else if k == 9 {

        } else if k == 10 {

        } else if k == 11 {

        } else if k == 12 {

        } else if k == 13 {

        } else if k == 14 {

        } else if k == 15 {

        } else if k == 16 {

        } else if k == 17 {

        } else if k == 18 {

        } else if k == 19 {

        } else if k == 20 {

        } else if k == 21 {

        } else if k == 22 {

        } else if k == 23 {
        } else {
        }
    }
}

/// Reading a gate's name gives back that gate.
pub proof fn lemma_name_roundtrip(g: Gate)
    ensures
        spec_gate_named(spec_name(g)) == g,
{
    assert(exists|h: Gate| spec_name(h) == spec_name(g));
    let h = choose|h: Gate| spec_name(h) == spec_name(g);
    lemma_name_injective(g, h);
}

/// Each gate sits at a position below `NUM_GATES`, and that position holds it;
/// each position below `NUM_GATES` holds a gate, and positions past it hold `NOT_A_GATE`.
pub proof fn lemma_index_roundtrip(g: Gate, i: int)
    ensures
        gate_index(g) < NUM_GATES,
        spec_gate_at(gate_index(g) as int) == g,
        0 <= i < NUM_GATES ==> gate_index(spec_gate_at(i)) == i,
        !(0 <= i < NUM_GATES) ==> spec_gate_at(i) == Gate::NOT_A_GATE,
{
    lemma_index_onto(gate_index(g) as int);
    lemma_index_injective(g, spec_gate_at(gate_index(g) as int));
    if 0 <= i < NUM_GATES {
        lemma_index_onto(i);
    }
}

/// The inverse of a unitary gate is unitary, and inverting twice gives back what was inverted.
pub proof fn lemma_unitary_inverse(g: Gate)
    requires
        spec_unitary(g),
    ensures
        spec_unitary(spec_inverse(g)),
        spec_inverse(spec_inverse(g)) == g,
{
}

/// Which alternative spellings there are: a Z basis written out after a measurement or
/// reset (`MZ`, `MRZ`, `RZ`), a Z control written out before a controlled gate (`ZCX`,
/// `ZCY`, `ZCZ`), the axes a Hadamard exchanges written out (`H_XZ`), the square root of Z
/// written out for `S` and `S_DAG` (`SQRT_Z`, `SQRT_Z_DAG`), and two long names (`CNOT` for
/// the controlled X, `CORRELATED_ERROR` for `E`, whose "else" form is
/// `ELSE_CORRELATED_ERROR`). Any text that names a gate other than by its own name is
/// one of these, for that gate.
pub proof fn lemma_alias_shape(s: Seq<char>)
    ensures
        ({
            let g = spec_gate_named(s);
            g != Gate::NOT_A_GATE && s != spec_name(g) ==> {
                ||| s == spec_name(g) + seq!['Z'] && (g == Gate::M || g == Gate::MR || g == Gate::R)
                ||| s == seq!['Z'] + spec_name(g) && spec_name(g)[0] == 'C' && spec_name(g).len() == 2
                ||| s == spec_name(g) + "_XZ"@ && g == Gate::H
                ||| "SQRT_Z"@ + spec_name(g).skip(1) == s && spec_name(g)[0] == 'S'
                    && spec_unitary(g)
                ||| s == "CNOT"@ && g == spec_gate_named("ZCX"@)
                ||| s == "CORRELATED_ERROR"@ && "ELSE_"@ + s == spec_name(Gate::ELSE_CORRELATED_ERROR)
                    && g == Gate::E
            }
        }),
{
    reveal_strlit("NOT_A_GATE");
    reveal_strlit("DETECTOR");
    reveal_strlit("OBSERVABLE_INCLUDE");
    reveal_strlit("TICK");
    reveal_strlit("QUBIT_COORDS");
    reveal_strlit("SHIFT_COORDS");
    reveal_strlit("REPEAT");
    reveal_strlit("MPAD");
    reveal_strlit("MX");
    reveal_strlit("MY");
    reveal_strlit("M");
    reveal_strlit("MRX");
    reveal_strlit("MRY");
    reveal_strlit("MR");
    reveal_strlit("RX");
    reveal_strlit("RY");
    reveal_strlit("R");
    reveal_strlit("XCX");
    reveal_strlit("XCY");
    reveal_strlit("XCZ");
    reveal_strlit("YCX");
    reveal_strlit("YCY");
    reveal_strlit("YCZ");
    reveal_strlit("CX");
    reveal_strlit("CY");
    reveal_strlit("CZ");
    reveal_strlit("H");
    reveal_strlit("H_XY");
    reveal_strlit("H_YZ");
    reveal_strlit("DEPOLARIZE1");
    reveal_strlit("DEPOLARIZE2");
    reveal_strlit("X_ERROR");
    reveal_strlit("Y_ERROR");
    reveal_strlit("Z_ERROR");
    reveal_strlit("PAULI_CHANNEL_1");
    reveal_strlit("PAULI_CHANNEL_2");
    reveal_strlit("E");
    reveal_strlit("ELSE_CORRELATED_ERROR");
    reveal_strlit("HERALDED_ERASE");
    reveal_strlit("HERALDED_PAULI_CHANNEL_1");
    reveal_strlit("I");
    reveal_strlit("X");
    reveal_strlit("Y");
    reveal_strlit("Z");
    reveal_strlit("C_XYZ");
    reveal_strlit("C_ZYX");
    reveal_strlit("SQRT_X");
    reveal_strlit("SQRT_X_DAG");
    reveal_strlit("SQRT_Y");
    reveal_strlit("SQRT_Y_DAG");
    reveal_strlit("S");
    reveal_strlit("S_DAG");
    reveal_strlit("SQRT_XX");
    reveal_strlit("SQRT_XX_DAG");
    reveal_strlit("SQRT_YY");
    reveal_strlit("SQRT_YY_DAG");
    reveal_strlit("SQRT_ZZ");
    reveal_strlit("SQRT_ZZ_DAG");
    reveal_strlit("MPP");
    reveal_strlit("SPP");
    reveal_strlit("SPP_DAG");
    reveal_strlit("SWAP");
    reveal_strlit("ISWAP");
    reveal_strlit("CXSWAP");
    reveal_strlit("SWAPCX");
    reveal_strlit("CZSWAP");
    reveal_strlit("ISWAP_DAG");
    reveal_strlit("MXX");
    reveal_strlit("MYY");
    reveal_strlit("MZZ");
    reveal_strlit("MZ");
    reveal_strlit("MRZ");
    reveal_strlit("RZ");
    reveal_strlit("CNOT");
    reveal_strlit("ZCX");
    reveal_strlit("ZCY");
    reveal_strlit("ZCZ");
    reveal_strlit("H_XZ");
    reveal_strlit("CORRELATED_ERROR");
    reveal_strlit("SQRT_Z");
    reveal_strlit("SQRT_Z_DAG");
    reveal_strlit("ELSE_");
    reveal_strlit("_XZ");
    if exists|h: Gate| spec_name(h) == s {
        let h = choose|h: Gate| spec_name(h) == s;
        assert(spec_gate_named(s) == h);
    } else {
        lemma_alias_named();
        let g = spec_gate_named(s);
        if s == "MZ"@ {
            assert(s =~= spec_name(g) + seq!['Z']);
        } else if s == "MRZ"@ {
            assert(s =~= spec_name(g) + seq!['Z']);
        } else if s == "RZ"@ {
            assert(s =~= spec_name(g) + seq!['Z']);
        } else if s == "ZCX"@ || s == "ZCY"@ || s == "ZCZ"@ {
            assert(s =~= seq!['Z'] + spec_name(g));
        } else if s == "H_XZ"@ {
            assert(s =~= spec_name(g) + "_XZ"@);
        } else if s == "SQRT_Z"@ || s == "SQRT_Z_DAG"@ {
            assert("SQRT_Z"@ + spec_name(g).skip(1) =~= s);
        } else if s == "CORRELATED_ERROR"@ {
            assert("ELSE_"@ + s =~= spec_name(Gate::ELSE_CORRELATED_ERROR));
        }
    }
}

/// Every alternative spelling is read as what it abbreviates: `MZ` as `M`, `MRZ` as
/// `MR`, `RZ` as `R`, `CNOT`, `ZCX` as `CX`, `ZCY` as `CY`, `ZCZ` as `CZ`, `H_XZ` as `H`,
/// `CORRELATED_ERROR` as `E`, `SQRT_Z` as `S` and `SQRT_Z_DAG` as `S_DAG`.
pub proof fn lemma_alias_named()
    ensures
        spec_gate_named("MZ"@) == Gate::M,
        spec_gate_named("MRZ"@) == Gate::MR,
        spec_gate_named("RZ"@) == Gate::R,
        spec_gate_named("CNOT"@) == Gate::CX,
        spec_gate_named("ZCX"@) == Gate::CX,
        spec_gate_named("ZCY"@) == Gate::CY,
        spec_gate_named("ZCZ"@) == Gate::CZ,
        spec_gate_named("H_XZ"@) == Gate::H,
        spec_gate_named("CORRELATED_ERROR"@) == Gate::E,
        spec_gate_named("SQRT_Z"@) == Gate::S,
        spec_gate_named("SQRT_Z_DAG"@) == Gate::S_DAG,
{
    reveal_strlit("MZ");
    reveal_strlit("MRZ");
    reveal_strlit("RZ");
    reveal_strlit("CNOT");
    reveal_strlit("ZCX");
    reveal_strlit("ZCY");
    reveal_strlit("ZCZ");
    reveal_strlit("H_XZ");
    reveal_strlit("CORRELATED_ERROR");
    reveal_strlit("SQRT_Z");
    reveal_strlit("SQRT_Z_DAG");
    lemma_not_a_name("MZ"@);
    lemma_not_a_name("MRZ"@);
    lemma_not_a_name("RZ"@);
    lemma_not_a_name("CNOT"@);
    lemma_not_a_name("ZCX"@);
    lemma_not_a_name("ZCY"@);
    lemma_not_a_name("ZCZ"@);
    lemma_not_a_name("H_XZ"@);
    lemma_not_a_name("CORRELATED_ERROR"@);
    lemma_not_a_name("SQRT_Z"@);
    lemma_not_a_name("SQRT_Z_DAG"@);
    assert(spec_alias("MZ"@) == Gate::M);
    assert("MRZ"@ != "MZ"@) by {
        assert("MRZ"@.len() != "MZ"@.len());
    }
    assert(spec_alias("MRZ"@) == Gate::MR);
    assert("RZ"@ != "MZ"@) by {
        assert("RZ"@[0] != "MZ"@[0]);
    }
    assert("RZ"@ != "MRZ"@) by {
        assert("RZ"@.len() != "MRZ"@.len());
    }
    assert(spec_alias("RZ"@) == Gate::R);
    assert("CNOT"@ != "MZ"@) by {
        assert("CNOT"@.len() != "MZ"@.len());
    }
    assert("CNOT"@ != "MRZ"@) by {
        assert("CNOT"@.len() != "MRZ"@.len());
    }
    assert("CNOT"@ != "RZ"@) by {
        assert("CNOT"@.len() != "RZ"@.len());
    }
    assert(spec_alias("CNOT"@) == Gate::CX);
    assert("ZCX"@ != "MZ"@) by {
        assert("ZCX"@.len() != "MZ"@.len());
    }
    assert("ZCX"@ != "MRZ"@) by {
        assert("ZCX"@[0] != "MRZ"@[0]);
    }
    assert("ZCX"@ != "RZ"@) by {
        assert("ZCX"@.len() != "RZ"@.len());
    }
    assert("ZCX"@ != "CNOT"@) by {
        assert("ZCX"@.len() != "CNOT"@.len());
    }
    assert(spec_alias("ZCX"@) == Gate::CX);
    assert("ZCY"@ != "MZ"@) by {
        assert("ZCY"@.len() != "MZ"@.len());
    }
    assert("ZCY"@ != "MRZ"@) by {
        assert("ZCY"@[0] != "MRZ"@[0]);
    }
    assert("ZCY"@ != "RZ"@) by {
        assert("ZCY"@.len() != "RZ"@.len());
    }
    assert("ZCY"@ != "CNOT"@) by {
        assert("ZCY"@.len() != "CNOT"@.len());
    }
    assert("ZCY"@ != "ZCX"@) by {
        assert("ZCY"@[2] != "ZCX"@[2]);
    }
    assert(spec_alias("ZCY"@) == Gate::CY);
    assert("ZCZ"@ != "MZ"@) by {
        assert("ZCZ"@.len() != "MZ"@.len());
    }
    assert("ZCZ"@ != "MRZ"@) by {
        assert("ZCZ"@[0] != "MRZ"@[0]);
    }
    assert("ZCZ"@ != "RZ"@) by {
        assert("ZCZ"@.len() != "RZ"@.len());
    }
    assert("ZCZ"@ != "CNOT"@) by {
        assert("ZCZ"@.len() != "CNOT"@.len());
    }
    assert("ZCZ"@ != "ZCX"@) by {
        assert("ZCZ"@[2] != "ZCX"@[2]);
    }
    assert("ZCZ"@ != "ZCY"@) by {
        assert("ZCZ"@[2] != "ZCY"@[2]);
    }
    assert(spec_alias("ZCZ"@) == Gate::CZ);
    assert("H_XZ"@ != "MZ"@) by {
        assert("H_XZ"@.len() != "MZ"@.len());
    }
    assert("H_XZ"@ != "MRZ"@) by {
        assert("H_XZ"@.len() != "MRZ"@.len());
    }
    assert("H_XZ"@ != "RZ"@) by {
        assert("H_XZ"@.len() != "RZ"@.len());
    }
    assert("H_XZ"@ != "CNOT"@) by {
        assert("H_XZ"@[0] != "CNOT"@[0]);
    }
    assert("H_XZ"@ != "ZCX"@) by {
        assert("H_XZ"@.len() != "ZCX"@.len());
    }
    assert("H_XZ"@ != "ZCY"@) by {
        assert("H_XZ"@.len() != "ZCY"@.len());
    }
    assert("H_XZ"@ != "ZCZ"@) by {
        assert("H_XZ"@.len() != "ZCZ"@.len());
    }
    assert(spec_alias("H_XZ"@) == Gate::H);
    assert("CORRELATED_ERROR"@ != "MZ"@) by {
        assert("CORRELATED_ERROR"@.len() != "MZ"@.len());
    }
    assert("CORRELATED_ERROR"@ != "MRZ"@) by {
        assert("CORRELATED_ERROR"@.len() != "MRZ"@.len());
    }
    assert("CORRELATED_ERROR"@ != "RZ"@) by {
        assert("CORRELATED_ERROR"@.len() != "RZ"@.len());
    }
    assert("CORRELATED_ERROR"@ != "CNOT"@) by {
        assert("CORRELATED_ERROR"@.len() != "CNOT"@.len());
    }
    assert("CORRELATED_ERROR"@ != "ZCX"@) by {
        assert("CORRELATED_ERROR"@.len() != "ZCX"@.len());
    }
    assert("CORRELATED_ERROR"@ != "ZCY"@) by {
        assert("CORRELATED_ERROR"@.len() != "ZCY"@.len());
    }
    assert("CORRELATED_ERROR"@ != "ZCZ"@) by {
        assert("CORRELATED_ERROR"@.len() != "ZCZ"@.len());
    }
    assert("CORRELATED_ERROR"@ != "H_XZ"@) by {
        assert("CORRELATED_ERROR"@.len() != "H_XZ"@.len());
    }
    assert(spec_alias("CORRELATED_ERROR"@) == Gate::E);
    assert("SQRT_Z"@ != "MZ"@) by {
        assert("SQRT_Z"@.len() != "MZ"@.len());
    }
    assert("SQRT_Z"@ != "MRZ"@) by {
        assert("SQRT_Z"@.len() != "MRZ"@.len());
    }
    assert("SQRT_Z"@ != "RZ"@) by {
        assert("SQRT_Z"@.len() != "RZ"@.len());
    }
    assert("SQRT_Z"@ != "CNOT"@) by {
        assert("SQRT_Z"@.len() != "CNOT"@.len());
    }
    assert("SQRT_Z"@ != "ZCX"@) by {
        assert("SQRT_Z"@.len() != "ZCX"@.len());
    }
    assert("SQRT_Z"@ != "ZCY"@) by {
        assert("SQRT_Z"@.len() != "ZCY"@.len());
    }
    assert("SQRT_Z"@ != "ZCZ"@) by {
        assert("SQRT_Z"@.len() != "ZCZ"@.len());
    }
    assert("SQRT_Z"@ != "H_XZ"@) by {
        assert("SQRT_Z"@.len() != "H_XZ"@.len());
    }
    assert("SQRT_Z"@ != "CORRELATED_ERROR"@) by {
        assert("SQRT_Z"@.len() != "CORRELATED_ERROR"@.len());
    }
    assert(spec_alias("SQRT_Z"@) == Gate::S);
    assert("SQRT_Z_DAG"@ != "MZ"@) by {
        assert("SQRT_Z_DAG"@.len() != "MZ"@.len());
    }
    assert("SQRT_Z_DAG"@ != "MRZ"@) by {
        assert("SQRT_Z_DAG"@.len() != "MRZ"@.len());
    }
    assert("SQRT_Z_DAG"@ != "RZ"@) by {
        assert("SQRT_Z_DAG"@.len() != "RZ"@.len());
    }
    assert("SQRT_Z_DAG"@ != "CNOT"@) by {
        assert("SQRT_Z_DAG"@.len() != "CNOT"@.len());
    }
    assert("SQRT_Z_DAG"@ != "ZCX"@) by {
        assert("SQRT_Z_DAG"@.len() != "ZCX"@.len());
    }
    assert("SQRT_Z_DAG"@ != "ZCY"@) by {
        assert("SQRT_Z_DAG"@.len() != "ZCY"@.len());
    }
    assert("SQRT_Z_DAG"@ != "ZCZ"@) by {
        assert("SQRT_Z_DAG"@.len() != "ZCZ"@.len());
    }
    assert("SQRT_Z_DAG"@ != "H_XZ"@) by {
        assert("SQRT_Z_DAG"@.len() != "H_XZ"@.len());
    }
    assert("SQRT_Z_DAG"@ != "CORRELATED_ERROR"@) by {
        assert("SQRT_Z_DAG"@.len() != "CORRELATED_ERROR"@.len());
    }
    assert("SQRT_Z_DAG"@ != "SQRT_Z"@) by {
        assert("SQRT_Z_DAG"@.len() != "SQRT_Z"@.len());
    }
    assert(spec_alias("SQRT_Z_DAG"@) == Gate::S_DAG);
    reveal_strlit("MZ");
    reveal_strlit("MRZ");
    reveal_strlit("RZ");
    reveal_strlit("CNOT");
    reveal_strlit("ZCX");
    reveal_strlit("ZCY");
    reveal_strlit("ZCZ");
    reveal_strlit("H_XZ");
    reveal_strlit("CORRELATED_ERROR");
    reveal_strlit("SQRT_Z");
    reveal_strlit("SQRT_Z_DAG");
}

/// No alternative spelling is the name of a gate.
proof fn lemma_not_a_name(s: Seq<char>)
    requires
        s == "MZ"@ || s == "MRZ"@ || s == "RZ"@ || s == "CNOT"@ || s == "ZCX"@ || s == "ZCY"@
            || s == "ZCZ"@ || s == "H_XZ"@ || s == "CORRELATED_ERROR"@ || s == "SQRT_Z"@
            || s == "SQRT_Z_DAG"@,
    ensures
        !exists|h: Gate| spec_name(h) == s,
{
    reveal_strlit("NOT_A_GATE");
    reveal_strlit("DETECTOR");
    reveal_strlit("OBSERVABLE_INCLUDE");
    reveal_strlit("TICK");
    reveal_strlit("QUBIT_COORDS");
    reveal_strlit("SHIFT_COORDS");
    reveal_strlit("REPEAT");
    reveal_strlit("MPAD");
    reveal_strlit("MX");
    reveal_strlit("MY");
    reveal_strlit("M");
    reveal_strlit("MRX");
    reveal_strlit("MRY");
    reveal_strlit("MR");
    reveal_strlit("RX");
    reveal_strlit("RY");
    reveal_strlit("R");
    reveal_strlit("XCX");
    reveal_strlit("XCY");
    reveal_strlit("XCZ");
    reveal_strlit("YCX");
    reveal_strlit("YCY");
    reveal_strlit("YCZ");
    reveal_strlit("CX");
    reveal_strlit("CY");
    reveal_strlit("CZ");
    reveal_strlit("H");
    reveal_strlit("H_XY");
    reveal_strlit("H_YZ");
    reveal_strlit("DEPOLARIZE1");
    reveal_strlit("DEPOLARIZE2");
    reveal_strlit("X_ERROR");
    reveal_strlit("Y_ERROR");
    reveal_strlit("Z_ERROR");
    reveal_strlit("PAULI_CHANNEL_1");
    reveal_strlit("PAULI_CHANNEL_2");
    reveal_strlit("E");
    reveal_strlit("ELSE_CORRELATED_ERROR");
    reveal_strlit("HERALDED_ERASE");
    reveal_strlit("HERALDED_PAULI_CHANNEL_1");
    reveal_strlit("I");
    reveal_strlit("X");
    reveal_strlit("Y");
    reveal_strlit("Z");
    reveal_strlit("C_XYZ");
    reveal_strlit("C_ZYX");
    reveal_strlit("SQRT_X");
    reveal_strlit("SQRT_X_DAG");
    reveal_strlit("SQRT_Y");
    reveal_strlit("SQRT_Y_DAG");
    reveal_strlit("S");
    reveal_strlit("S_DAG");
    reveal_strlit("SQRT_XX");
    reveal_strlit("SQRT_XX_DAG");
    reveal_strlit("SQRT_YY");
    reveal_strlit("SQRT_YY_DAG");
    reveal_strlit("SQRT_ZZ");
    reveal_strlit("SQRT_ZZ_DAG");
    reveal_strlit("MPP");
    reveal_strlit("SPP");
    reveal_strlit("SPP_DAG");
    reveal_strlit("SWAP");
    reveal_strlit("ISWAP");
    reveal_strlit("CXSWAP");
    reveal_strlit("SWAPCX");
    reveal_strlit("CZSWAP");
    reveal_strlit("ISWAP_DAG");
    reveal_strlit("MXX");
    reveal_strlit("MYY");
    reveal_strlit("MZZ");
    reveal_strlit("MZ");
    reveal_strlit("MRZ");
    reveal_strlit("RZ");
    reveal_strlit("CNOT");
    reveal_strlit("ZCX");
    reveal_strlit("ZCY");
    reveal_strlit("ZCZ");
    reveal_strlit("H_XZ");
    reveal_strlit("CORRELATED_ERROR");
    reveal_strlit("SQRT_Z");
    reveal_strlit("SQRT_Z_DAG");
    assert forall|h: Gate| spec_name(h) != s by {
        let n = spec_name(h);
        if n == s {
            assert(n.len() == s.len());
            assert(0 < n.len() ==> n[0] == s[0]);
            assert(1 < n.len() ==> n[1] == s[1]);
            assert(2 < n.len() ==> n[2] == s[2]);
            assert(3 < n.len() ==> n[3] == s[3]);
            assert(4 < n.len() ==> n[4] == s[4]);
            assert(5 < n.len() ==> n[5] == s[5]);
            assert(6 < n.len() ==> n[6] == s[6]);
            assert(7 < n.len() ==> n[7] == s[7]);
            assert(8 < n.len() ==> n[8] == s[8]);
            assert(9 < n.len() ==> n[9] == s[9]);
        }
    }
}

/// A gate and its `_DAG` form undo each other: whenever one gate's name is another's with
/// `_DAG` added, each is the inverse of the other, and neither is its own inverse.
pub proof fn lemma_dag_inverse(g: Gate, h: Gate)
    requires
        spec_name(h) == spec_name(g) + "_DAG"@,
    ensures
        spec_inverse(g) == h,
        spec_inverse(h) == g,
        g != h,
        spec_unitary(g) && spec_unitary(h),
{
    reveal_strlit("NOT_A_GATE");
    reveal_strlit("DETECTOR");
    reveal_strlit("OBSERVABLE_INCLUDE");
    reveal_strlit("TICK");
    reveal_strlit("QUBIT_COORDS");
    reveal_strlit("SHIFT_COORDS");
    reveal_strlit("REPEAT");
    reveal_strlit("MPAD");
    reveal_strlit("MX");
    reveal_strlit("MY");
    reveal_strlit("M");
    reveal_strlit("MRX");
    reveal_strlit("MRY");
    reveal_strlit("MR");
    reveal_strlit("RX");
    reveal_strlit("RY");
    reveal_strlit("R");
    reveal_strlit("XCX");
    reveal_strlit("XCY");
    reveal_strlit("XCZ");
    reveal_strlit("YCX");
    reveal_strlit("YCY");
    reveal_strlit("YCZ");
    reveal_strlit("CX");
    reveal_strlit("CY");
    reveal_strlit("CZ");
    reveal_strlit("H");
    reveal_strlit("H_XY");
    reveal_strlit("H_YZ");
    reveal_strlit("DEPOLARIZE1");
    reveal_strlit("DEPOLARIZE2");
    reveal_strlit("X_ERROR");
    reveal_strlit("Y_ERROR");
    reveal_strlit("Z_ERROR");
    reveal_strlit("PAULI_CHANNEL_1");
    reveal_strlit("PAULI_CHANNEL_2");
    reveal_strlit("E");
    reveal_strlit("ELSE_CORRELATED_ERROR");
    reveal_strlit("HERALDED_ERASE");
    reveal_strlit("HERALDED_PAULI_CHANNEL_1");
    reveal_strlit("I");
    reveal_strlit("X");
    reveal_strlit("Y");
    reveal_strlit("Z");
    reveal_strlit("C_XYZ");
    reveal_strlit("C_ZYX");
    reveal_strlit("SQRT_X");
    reveal_strlit("SQRT_X_DAG");
    reveal_strlit("SQRT_Y");
    reveal_strlit("SQRT_Y_DAG");
    reveal_strlit("S");
    reveal_strlit("S_DAG");
    reveal_strlit("SQRT_XX");
    reveal_strlit("SQRT_XX_DAG");
    reveal_strlit("SQRT_YY");
    reveal_strlit("SQRT_YY_DAG");
    reveal_strlit("SQRT_ZZ");
    reveal_strlit("SQRT_ZZ_DAG");
    reveal_strlit("MPP");
    reveal_strlit("SPP");
    reveal_strlit("SPP_DAG");
    reveal_strlit("SWAP");
    reveal_strlit("ISWAP");
    reveal_strlit("CXSWAP");
    reveal_strlit("SWAPCX");
    reveal_strlit("CZSWAP");
    reveal_strlit("ISWAP_DAG");
    reveal_strlit("MXX");
    reveal_strlit("MYY");
    reveal_strlit("MZZ");
    reveal_strlit("_DAG");
    let n = spec_name(h);
    let m = spec_name(g);
    assert(n.len() == m.len() + 4);
    assert(n[n.len() - 1] == 'G');
    assert(m =~= n.subrange(0, n.len() - 4));
    match h {
        Gate::SQRT_X_DAG => { assert(m =~= spec_name(Gate::SQRT_X)); lemma_name_injective(g, Gate::SQRT_X); },
        Gate::SQRT_Y_DAG => { assert(m =~= spec_name(Gate::SQRT_Y)); lemma_name_injective(g, Gate::SQRT_Y); },
        Gate::S_DAG => { assert(m =~= spec_name(Gate::S)); lemma_name_injective(g, Gate::S); },
        Gate::SQRT_XX_DAG => { assert(m =~= spec_name(Gate::SQRT_XX)); lemma_name_injective(g, Gate::SQRT_XX); },
        Gate::SQRT_YY_DAG => { assert(m =~= spec_name(Gate::SQRT_YY)); lemma_name_injective(g, Gate::SQRT_YY); },
        Gate::SQRT_ZZ_DAG => { assert(m =~= spec_name(Gate::SQRT_ZZ)); lemma_name_injective(g, Gate::SQRT_ZZ); },
        Gate::SPP_DAG => { assert(m =~= spec_name(Gate::SPP)); lemma_name_injective(g, Gate::SPP); },
        Gate::ISWAP_DAG => { assert(m =~= spec_name(Gate::ISWAP)); lemma_name_injective(g, Gate::ISWAP); },
        _ => {},
    }
}

/// A gate whose probability argument is optional accepts exactly the argument counts that
/// a gate without arguments or a gate with one probability accepts: none or one.
pub proof fn lemma_optional_probability(g: Gate, plain: Gate, one: Gate, count: int)
    requires
        spec_arg_type(g) == ArgType::ProbabilityOpt,
        spec_arg_type(plain) == ArgType::Empty,
        spec_arg_type(one) == ArgType::Probability(1),
        0 <= count,
    ensures
        spec_accepts_arg_count(g, count) <==> spec_accepts_arg_count(plain, count)
            || spec_accepts_arg_count(one, count),
        spec_accepts_arg_count(g, 0),
        spec_accepts_arg_count(g, 1),
        !spec_accepts_arg_count(g, 2),
{
}

/// A reset that measures nothing is undone, in the table of inverses, by the measurement
/// in the same basis, whose name is the reset's with `M` in place of its leading `R`.
pub proof fn lemma_reset_inverse(g: Gate)
    requires
        spec_reset(g),
        !spec_produces_results(g),
    ensures
        spec_name(spec_inverse(g)) == seq!['M'] + spec_name(g).skip(1),
        spec_produces_results(spec_inverse(g)),
{
    reveal_strlit("R");
    reveal_strlit("RX");
    reveal_strlit("RY");
    reveal_strlit("M");
    reveal_strlit("MX");
    reveal_strlit("MY");
    assert(seq!['M'] + spec_name(g).skip(1) =~= spec_name(spec_inverse(g)));
}

/// A gate on pairs of targets takes any positive even number of them and no odd number:
/// adding a pair keeps a count accepted, adding one target does not.
pub proof fn lemma_pair_counts(g: Gate, n: int)
    requires
        spec_target_type(g) == TargetType::Pair || spec_target_type(g) == TargetType::PairCQ,
        n > 0,
    ensures
        spec_accepts_target_count(g, 2),
        !spec_accepts_target_count(g, 1),
        spec_accepts_target_count(g, n) <==> spec_accepts_target_count(g, n + 2),
        spec_accepts_target_count(g, n) ==> !spec_accepts_target_count(g, n + 1),
{
}

impl vstd::std_specs::convert::FromSpecImpl<usize> for Gate {
    open spec fn obeys_from_spec() -> bool {
        true
    }

    open spec fn from_spec(v: usize) -> Gate {
        spec_gate_at(v as int)
    }
}

impl From<usize> for Gate {
    /// What sits at position `value` of the declaration order, or `NOT_A_GATE` past the end.
    fn from(value: usize) -> (g: Gate) {
        let g = match value {
            0 => Gate::NOT_A_GATE,
            1 => Gate::DETECTOR,
            2 => Gate::OBSERVABLE_INCLUDE,
            3 => Gate::TICK,
            4 => Gate::QUBIT_COORDS,
            5 => Gate::SHIFT_COORDS,
            6 => Gate::REPEAT,
            7 => Gate::MPAD,
            8 => Gate::MX,
            9 => Gate::MY,
            10 => Gate::M,
            11 => Gate::MRX,
            12 => Gate::MRY,
            13 => Gate::MR,
            14 => Gate::RX,
            15 => Gate::RY,
            16 => Gate::R,
            17 => Gate::XCX,
            18 => Gate::XCY,
            19 => Gate::XCZ,
            20 => Gate::YCX,
            21 => Gate::YCY,
            22 => Gate::YCZ,
            23 => Gate::CX,
            24 => Gate::CY,
            25 => Gate::CZ,
            26 => Gate::H,
            27 => Gate::H_XY,
            28 => Gate::H_YZ,
            29 => Gate::DEPOLARIZE1,
            30 => Gate::DEPOLARIZE2,
            31 => Gate::X_ERROR,
            32 => Gate::Y_ERROR,
            33 => Gate::Z_ERROR,
            34 => Gate::PAULI_CHANNEL_1,
            35 => Gate::PAULI_CHANNEL_2,
            36 => Gate::E,
            37 => Gate::ELSE_CORRELATED_ERROR,
            38 => Gate::HERALDED_ERASE,
            39 => Gate::HERALDED_PAULI_CHANNEL_1,
            40 => Gate::I,
            41 => Gate::X,
            42 => Gate::Y,
            43 => Gate::Z,
            44 => Gate::C_XYZ,
            45 => Gate::C_ZYX,
            46 => Gate::SQRT_X,
            47 => Gate::SQRT_X_DAG,
            48 => Gate::SQRT_Y,
            49 => Gate::SQRT_Y_DAG,
            50 => Gate::S,
            51 => Gate::S_DAG,
            52 => Gate::SQRT_XX,
            53 => Gate::SQRT_XX_DAG,
            54 => Gate::SQRT_YY,
            55 => Gate::SQRT_YY_DAG,
            56 => Gate::SQRT_ZZ,
            57 => Gate::SQRT_ZZ_DAG,
            58 => Gate::MPP,
            59 => Gate::SPP,
            60 => Gate::SPP_DAG,
            61 => Gate::SWAP,
            62 => Gate::ISWAP,
            63 => Gate::CXSWAP,
            64 => Gate::SWAPCX,
            65 => Gate::CZSWAP,
            66 => Gate::ISWAP_DAG,
            67 => Gate::MXX,
            68 => Gate::MYY,
            69 => Gate::MZZ,
            _ => Gate::NOT_A_GATE,
        };
        proof {
            if value < NUM_GATES {
                lemma_index_onto(value as int);
                lemma_index_injective(g, spec_gate_at(value as int));
            }
        }
        g
    }
}

impl<'a> vstd::std_specs::convert::FromSpecImpl<&'a str> for Gate {
    open spec fn obeys_from_spec() -> bool {
        true
    }

    open spec fn from_spec(v: &'a str) -> Gate {
        spec_gate_named(v@)
    }
}

impl<'a> From<&'a str> for Gate {
    /// What a text names, by its name or an alternative spelling.
    fn from(s: &'a str) -> (g: Gate) {
        let mut i: usize = 0;
        while i < NUM_GATES
            invariant
                i <= NUM_GATES,
                forall|j: int| 0 <= j < i ==> spec_name(#[trigger] spec_gate_at(j)) != s@,
            decreases NUM_GATES - i,
        {
            let g = Gate::from(i);
            if str_eq(g.name(), s) {
                proof {
                    assert forall|h: Gate| spec_name(h) == s@ implies h == g by {
                        lemma_name_injective(g, h);
                    }
                }
                return g;
            }
            i = i + 1;
        }
        proof {
            assert forall|h: Gate| spec_name(h) != s@ by {
                lemma_index_onto(gate_index(h) as int);
                lemma_index_injective(h, spec_gate_at(gate_index(h) as int));
                assert(spec_name(spec_gate_at(gate_index(h) as int)) != s@);
            }
        }
        gate_alias(s)
    }
}

/// What an alternative spelling stands for.
fn gate_alias(s: &str) -> (g: Gate)
    ensures
        g == spec_alias(s@),
{
    if str_eq(s, "MZ") {
        Gate::M
    } else if str_eq(s, "MRZ") {
        Gate::MR
    } else if str_eq(s, "RZ") {
        Gate::R
    } else if str_eq(s, "CNOT") {
        Gate::CX
    } else if str_eq(s, "ZCX") {
        Gate::CX
    } else if str_eq(s, "ZCY") {
        Gate::CY
    } else if str_eq(s, "ZCZ") {
        Gate::CZ
    } else if str_eq(s, "H_XZ") {
        Gate::H
    } else if str_eq(s, "CORRELATED_ERROR") {
        Gate::E
    } else if str_eq(s, "SQRT_Z") {
        Gate::S
    } else if str_eq(s, "SQRT_Z_DAG") {
        Gate::S_DAG
    } else {
        Gate::NOT_A_GATE
    }
}

impl Gate {
    /// The whole static description of this gate.
    fn data(self) -> (d: GateData)
        ensures
            d.describes(self),
    {
        match self {
            Gate::NOT_A_GATE => GateData {
                name: "NOT_A_GATE",
                arg_type: ArgType::Empty,
                block: false,
                flow_data: &[],
                fusable: true,
                inverse: Gate::NOT_A_GATE,
                noisy: false,
                noop_on_qubits: true,
                produces_results: false,
                reset: false,
                target_type: TargetType::Empty,
                unitary: false,
            },
            Gate::DETECTOR => GateData {
                name: "DETECTOR",
                arg_type: ArgType::Coords,
                block: false,
                flow_data: &[],
                fusable: false,
                inverse: Gate::DETECTOR,
                noisy: false,
                noop_on_qubits: true,
                produces_results: false,
                reset: false,
                target_type: TargetType::MeasurementRecord,
                unitary: false,
            },
            Gate::OBSERVABLE_INCLUDE => GateData {
                name: "OBSERVABLE_INCLUDE",
                arg_type: ArgType::Index,
                block: false,
                flow_data: &[],
                fusable: true,
                inverse: Gate::OBSERVABLE_INCLUDE,
                noisy: false,
                noop_on_qubits: true,
                produces_results: false,
                reset: false,
                target_type: TargetType::PauliOrMeasurementRecord,
                unitary: false,
            },
            Gate::TICK => GateData {
                name: "TICK",
                arg_type: ArgType::Empty,
                block: false,
                flow_data: &[],
                fusable: false,
                inverse: Gate::TICK,
                noisy: false,
                noop_on_qubits: true,
                produces_results: false,
                reset: false,
                target_type: TargetType::Empty,
                unitary: false,
            },
            Gate::QUBIT_COORDS => GateData {
                name: "QUBIT_COORDS",
                arg_type: ArgType::Coords,
                block: false,
                flow_data: &[],
                fusable: false,
                inverse: Gate::QUBIT_COORDS,
                noisy: false,
                noop_on_qubits: true,
                produces_results: false,
                reset: false,
                target_type: TargetType::Single,
                unitary: false,
            },
            Gate::SHIFT_COORDS => GateData {
                name: "SHIFT_COORDS",
                arg_type: ArgType::Coords,
                block: false,
                flow_data: &[],
                fusable: false,
                inverse: Gate::SHIFT_COORDS,
                noisy: false,
                noop_on_qubits: true,
                produces_results: false,
                reset: false,
                target_type: TargetType::Empty,
                unitary: false,
            },
            Gate::REPEAT => GateData {
                name: "REPEAT",
                arg_type: ArgType::Empty,
                block: true,
                flow_data: &[],
                fusable: true,
                inverse: Gate::NOT_A_GATE,
                noisy: false,
                noop_on_qubits: true,
                produces_results: false,
                reset: false,
                target_type: TargetType::Empty,
                unitary: false,
            },
            Gate::MPAD => GateData {
                name: "MPAD",
                arg_type: ArgType::ProbabilityOpt,
                block: false,
                flow_data: &[],
                fusable: true,
                inverse: Gate::MPAD,
                noisy: false,
                noop_on_qubits: false,
                produces_results: true,
                reset: false,
                target_type: TargetType::Bool,
                unitary: false,
            },
            Gate::MX => GateData {
                name: "MX",
                arg_type: ArgType::ProbabilityOpt,
                block: false,
                flow_data: &[],
                fusable: true,
                inverse: Gate::MX,
                noisy: true,
                noop_on_qubits: false,
                produces_results: true,
                reset: false,
                target_type: TargetType::Single,
                unitary: false,
            },
            Gate::MY => GateData {
                name: "MY",
                arg_type: ArgType::ProbabilityOpt,
                block: false,
                flow_data: &[],
                fusable: true,
                inverse: Gate::MY,
                noisy: true,
                noop_on_qubits: false,
                produces_results: true,
                reset: false,
                target_type: TargetType::Single,
                unitary: false,
            },
            Gate::M => GateData {
                name: "M",
                arg_type: ArgType::ProbabilityOpt,
                block: false,
                flow_data: &[],
                fusable: true,
                inverse: Gate::M,
                noisy: true,
                noop_on_qubits: false,
                produces_results: true,
                reset: false,
                target_type: TargetType::Single,
                unitary: false,
            },
            Gate::MRX => GateData {
                name: "MRX",
                arg_type: ArgType::ProbabilityOpt,
                block: false,
                flow_data: &[],
                fusable: true,
                inverse: Gate::MRX,
                noisy: true,
                noop_on_qubits: false,
                produces_results: true,
                reset: true,
                target_type: TargetType::Single,
                unitary: false,
            },
            Gate::MRY => GateData {
                name: "MRY",
                arg_type: ArgType::ProbabilityOpt,
                block: false,
                flow_data: &[],
                fusable: true,
                inverse: Gate::MRY,
                noisy: true,
                noop_on_qubits: false,
                produces_results: true,
                reset: true,
                target_type: TargetType::Single,
                unitary: false,
            },
            Gate::MR => GateData {
                name: "MR",
                arg_type: ArgType::ProbabilityOpt,
                block: false,
                flow_data: &[],
                fusable: true,
                inverse: Gate::MR,
                noisy: true,
                noop_on_qubits: false,
                produces_results: true,
                reset: true,
                target_type: TargetType::Single,
                unitary: false,
            },
            Gate::RX => GateData {
                name: "RX",
                arg_type: ArgType::Empty,
                block: false,
                flow_data: &[],
                fusable: true,
                inverse: Gate::MX,
                noisy: false,
                noop_on_qubits: false,
                produces_results: false,
                reset: true,
                target_type: TargetType::Single,
                unitary: false,
            },
            Gate::RY => GateData {
                name: "RY",
                arg_type: ArgType::Empty,
                block: false,
                flow_data: &[],
                fusable: true,
                inverse: Gate::MY,
                noisy: false,
                noop_on_qubits: false,
                produces_results: false,
                reset: true,
                target_type: TargetType::Single,
                unitary: false,
            },
            Gate::R => GateData {
                name: "R",
                arg_type: ArgType::Empty,
                block: false,
                flow_data: &[],
                fusable: true,
                inverse: Gate::M,
                noisy: false,
                noop_on_qubits: false,
                produces_results: false,
                reset: true,
                target_type: TargetType::Single,
                unitary: false,
            },
            Gate::XCX => GateData {
                name: "XCX",
                arg_type: ArgType::Empty,
                block: false,
                flow_data: &[],
                fusable: true,
                inverse: Gate::XCX,
                noisy: false,
                noop_on_qubits: false,
                produces_results: false,
                reset: false,
                target_type: TargetType::Pair,
                unitary: true,
            },
            Gate::XCY => GateData {
                name: "XCY",
                arg_type: ArgType::Empty,
                block: false,
                flow_data: &[],
                fusable: true,
                inverse: Gate::XCY,
                noisy: false,
                noop_on_qubits: false,
                produces_results: false,
                reset: false,
                target_type: TargetType::Pair,
                unitary: true,
            },
            Gate::XCZ => GateData {
                name: "XCZ",
                arg_type: ArgType::Empty,
                block: false,
                flow_data: &[],
                fusable: true,
                inverse: Gate::XCZ,
                noisy: false,
                noop_on_qubits: false,
                produces_results: false,
                reset: false,
                target_type: TargetType::PairCQ,
                unitary: true,
            },
            Gate::YCX => GateData {
                name: "YCX",
                arg_type: ArgType::Empty,
                block: false,
                flow_data: &[],
                fusable: true,
                inverse: Gate::YCX,
                noisy: false,
                noop_on_qubits: false,
                produces_results: false,
                reset: false,
                target_type: TargetType::Pair,
                unitary: true,
            },
            Gate::YCY => GateData {
                name: "YCY",
                arg_type: ArgType::Empty,
                block: false,
                flow_data: &[],
                fusable: true,
                inverse: Gate::YCY,
                noisy: false,
                noop_on_qubits: false,
                produces_results: false,
                reset: false,
                target_type: TargetType::Pair,
                unitary: true,
            },
            Gate::YCZ => GateData {
                name: "YCZ",
                arg_type: ArgType::Empty,
                block: false,
                flow_data: &[],
                fusable: true,
                inverse: Gate::YCZ,
                noisy: false,
                noop_on_qubits: false,
                produces_results: false,
                reset: false,
                target_type: TargetType::PairCQ,
                unitary: true,
            },
            Gate::CX => GateData {
                name: "CX",
                arg_type: ArgType::Empty,
                block: false,
                flow_data: &[],
                fusable: true,
                inverse: Gate::CX,
                noisy: false,
                noop_on_qubits: false,
                produces_results: false,
                reset: false,
                target_type: TargetType::PairCQ,
                unitary: true,
            },
            Gate::CY => GateData {
                name: "CY",
                arg_type: ArgType::Empty,
                block: false,
                flow_data: &[],
                fusable: true,
                inverse: Gate::CY,
                noisy: false,
                noop_on_qubits: false,
                produces_results: false,
                reset: false,
                target_type: TargetType::PairCQ,
                unitary: true,
            },
            Gate::CZ => GateData {
                name: "CZ",
                arg_type: ArgType::Empty,
                block: false,
                flow_data: &[],
                fusable: true,
                inverse: Gate::CZ,
                noisy: false,
                noop_on_qubits: false,
                produces_results: false,
                reset: false,
                target_type: TargetType::PairCQ,
                unitary: true,
            },
            Gate::H => GateData {
                name: "H",
                arg_type: ArgType::Empty,
                block: false,
                flow_data: &[],
                fusable: true,
                inverse: Gate::H,
                noisy: false,
                noop_on_qubits: false,
                produces_results: false,
                reset: false,
                target_type: TargetType::Single,
                unitary: true,
            },
            Gate::H_XY => GateData {
                name: "H_XY",
                arg_type: ArgType::Empty,
                block: false,
                flow_data: &[],
                fusable: true,
                inverse: Gate::H_XY,
                noisy: false,
                noop_on_qubits: false,
                produces_results: false,
                reset: false,
                target_type: TargetType::Single,
                unitary: true,
            },
            Gate::H_YZ => GateData {
                name: "H_YZ",
                arg_type: ArgType::Empty,
                block: false,
                flow_data: &[],
                fusable: true,
                inverse: Gate::H_YZ,
                noisy: false,
                noop_on_qubits: false,
                produces_results: false,
                reset: false,
                target_type: TargetType::Single,
                unitary: true,
            },
            Gate::DEPOLARIZE1 => GateData {
                name: "DEPOLARIZE1",
                arg_type: ArgType::Probability(1),
                block: false,
                flow_data: &[],
                fusable: true,
                inverse: Gate::DEPOLARIZE1,
                noisy: true,
                noop_on_qubits: false,
                produces_results: false,
                reset: false,
                target_type: TargetType::Single,
                unitary: false,
            },
            Gate::DEPOLARIZE2 => GateData {
                name: "DEPOLARIZE2",
                arg_type: ArgType::Probability(1),
                block: false,
                flow_data: &[],
                fusable: true,
                inverse: Gate::DEPOLARIZE2,
                noisy: true,
                noop_on_qubits: false,
                produces_results: false,
                reset: false,
                target_type: TargetType::Pair,
                unitary: false,
            },
            Gate::X_ERROR => GateData {
                name: "X_ERROR",
                arg_type: ArgType::Probability(1),
                block: false,
                flow_data: &[],
                fusable: true,
                inverse: Gate::X_ERROR,
                noisy: true,
                noop_on_qubits: false,
                produces_results: false,
                reset: false,
                target_type: TargetType::Single,
                unitary: false,
            },
            Gate::Y_ERROR => GateData {
                name: "Y_ERROR",
                arg_type: ArgType::Probability(1),
                block: false,
                flow_data: &[],
                fusable: true,
                inverse: Gate::Y_ERROR,
                noisy: true,
                noop_on_qubits: false,
                produces_results: false,
                reset: false,
                target_type: TargetType::Single,
                unitary: false,
            },
            Gate::Z_ERROR => GateData {
                name: "Z_ERROR",
                arg_type: ArgType::Probability(1),
                block: false,
                flow_data: &[],
                fusable: true,
                inverse: Gate::Z_ERROR,
                noisy: true,
                noop_on_qubits: false,
                produces_results: false,
                reset: false,
                target_type: TargetType::Single,
                unitary: false,
            },
            Gate::PAULI_CHANNEL_1 => GateData {
                name: "PAULI_CHANNEL_1",
                arg_type: ArgType::Probability(3),
                block: false,
                flow_data: &[],
                fusable: true,
                inverse: Gate::PAULI_CHANNEL_1,
                noisy: true,
                noop_on_qubits: false,
                produces_results: false,
                reset: false,
                target_type: TargetType::Single,
                unitary: false,
            },
            Gate::PAULI_CHANNEL_2 => GateData {
                name: "PAULI_CHANNEL_2",
                arg_type: ArgType::Probability(15),
                block: false,
                flow_data: &[],
                fusable: true,
                inverse: Gate::PAULI_CHANNEL_2,
                noisy: true,
                noop_on_qubits: false,
                produces_results: false,
                reset: false,
                target_type: TargetType::Pair,
                unitary: false,
            },
            Gate::E => GateData {
                name: "E",
                arg_type: ArgType::Probability(1),
                block: false,
                flow_data: &[],
                fusable: false,
                inverse: Gate::E,
                noisy: true,
                noop_on_qubits: false,
                produces_results: false,
                reset: false,
                target_type: TargetType::Pauli,
                unitary: false,
            },
            Gate::ELSE_CORRELATED_ERROR => GateData {
                name: "ELSE_CORRELATED_ERROR",
                arg_type: ArgType::Probability(1),
                block: false,
                flow_data: &[],
                fusable: false,
                inverse: Gate::ELSE_CORRELATED_ERROR,
                noisy: true,
                noop_on_qubits: false,
                produces_results: false,
                reset: false,
                target_type: TargetType::Pauli,
                unitary: false,
            },
            Gate::HERALDED_ERASE => GateData {
                name: "HERALDED_ERASE",
                arg_type: ArgType::Probability(1),
                block: false,
                flow_data: &[],
                fusable: true,
                inverse: Gate::HERALDED_ERASE,
                noisy: true,
                noop_on_qubits: false,
                produces_results: true,
                reset: false,
                target_type: TargetType::Single,
                unitary: false,
            },
            Gate::HERALDED_PAULI_CHANNEL_1 => GateData {
                name: "HERALDED_PAULI_CHANNEL_1",
                arg_type: ArgType::Probability(4),
                block: false,
                flow_data: &[],
                fusable: true,
                inverse: Gate::HERALDED_PAULI_CHANNEL_1,
                noisy: true,
                noop_on_qubits: false,
                produces_results: true,
                reset: false,
                target_type: TargetType::Single,
                unitary: false,
            },
            Gate::I => GateData {
                name: "I",
                arg_type: ArgType::Empty,
                block: false,
                flow_data: &[],
                fusable: true,
                inverse: Gate::I,
                noisy: false,
                noop_on_qubits: false,
                produces_results: false,
                reset: false,
                target_type: TargetType::Single,
                unitary: true,
            },
            Gate::X => GateData {
                name: "X",
                arg_type: ArgType::Empty,
                block: false,
                flow_data: &[],
                fusable: true,
                inverse: Gate::X,
                noisy: false,
                noop_on_qubits: false,
                produces_results: false,
                reset: false,
                target_type: TargetType::Single,
                unitary: true,
            },
            Gate::Y => GateData {
                name: "Y",
                arg_type: ArgType::Empty,
                block: false,
                flow_data: &[],
                fusable: true,
                inverse: Gate::Y,
                noisy: false,
                noop_on_qubits: false,
                produces_results: false,
                reset: false,
                target_type: TargetType::Single,
                unitary: true,
            },
            Gate::Z => GateData {
                name: "Z",
                arg_type: ArgType::Empty,
                block: false,
                flow_data: &[],
                fusable: true,
                inverse: Gate::Z,
                noisy: false,
                noop_on_qubits: false,
                produces_results: false,
                reset: false,
                target_type: TargetType::Single,
                unitary: true,
            },
            Gate::C_XYZ => GateData {
                name: "C_XYZ",
                arg_type: ArgType::Empty,
                block: false,
                flow_data: &[],
                fusable: true,
                inverse: Gate::C_ZYX,
                noisy: false,
                noop_on_qubits: false,
                produces_results: false,
                reset: false,
                target_type: TargetType::Single,
                unitary: true,
            },
            Gate::C_ZYX => GateData {
                name: "C_ZYX",
                arg_type: ArgType::Empty,
                block: false,
                flow_data: &[],
                fusable: true,
                inverse: Gate::C_XYZ,
                noisy: false,
                noop_on_qubits: false,
                produces_results: false,
                reset: false,
                target_type: TargetType::Single,
                unitary: true,
            },
            Gate::SQRT_X => GateData {
                name: "SQRT_X",
                arg_type: ArgType::Empty,
                block: false,
                flow_data: &[],
                fusable: true,
                inverse: Gate::SQRT_X_DAG,
                noisy: false,
                noop_on_qubits: false,
                produces_results: false,
                reset: false,
                target_type: TargetType::Single,
                unitary: true,
            },
            Gate::SQRT_X_DAG => GateData {
                name: "SQRT_X_DAG",
                arg_type: ArgType::Empty,
                block: false,
                flow_data: &[],
                fusable: true,
                inverse: Gate::SQRT_X,
                noisy: false,
                noop_on_qubits: false,
                produces_results: false,
                reset: false,
                target_type: TargetType::Single,
                unitary: true,
            },
            Gate::SQRT_Y => GateData {
                name: "SQRT_Y",
                arg_type: ArgType::Empty,
                block: false,
                flow_data: &[],
                fusable: true,
                inverse: Gate::SQRT_Y_DAG,
                noisy: false,
                noop_on_qubits: false,
                produces_results: false,
                reset: false,
                target_type: TargetType::Single,
                unitary: true,
            },
            Gate::SQRT_Y_DAG => GateData {
                name: "SQRT_Y_DAG",
                arg_type: ArgType::Empty,
                block: false,
                flow_data: &[],
                fusable: true,
                inverse: Gate::SQRT_Y,
                noisy: false,
                noop_on_qubits: false,
                produces_results: false,
                reset: false,
                target_type: TargetType::Single,
                unitary: true,
            },
            Gate::S => GateData {
                name: "S",
                arg_type: ArgType::Empty,
                block: false,
                flow_data: &[],
                fusable: true,
                inverse: Gate::S_DAG,
                noisy: false,
                noop_on_qubits: false,
                produces_results: false,
                reset: false,
                target_type: TargetType::Single,
                unitary: true,
            },
            Gate::S_DAG => GateData {
                name: "S_DAG",
                arg_type: ArgType::Empty,
                block: false,
                flow_data: &[],
                fusable: true,
                inverse: Gate::S,
                noisy: false,
                noop_on_qubits: false,
                produces_results: false,
                reset: false,
                target_type: TargetType::Single,
                unitary: true,
            },
            Gate::SQRT_XX => GateData {
                name: "SQRT_XX",
                arg_type: ArgType::Empty,
                block: false,
                flow_data: &[],
                fusable: true,
                inverse: Gate::SQRT_XX_DAG,
                noisy: false,
                noop_on_qubits: false,
                produces_results: false,
                reset: false,
                target_type: TargetType::Pair,
                unitary: true,
            },
            Gate::SQRT_XX_DAG => GateData {
                name: "SQRT_XX_DAG",
                arg_type: ArgType::Empty,
                block: false,
                flow_data: &[],
                fusable: true,
                inverse: Gate::SQRT_XX,
                noisy: false,
                noop_on_qubits: false,
                produces_results: false,
                reset: false,
                target_type: TargetType::Pair,
                unitary: true,
            },
            Gate::SQRT_YY => GateData {
                name: "SQRT_YY",
                arg_type: ArgType::Empty,
                block: false,
                flow_data: &[],
                fusable: true,
                inverse: Gate::SQRT_YY_DAG,
                noisy: false,
                noop_on_qubits: false,
                produces_results: false,
                reset: false,
                target_type: TargetType::Pair,
                unitary: true,
            },
            Gate::SQRT_YY_DAG => GateData {
                name: "SQRT_YY_DAG",
                arg_type: ArgType::Empty,
                block: false,
                flow_data: &[],
                fusable: true,
                inverse: Gate::SQRT_YY,
                noisy: false,
                noop_on_qubits: false,
                produces_results: false,
                reset: false,
                target_type: TargetType::Pair,
                unitary: true,
            },
            Gate::SQRT_ZZ => GateData {
                name: "SQRT_ZZ",
                arg_type: ArgType::Empty,
                block: false,
                flow_data: &[],
                fusable: true,
                inverse: Gate::SQRT_ZZ_DAG,
                noisy: false,
                noop_on_qubits: false,
                produces_results: false,
                reset: false,
                target_type: TargetType::Pair,
                unitary: true,
            },
            Gate::SQRT_ZZ_DAG => GateData {
                name: "SQRT_ZZ_DAG",
                arg_type: ArgType::Empty,
                block: false,
                flow_data: &[],
                fusable: true,
                inverse: Gate::SQRT_ZZ,
                noisy: false,
                noop_on_qubits: false,
                produces_results: false,
                reset: false,
                target_type: TargetType::Pair,
                unitary: true,
            },
            Gate::MPP => GateData {
                name: "MPP",
                arg_type: ArgType::ProbabilityOpt,
                block: false,
                flow_data: &[],
                fusable: true,
                inverse: Gate::MPP,
                noisy: true,
                noop_on_qubits: false,
                produces_results: true,
                reset: false,
                target_type: TargetType::Pauli,
                unitary: false,
            },
            Gate::SPP => GateData {
                name: "SPP",
                arg_type: ArgType::Empty,
                block: false,
                flow_data: &[],
                fusable: true,
                inverse: Gate::SPP_DAG,
                noisy: false,
                noop_on_qubits: false,
                produces_results: false,
                reset: false,
                target_type: TargetType::Pauli,
                unitary: true,
            },
            Gate::SPP_DAG => GateData {
                name: "SPP_DAG",
                arg_type: ArgType::Empty,
                block: false,
                flow_data: &[],
                fusable: true,
                inverse: Gate::SPP,
                noisy: false,
                noop_on_qubits: false,
                produces_results: false,
                reset: false,
                target_type: TargetType::Pauli,
                unitary: true,
            },
            Gate::SWAP => GateData {
                name: "SWAP",
                arg_type: ArgType::Empty,
                block: false,
                flow_data: &[],
                fusable: true,
                inverse: Gate::SWAP,
                noisy: false,
                noop_on_qubits: false,
                produces_results: false,
                reset: false,
                target_type: TargetType::Pair,
                unitary: true,
            },
            Gate::ISWAP => GateData {
                name: "ISWAP",
                arg_type: ArgType::Empty,
                block: false,
                flow_data: &[],
                fusable: true,
                inverse: Gate::ISWAP_DAG,
                noisy: false,
                noop_on_qubits: false,
                produces_results: false,
                reset: false,
                target_type: TargetType::Pair,
                unitary: true,
            },
            Gate::CXSWAP => GateData {
                name: "CXSWAP",
                arg_type: ArgType::Empty,
                block: false,
                flow_data: &[],
                fusable: true,
                inverse: Gate::SWAPCX,
                noisy: false,
                noop_on_qubits: false,
                produces_results: false,
                reset: false,
                target_type: TargetType::Pair,
                unitary: true,
            },
            Gate::SWAPCX => GateData {
                name: "SWAPCX",
                arg_type: ArgType::Empty,
                block: false,
                flow_data: &[],
                fusable: true,
                inverse: Gate::CXSWAP,
                noisy: false,
                noop_on_qubits: false,
                produces_results: false,
                reset: false,
                target_type: TargetType::Pair,
                unitary: true,
            },
            Gate::CZSWAP => GateData {
                name: "CZSWAP",
                arg_type: ArgType::Empty,
                block: false,
                flow_data: &[],
                fusable: true,
                inverse: Gate::CZSWAP,
                noisy: false,
                noop_on_qubits: false,
                produces_results: false,
                reset: false,
                target_type: TargetType::Pair,
                unitary: true,
            },
            Gate::ISWAP_DAG => GateData {
                name: "ISWAP_DAG",
                arg_type: ArgType::Empty,
                block: false,
                flow_data: &[],
                fusable: true,
                inverse: Gate::ISWAP,
                noisy: false,
                noop_on_qubits: false,
                produces_results: false,
                reset: false,
                target_type: TargetType::Pair,
                unitary: true,
            },
            Gate::MXX => GateData {
                name: "MXX",
                arg_type: ArgType::ProbabilityOpt,
                block: false,
                flow_data: &[],
                fusable: true,
                inverse: Gate::MXX,
                noisy: true,
                noop_on_qubits: false,
                produces_results: true,
                reset: false,
                target_type: TargetType::Pair,
                unitary: false,
            },
            Gate::MYY => GateData {
                name: "MYY",
                arg_type: ArgType::ProbabilityOpt,
                block: false,
                flow_data: &[],
                fusable: true,
                inverse: Gate::MYY,
                noisy: true,
                noop_on_qubits: false,
                produces_results: true,
                reset: false,
                target_type: TargetType::Pair,
                unitary: false,
            },
            Gate::MZZ => GateData {
                name: "MZZ",
                arg_type: ArgType::ProbabilityOpt,
                block: false,
                flow_data: &[],
                fusable: true,
                inverse: Gate::MZZ,
                noisy: true,
                noop_on_qubits: false,
                produces_results: true,
                reset: false,
                target_type: TargetType::Pair,
                unitary: false,
            },
        }
    }

    /// The name under which this gate is written.
    pub fn name(&self) -> (r: &'static str)
        ensures
            r@ == spec_name(*self),
    {
        self.data().name
    }

    /// Whether this gate is a unitary operation.
    pub fn unitary(&self) -> (r: bool)
        ensures
            r == spec_unitary(*self),
    {
        self.data().unitary
    }

    /// Whether this gate is noisy.
    pub fn noisy(&self) -> (r: bool)
        ensures
            r == spec_noisy(*self),
    {
        self.data().noisy
    }

    /// The inverse of this gate.
    pub fn inverse(&self) -> (r: Gate)
        ensures
            r == spec_inverse(*self),
    {
        self.data().inverse
    }

    /// Whether this gate adds measurement results to the record.
    pub fn produces_results(&self) -> (r: bool)
        ensures
            r == spec_produces_results(*self),
    {
        self.data().produces_results
    }

    /// The stabilizer flows of this gate; no gate lists any yet.
    pub fn flow_data(&self) -> (r: &'static [&'static str])
        ensures
            r@.len() == 0,
    {
        self.data().flow_data
    }

    /// Whether consecutive uses of this gate may be merged.
    pub fn fusable(&self) -> (r: bool)
        ensures
            r == spec_fusable(*self),
    {
        self.data().fusable
    }

    /// Whether this gate carries a nested block of instructions.
    pub fn block(&self) -> (r: bool)
        ensures
            r == spec_block(*self),
    {
        self.data().block
    }

    /// Whether this gate resets qubits.
    pub fn reset(&self) -> (r: bool)
        ensures
            r == spec_reset(*self),
    {
        self.data().reset
    }

    /// Whether this gate leaves the qubits' state alone.
    pub fn noop_on_qubits(&self) -> (r: bool)
        ensures
            r == spec_noop_on_qubits(*self),
    {
        self.data().noop_on_qubits
    }

    /// What targets this gate takes.
    pub fn target_type(&self) -> (r: TargetType)
        ensures
            r == spec_target_type(*self),
    {
        self.data().target_type
    }

    /// What parenthesised arguments this gate takes.
    pub fn arg_type(&self) -> (r: ArgType)
        ensures
            r == spec_arg_type(*self),
    {
        self.data().arg_type
    }

    /// Whether this gate accepts `count` parenthesised arguments.
    pub fn accepts_arg_count(&self, count: usize) -> (r: bool)
        ensures
            r == spec_accepts_arg_count(*self, count as int),
    {
        match self.arg_type() {
            ArgType::Empty => count == 0,
            ArgType::ProbabilityOpt => count <= 1,
            ArgType::Probability(n) => count == n,
            ArgType::Coords => count >= 1 && count <= 16,
            ArgType::Index => count == 1,
        }
    }

    /// Whether this gate accepts `count` targets.
    pub fn accepts_target_count(&self, count: usize) -> (r: bool)
        ensures
            r == spec_accepts_target_count(*self, count as int),
    {
        match self.target_type() {
            TargetType::Empty => count == 0,
            TargetType::Pair | TargetType::PairCQ => count > 0 && count % 2 == 0,
            TargetType::Bool => count == 1,
            _ => count > 0,
        }
    }

    /// Whether this gate accepts measurement-record targets.
    pub fn accepts_measurement_record(&self) -> (r: bool)
        ensures
            r == spec_accepts_measurement_record(*self),
    {
        match self.target_type() {
            TargetType::MeasurementRecord | TargetType::PauliOrMeasurementRecord
            | TargetType::SingleCQ | TargetType::PairCQ => true,
            _ => false,
        }
    }

    /// Whether this gate accepts qubit targets.
    pub fn accepts_qubit(&self) -> (r: bool)
        ensures
            r == spec_accepts_qubit(*self),
    {
        match self.target_type() {
            TargetType::Single | TargetType::SingleCQ | TargetType::Pair | TargetType::PairCQ => true,
            _ => false,
        }
    }

    /// Whether this gate accepts Pauli-string targets.
    pub fn accepts_pauli_str(&self) -> (r: bool)
        ensures
            r == spec_accepts_pauli_str(*self),
    {
        match self.target_type() {
            TargetType::Pauli | TargetType::PauliOrMeasurementRecord => true,
            _ => false,
        }
    }
}

} // verus!
