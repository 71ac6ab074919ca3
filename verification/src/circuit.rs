//! Circuits: instructions with their targets and arguments, nested `REPEAT` blocks,
//! unrolling, and the `.stim` text of each part.
use vstd::prelude::*;
use crate::gate::{Gate, Pauli, spec_name, spec_pauli_letter};
use crate::text::{
    chars_to_string, decimal_chars, indented, lines_of, push_decimal, push_indented, push_str,
};

verus! {

/// One target of an instruction.
#[derive(Debug, Clone, PartialEq, Eq)]
pub enum Target {
    /// A qubit index, possibly inverted (`!5`).
    Qubit(usize, bool),
    /// A measurement record lookback `rec[-k]`, holding `k`.
    MeasurementRecord(usize),
    /// A product of Pauli operators on qubits (`X1*Z2`), possibly inverted.
    PauliString(Vec<(Pauli, usize)>, bool),
    /// A constant bit.
    Bool(bool),
}

/// The mathematical value of a `Target`.
pub enum TargetView {
    Qubit(usize, bool),
    MeasurementRecord(usize),
    PauliString(Seq<(Pauli, usize)>, bool),
    Bool(bool),
}

impl View for Target {
    type V = TargetView;

    open spec fn view(&self) -> TargetView {
        match self {
            Target::Qubit(i, inv) => TargetView::Qubit(*i, *inv),
            Target::MeasurementRecord(k) => TargetView::MeasurementRecord(*k),
            Target::PauliString(ps, inv) => TargetView::PauliString(ps@, *inv),
            Target::Bool(b) => TargetView::Bool(*b),
        }
    }
}

/// One parenthesised argument of an instruction. Probabilities and coordinates keep
/// the decimal literal as it was written.
#[derive(Debug, Clone, PartialEq)]
pub enum Arg {
    Probability(String),
    Coord(String),
    Index(usize),
}

/// The mathematical value of an `Arg`.
pub enum ArgView {
    Probability(Seq<char>),
    Coord(Seq<char>),
    Index(usize),
}

impl View for Arg {
    type V = ArgView;

    open spec fn view(&self) -> ArgView {
        match self {
            Arg::Probability(t) => ArgView::Probability(t@),
            Arg::Coord(t) => ArgView::Coord(t@),
            Arg::Index(i) => ArgView::Index(*i),
        }
    }
}

/// The mathematical value of a `CircuitInstruction`.
pub struct InstructionView {
    pub gate: Gate,
    pub targets: Seq<TargetView>,
    pub args: Seq<ArgView>,
    pub block: Option<Seq<InstructionView>>,
}

/// One line of a circuit: a gate applied to targets with arguments, or a `REPEAT`
/// block holding a nested circuit.
#[derive(Debug, PartialEq)]
pub struct CircuitInstruction {
    gate: Gate,
    targets: Vec<Target>,
    args: Vec<Arg>,
    block: Option<Circuit>,
}

/// A sequence of instructions.
#[derive(Debug, PartialEq)]
pub struct Circuit {
    instructions: Vec<CircuitInstruction>,
}

/// The values of a sequence of targets.
pub open spec fn targets_view(s: Seq<Target>) -> Seq<TargetView> {
    s.map_values(|t: Target| t@)
}

/// The values of a sequence of arguments.
pub open spec fn args_view(s: Seq<Arg>) -> Seq<ArgView> {
    s.map_values(|a: Arg| a@)
}

/// The values of a sequence of instructions.
pub open spec fn instructions_view(s: Seq<CircuitInstruction>) -> Seq<InstructionView> {
    s.map_values(|i: CircuitInstruction| i@)
}

closed spec fn instruction_value(i: CircuitInstruction) -> InstructionView
    decreases i,
{
    InstructionView {
        gate: i.gate,
        targets: targets_view(i.targets@),
        args: args_view(i.args@),
        block: match i.block {
            Some(c) => Some(instruction_values(c.instructions@)),
            None => None,
        },
    }
}

closed spec fn instruction_values(s: Seq<CircuitInstruction>) -> Seq<InstructionView>
    decreases s,
{
    if s.len() == 0 {
        seq![]
    } else {
        instruction_values(s.drop_last()).push(instruction_value(s.last()))
    }
}

impl View for CircuitInstruction {
    type V = InstructionView;

    closed spec fn view(&self) -> InstructionView {
        instruction_value(*self)
    }
}

impl View for Circuit {
    type V = Seq<InstructionView>;

    closed spec fn view(&self) -> Seq<InstructionView> {
        instruction_values(self.instructions@)
    }
}

impl Circuit {
    /// Every circuit is well formed: only `REPEAT` instructions carry blocks.
    #[verifier::type_invariant]
    spec fn circuit_inv(self) -> bool {
        well_formed(self@)
    }
}

proof fn lemma_instructions_view_push(s: Seq<CircuitInstruction>, x: CircuitInstruction)
    ensures
        instructions_view(s.push(x)) == instructions_view(s).push(x@),
{
    assert(instructions_view(s.push(x)) =~= instructions_view(s).push(x@));
}

proof fn lemma_targets_view_push(s: Seq<Target>, x: Target)
    ensures
        targets_view(s.push(x)) == targets_view(s).push(x@),
{
    assert(targets_view(s.push(x)) =~= targets_view(s).push(x@));
}

proof fn lemma_args_view_push(s: Seq<Arg>, x: Arg)
    ensures
        args_view(s.push(x)) == args_view(s).push(x@),
{
    assert(args_view(s.push(x)) =~= args_view(s).push(x@));
}

proof fn lemma_instruction_values(s: Seq<CircuitInstruction>)
    ensures
        instruction_values(s) == instructions_view(s),
    decreases s.len(),
{
    if s.len() > 0 {
        lemma_instruction_values(s.drop_last());
        assert(instructions_view(s) =~= instructions_view(s.drop_last()).push(s.last()@));
    } else {
        assert(instructions_view(s) =~= Seq::<InstructionView>::empty());
    }
}

proof fn lemma_circuit_view(c: Circuit)
    ensures
        c@ == instructions_view(c.instructions@),
{
    lemma_instruction_values(c.instructions@);
}

/// The view of a `REPEAT` block repeating `block` `count` times.
pub open spec fn repeat_view(count: usize, block: Seq<InstructionView>) -> InstructionView {
    InstructionView {
        gate: Gate::REPEAT,
        targets: seq![],
        args: seq![ArgView::Index(count)],
        block: Some(block),
    }
}

/// How many times an instruction repeats its block: the index argument of a `REPEAT`,
/// and 0 for anything else.
pub open spec fn spec_repeat_count(i: InstructionView) -> nat {
    if i.gate == Gate::REPEAT && i.args.len() > 0 {
        match i.args[0] {
            ArgView::Index(n) => n as nat,
            _ => 0,
        }
    } else {
        0
    }
}

/// `s` written `n` times one after the other.
pub open spec fn repeat_seq<A>(s: Seq<A>, n: nat) -> Seq<A>
    decreases n,
{
    if n == 0 {
        seq![]
    } else {
        repeat_seq(s, (n - 1) as nat) + s
    }
}

/// A circuit with every `REPEAT` block replaced by that many copies of its own
/// unrolled body; a `REPEAT` without a block disappears.
pub open spec fn unroll(c: Seq<InstructionView>) -> Seq<InstructionView>
    decreases c,
{
    if c.len() == 0 {
        seq![]
    } else {
        unroll(c.drop_last()) + unroll_one(c.last())
    }
}

/// The unrolling of a single instruction.
pub open spec fn unroll_one(i: InstructionView) -> Seq<InstructionView>
    decreases i,
{
    if i.gate == Gate::REPEAT {
        match i.block {
            Some(b) => repeat_seq(unroll(b), spec_repeat_count(i)),
            None => seq![],
        }
    } else {
        seq![i]
    }
}

/// No instruction of `c` is a `REPEAT`.
pub open spec fn repeat_free(c: Seq<InstructionView>) -> bool {
    forall|k: int| 0 <= k < c.len() ==> (#[trigger] c[k]).gate != Gate::REPEAT
}

/// No instruction of `c` carries a nested block.
pub open spec fn block_free(c: Seq<InstructionView>) -> bool {
    forall|k: int| 0 <= k < c.len() ==> (#[trigger] c[k]).block is None
}

/// Only `REPEAT` instructions carry nested blocks, and those blocks are themselves well
/// formed; every circuit built with `append` and `append_repeat` is.
pub open spec fn well_formed(c: Seq<InstructionView>) -> bool
    decreases c,
{
    if c.len() == 0 {
        true
    } else {
        well_formed(c.drop_last()) && instruction_well_formed(c.last())
    }
}

/// A single instruction of a well-formed circuit.
pub open spec fn instruction_well_formed(i: InstructionView) -> bool
    decreases i,
{
    match i.block {
        Some(b) => i.gate == Gate::REPEAT && well_formed(b),
        None => true,
    }
}

proof fn lemma_repeat_seq_keeps<A>(s: Seq<A>, n: nat, p: spec_fn(A) -> bool)
    requires
        forall|k: int| 0 <= k < s.len() ==> p(s[k]),
    ensures
        forall|k: int| 0 <= k < repeat_seq(s, n).len() ==> p(#[trigger] repeat_seq(s, n)[k]),
    decreases n,
{
    if n > 0 {
        lemma_repeat_seq_keeps(s, (n - 1) as nat, p);
        let r = repeat_seq(s, (n - 1) as nat);
        assert forall|k: int| 0 <= k < (r + s).len() implies p(#[trigger] (r + s)[k]) by {
            if k < r.len() {
                assert((r + s)[k] == r[k]);
            } else {
                assert((r + s)[k] == s[k - r.len()]);
            }
        }
    }
}

/// Unrolling leaves no `REPEAT` instruction behind.
pub proof fn lemma_unroll_repeat_free(c: Seq<InstructionView>)
    ensures
        repeat_free(unroll(c)),
    decreases c,
{
    if c.len() > 0 {
        lemma_unroll_repeat_free(c.drop_last());
        lemma_unroll_one_repeat_free(c.last());
        let a = unroll(c.drop_last());
        let b = unroll_one(c.last());
        assert forall|k: int| 0 <= k < (a + b).len() implies (#[trigger] (a + b)[k]).gate
            != Gate::REPEAT by {
            if k < a.len() {
                assert((a + b)[k] == a[k]);
            } else {
                assert((a + b)[k] == b[k - a.len()]);
            }
        }
    }
}

/// Unrolling one instruction leaves no `REPEAT` instruction behind.
pub proof fn lemma_unroll_one_repeat_free(i: InstructionView)
    ensures
        repeat_free(unroll_one(i)),
    decreases i,
{
    if i.gate == Gate::REPEAT {
        if let Some(b) = i.block {
            lemma_unroll_repeat_free(b);
            let p = |x: InstructionView| x.gate != Gate::REPEAT;
            lemma_repeat_seq_keeps(unroll(b), spec_repeat_count(i), p);
            assert forall|k: int| 0 <= k < unroll_one(i).len() implies (#[trigger] unroll_one(
                i,
            )[k]).gate != Gate::REPEAT by {
                assert(p(repeat_seq(unroll(b), spec_repeat_count(i))[k]));
            }
        }
    }
}

/// Unrolling a well-formed circuit leaves no nested block behind.
pub proof fn lemma_unroll_block_free(c: Seq<InstructionView>)
    requires
        well_formed(c),
    ensures
        block_free(unroll(c)),
    decreases c,
{
    if c.len() > 0 {
        lemma_unroll_block_free(c.drop_last());
        lemma_unroll_one_block_free(c.last());
        let a = unroll(c.drop_last());
        let b = unroll_one(c.last());
        assert forall|k: int| 0 <= k < (a + b).len() implies (#[trigger] (a + b)[k]).block is None by {
            if k < a.len() {
                assert((a + b)[k] == a[k]);
            } else {
                assert((a + b)[k] == b[k - a.len()]);
            }
        }
    }
}

/// Unrolling one instruction of a well-formed circuit leaves no nested block behind.
pub proof fn lemma_unroll_one_block_free(i: InstructionView)
    requires
        instruction_well_formed(i),
    ensures
        block_free(unroll_one(i)),
    decreases i,
{
    if i.gate == Gate::REPEAT {
        if let Some(b) = i.block {
            lemma_unroll_block_free(b);
            let p = |x: InstructionView| x.block is None;
            lemma_repeat_seq_keeps(unroll(b), spec_repeat_count(i), p);
            assert forall|k: int| 0 <= k < unroll_one(i).len() implies (#[trigger] unroll_one(
                i,
            )[k]).block is None by {
                assert(p(repeat_seq(unroll(b), spec_repeat_count(i))[k]));
            }
        }
    }
}

/// A circuit without `REPEAT` instructions is its own unrolling.
pub proof fn lemma_unroll_repeat_free_identity(c: Seq<InstructionView>)
    requires
        repeat_free(c),
    ensures
        unroll(c) == c,
    decreases c.len(),
{
    if c.len() > 0 {
        assert(c.last() == c[c.len() - 1]);
        assert(repeat_free(c.drop_last())) by {
            let d = c.drop_last();
            assert forall|k: int| 0 <= k < d.len() implies (#[trigger] d[k]).gate
                != Gate::REPEAT by {
                assert(d[k] == c[k]);
            }
        }
        lemma_unroll_repeat_free_identity(c.drop_last());
        assert(c[c.len() - 1].gate != Gate::REPEAT);
        assert(unroll_one(c.last()) == seq![c.last()]);
        assert(c.drop_last() + seq![c.last()] =~= c);
    } else {
        assert(c =~= Seq::<InstructionView>::empty());
    }
}

/// Unrolling twice gives what unrolling once gives.
pub proof fn lemma_unroll_idempotent(c: Seq<InstructionView>)
    ensures
        unroll(unroll(c)) == unroll(c),
{
    lemma_unroll_repeat_free(c);
    lemma_unroll_repeat_free_identity(unroll(c));
}

/// The unrolling of two circuits one after the other is the two unrollings one after
/// the other.
pub proof fn lemma_unroll_concat(a: Seq<InstructionView>, b: Seq<InstructionView>)
    ensures
        unroll(a + b) == unroll(a) + unroll(b),
    decreases b.len(),
{
    if b.len() == 0 {
        assert(a + b =~= a);
        assert(unroll(a) + unroll(b) =~= unroll(a));
    } else {
        lemma_unroll_concat(a, b.drop_last());
        assert((a + b).drop_last() =~= a + b.drop_last());
        assert((a + b).last() == b.last());
        assert(unroll(a) + unroll(b) =~= unroll(a) + unroll(b.drop_last()) + unroll_one(b.last()));
    }
}

/// Appending an instruction appends its unrolling to the unrolled circuit: the
/// instruction itself for a gate other than `REPEAT`, and `repeat_count` copies of the
/// unrolled block for a `REPEAT` block.
pub proof fn lemma_unroll_append(c: Seq<InstructionView>, i: InstructionView)
    ensures
        unroll(c.push(i)) == unroll(c) + unroll_one(i),
        i.gate != Gate::REPEAT ==> unroll(c.push(i)) == unroll(c).push(i),
        i.gate == Gate::REPEAT && i.block is Some ==> unroll(c.push(i)) == unroll(c) + repeat_seq(
            unroll(i.block->0),
            spec_repeat_count(i),
        ),
{
    assert(c.push(i).drop_last() =~= c);
    assert(c.push(i).last() == i);
    if i.gate != Gate::REPEAT {
        assert(unroll(c) + seq![i] =~= unroll(c).push(i));
    }
}

/// The length of `s` repeated `n` times.
pub proof fn lemma_repeat_seq_len<A>(s: Seq<A>, n: nat)
    ensures
        repeat_seq(s, n).len() == n * s.len(),
    decreases n,
{
    if n > 0 {
        lemma_repeat_seq_len(s, (n - 1) as nat);
        assert(n * s.len() == (n - 1) * s.len() + s.len()) by (nonlinear_arith);
    } else {
        assert(n * s.len() == 0) by (nonlinear_arith)
            requires
                n == 0,
        ;
    }
}

/// Appending a well-formed instruction keeps a circuit well formed.
pub proof fn lemma_append_well_formed(c: Seq<InstructionView>, i: InstructionView)
    requires
        well_formed(c),
        instruction_well_formed(i),
    ensures
        well_formed(c.push(i)),
{
    assert(c.push(i).drop_last() =~= c);
    assert(c.push(i).last() == i);
}

/// A circuit in which no instruction carries a block is well formed.
pub proof fn lemma_block_free_well_formed(c: Seq<InstructionView>)
    requires
        block_free(c),
    ensures
        well_formed(c),
{
    lemma_well_formed_each(c);
    assert forall|k: int| 0 <= k < c.len() implies instruction_well_formed(#[trigger] c[k]) by {
        assert(c[k].block is None);
    }
}

/// A `REPEAT` block runs its body exactly the number of times it was given: unrolling it
/// gives that many copies of the unrolled body, one after the other.
pub proof fn lemma_repeat_runs_count(n: usize, b: Seq<InstructionView>)
    ensures
        spec_repeat_count(repeat_view(n, b)) == n,
        unroll(seq![repeat_view(n, b)]) == repeat_seq(unroll(b), n as nat),
        unroll(seq![repeat_view(n, b)]).len() == n * unroll(b).len(),
{
    let x = repeat_view(n, b);
    let c = seq![x];
    assert(c.drop_last() =~= Seq::<InstructionView>::empty());
    assert(c.last() == x);
    assert(unroll(Seq::<InstructionView>::empty()) =~= Seq::<InstructionView>::empty());
    assert(x.args[0] == ArgView::Index(n));
    assert(spec_repeat_count(x) == n);
    assert(unroll_one(x) == repeat_seq(unroll(b), n as nat));
    assert(unroll(c) == unroll(c.drop_last()) + unroll_one(c.last()));
    assert(unroll(c) =~= repeat_seq(unroll(b), n as nat));
    lemma_repeat_seq_len(unroll(b), n as nat);
}

/// A constant bit prints as the digit of its value, as the qubit of that number would:
/// `1` for true and `0` for false.
pub proof fn lemma_bool_text(b: bool)
    ensures
        target_text(TargetView::Bool(b)) == target_text(
            TargetView::Qubit(if b { 1 } else { 0 }, false),
        ),
        target_text(TargetView::Bool(b)) == decimal_chars(if b { 1nat } else { 0nat }),
{
    assert(decimal_chars(1) =~= seq!['1']);
    assert(decimal_chars(0) =~= seq!['0']);
    assert(inversion_mark(false) + decimal_chars(1) =~= seq!['1']);
    assert(inversion_mark(false) + decimal_chars(0) =~= seq!['0']);
}

/// A circuit is well formed exactly when each of its instructions is.
pub proof fn lemma_well_formed_each(c: Seq<InstructionView>)
    ensures
        well_formed(c) <==> forall|k: int|
            0 <= k < c.len() ==> instruction_well_formed(#[trigger] c[k]),
    decreases c.len(),
{
    if c.len() > 0 {
        let d = c.drop_last();
        lemma_well_formed_each(d);
        if well_formed(c) {
            assert forall|k: int| 0 <= k < c.len() implies instruction_well_formed(#[trigger] c[k]) by {
                if k < d.len() {
                    assert(d[k] == c[k]);
                }
            }
        }
        if forall|k: int| 0 <= k < c.len() ==> instruction_well_formed(#[trigger] c[k]) {
            assert forall|k: int| 0 <= k < d.len() implies instruction_well_formed(#[trigger] d[k]) by {
                assert(d[k] == c[k]);
                assert(instruction_well_formed(c[k]));
            }
            assert(instruction_well_formed(c[c.len() - 1]));
        }
    }
}

/// An instruction without a block is well formed, and a `REPEAT` block is when its
/// body is; so every circuit built by `append` and `append_repeat` is well formed.
pub proof fn lemma_built_well_formed(
    gate: Gate,
    targets: Seq<TargetView>,
    args: Seq<ArgView>,
    count: usize,
    body: Seq<InstructionView>,
)
    ensures
        instruction_well_formed(InstructionView { gate, targets, args, block: None }),
        well_formed(body) ==> instruction_well_formed(repeat_view(count, body)),
        well_formed(Seq::<InstructionView>::empty()),
{
}

/// `!` for an inverted target, nothing otherwise.
pub open spec fn inversion_mark(inverted: bool) -> Seq<char> {
    if inverted {
        seq!['!']
    } else {
        seq![]
    }
}

/// The text of one factor `P<k>` of a Pauli product.
pub open spec fn pauli_factor_text(f: (Pauli, usize)) -> Seq<char> {
    seq![spec_pauli_letter(f.0)] + decimal_chars(f.1 as nat)
}

/// The factors of a Pauli product joined by `*`.
pub open spec fn pauli_product_text(ps: Seq<(Pauli, usize)>) -> Seq<char>
    decreases ps.len(),
{
    if ps.len() == 0 {
        seq![]
    } else if ps.len() == 1 {
        pauli_factor_text(ps[0])
    } else {
        pauli_product_text(ps.drop_last()) + seq!['*'] + pauli_factor_text(ps.last())
    }
}

/// The `.stim` text of a target.
pub open spec fn target_text(t: TargetView) -> Seq<char> {
    match t {
        TargetView::Qubit(k, inv) => inversion_mark(inv) + decimal_chars(k as nat),
        TargetView::MeasurementRecord(k) => "rec[-"@ + decimal_chars(k as nat) + seq![']'],
        TargetView::PauliString(ps, inv) => inversion_mark(inv) + pauli_product_text(ps),
        TargetView::Bool(b) => if b {
            seq!['1']
        } else {
            seq!['0']
        },
    }
}

/// The text of an argument: the literal as written, or the decimal index.
pub open spec fn arg_text(a: ArgView) -> Seq<char> {
    match a {
        ArgView::Probability(t) => t,
        ArgView::Coord(t) => t,
        ArgView::Index(k) => decimal_chars(k as nat),
    }
}

/// Arguments joined by `, `.
pub open spec fn args_text(args: Seq<ArgView>) -> Seq<char>
    decreases args.len(),
{
    if args.len() == 0 {
        seq![]
    } else if args.len() == 1 {
        arg_text(args[0])
    } else {
        args_text(args.drop_last()) + seq![',', ' '] + arg_text(args.last())
    }
}

/// Each target preceded by a space.
pub open spec fn targets_text(ts: Seq<TargetView>) -> Seq<char>
    decreases ts.len(),
{
    if ts.len() == 0 {
        seq![]
    } else {
        targets_text(ts.drop_last()) + seq![' '] + target_text(ts.last())
    }
}

/// The text of an instruction between its name and its block: for a `REPEAT`, a space
/// and its first argument; otherwise the parenthesised arguments and the targets.
pub open spec fn operands_text(i: InstructionView) -> Seq<char> {
    if i.gate == Gate::REPEAT {
        if i.args.len() > 0 {
            seq![' '] + arg_text(i.args[0])
        } else {
            seq![]
        }
    } else {
        (if i.args.len() > 0 {
            seq!['('] + args_text(i.args) + seq![')']
        } else {
            seq![]
        }) + targets_text(i.targets)
    }
}

/// The `.stim` text of an instruction, ended by a line feed; a block's instructions
/// follow on their own lines, indented by four spaces, and a `}` line closes it.
pub open spec fn instruction_text(i: InstructionView) -> Seq<char>
    decreases i,
{
    spec_name(i.gate) + operands_text(i) + match i.block {
        Some(b) => " {\n"@ + block_text(b) + seq!['}'],
        None => seq![],
    } + seq!['\n']
}

/// The instructions of a block, each with its lines indented.
pub open spec fn block_text(b: Seq<InstructionView>) -> Seq<char>
    decreases b,
{
    if b.len() == 0 {
        seq![]
    } else {
        block_text(b.drop_last()) + indented(lines_of(instruction_text(b.last())))
    }
}

/// The `.stim` text of a circuit: the texts of its instructions one after the other.
pub open spec fn circuit_text(c: Seq<InstructionView>) -> Seq<char>
    decreases c.len(),
{
    if c.len() == 0 {
        seq![]
    } else {
        circuit_text(c.drop_last()) + instruction_text(c.last())
    }
}

fn write_pauli_product(ps: &Vec<(Pauli, usize)>, out: &mut Vec<char>)
    ensures
        final(out)@ == old(out)@ + pauli_product_text(ps@),
{
    let ghost start = out@;
    let mut j: usize = 0;
    assert(ps@.take(0) =~= Seq::<(Pauli, usize)>::empty());
    while j < ps.len()
        invariant
            j <= ps@.len(),
            out@ == start + pauli_product_text(ps@.take(j as int)),
        decreases ps@.len() - j,
    {
        if j > 0 {
            out.push('*');
        }
        let (p, k) = ps[j];
        out.push(p.letter());
        push_decimal(out, k);
        proof {
            let t = ps@.take(j + 1);
            assert(t.drop_last() =~= ps@.take(j as int));
            assert(t.last() == (p, k));
            if j == 0 {
                assert(t[0] == (p, k));
            }
        }
        j = j + 1;
        assert(out@ =~= start + pauli_product_text(ps@.take(j as int)));
    }
    assert(ps@.take(ps@.len() as int) =~= ps@);
}

impl Target {
    fn write_text(&self, out: &mut Vec<char>)
        ensures
            final(out)@ == old(out)@ + target_text(self@),
    {
        match self {
            Target::Qubit(k, inv) => {
                if *inv {
                    out.push('!');
                }
                push_decimal(out, *k);
                assert(out@ =~= old(out)@ + target_text(self@));
            },
            Target::MeasurementRecord(k) => {
                push_str(out, "rec[-");
                push_decimal(out, *k);
                out.push(']');
                assert(out@ =~= old(out)@ + target_text(self@));
            },
            Target::PauliString(ps, inv) => {
                if *inv {
                    out.push('!');
                }
                write_pauli_product(ps, out);
                assert(out@ =~= old(out)@ + target_text(self@));
            },
            Target::Bool(b) => {
                if *b {
                    out.push('1');
                } else {
                    out.push('0');
                }
                assert(out@ =~= old(out)@ + target_text(self@));
            },
        }
    }

    /// The `.stim` text of this target, such as `!5`, `rec[-2]` or `X1*Z3`.
    pub fn to_string(&self) -> (s: String)
        ensures
            s@ == target_text(self@),
    {
        let mut out: Vec<char> = Vec::new();
        self.write_text(&mut out);
        assert(out@ =~= target_text(self@));
        chars_to_string(&out)
    }
}

impl Arg {
    fn write_text(&self, out: &mut Vec<char>)
        ensures
            final(out)@ == old(out)@ + arg_text(self@),
    {
        match self {
            Arg::Probability(t) => push_str(out, t.as_str()),
            Arg::Coord(t) => push_str(out, t.as_str()),
            Arg::Index(k) => push_decimal(out, *k),
        }
    }

    /// The text of this argument: the literal as written, or the decimal index.
    pub fn to_string(&self) -> (s: String)
        ensures
            s@ == arg_text(self@),
    {
        let mut out: Vec<char> = Vec::new();
        self.write_text(&mut out);
        assert(out@ =~= arg_text(self@));
        chars_to_string(&out)
    }
}

fn write_args(args: &Vec<Arg>, out: &mut Vec<char>)
    ensures
        final(out)@ == old(out)@ + args_text(args_view(args@)),
{
    let ghost start = out@;
    let ghost v = args_view(args@);
    let mut j: usize = 0;
    assert(v.take(0) =~= Seq::<ArgView>::empty());
    while j < args.len()
        invariant
            j <= args@.len(),
            v == args_view(args@),
            out@ == start + args_text(v.take(j as int)),
        decreases args@.len() - j,
    {
        if j > 0 {
            out.push(',');
            out.push(' ');
        }
        args[j].write_text(out);
        proof {
            let t = v.take(j + 1);
            assert(t.drop_last() =~= v.take(j as int));
            assert(t.last() == args@[j as int]@);
            if j == 0 {
                assert(t[0] == args@[j as int]@);
            }
        }
        j = j + 1;
        assert(out@ =~= start + args_text(v.take(j as int)));
    }
    assert(v.take(args@.len() as int) =~= v);
}

fn write_targets(targets: &Vec<Target>, out: &mut Vec<char>)
    ensures
        final(out)@ == old(out)@ + targets_text(targets_view(targets@)),
{
    let ghost start = out@;
    let ghost v = targets_view(targets@);
    let mut j: usize = 0;
    assert(v.take(0) =~= Seq::<TargetView>::empty());
    while j < targets.len()
        invariant
            j <= targets@.len(),
            v == targets_view(targets@),
            out@ == start + targets_text(v.take(j as int)),
        decreases targets@.len() - j,
    {
        out.push(' ');
        targets[j].write_text(out);
        proof {
            let t = v.take(j + 1);
            assert(t.drop_last() =~= v.take(j as int));
            assert(t.last() == targets@[j as int]@);
        }
        j = j + 1;
        assert(out@ =~= start + targets_text(v.take(j as int)));
    }
    assert(v.take(targets@.len() as int) =~= v);
}

impl Target {
    /// A copy of this target.
    fn duplicate(&self) -> (r: Target)
        ensures
            r@ == self@,
    {
        match self {
            Target::Qubit(i, inv) => Target::Qubit(*i, *inv),
            Target::MeasurementRecord(k) => Target::MeasurementRecord(*k),
            Target::PauliString(ps, inv) => {
                let mut v: Vec<(Pauli, usize)> = Vec::new();
                let mut j: usize = 0;
                while j < ps.len()
                    invariant
                        j <= ps@.len(),
                        v@ == ps@.take(j as int),
                    decreases ps@.len() - j,
                {
                    v.push(ps[j]);
                    j = j + 1;
                    assert(v@ =~= ps@.take(j as int));
                }
                assert(v@ =~= ps@);
                Target::PauliString(v, *inv)
            },
            Target::Bool(b) => Target::Bool(*b),
        }
    }
}

impl Arg {
    /// A copy of this argument.
    fn duplicate(&self) -> (r: Arg)
        ensures
            r@ == self@,
    {
        match self {
            Arg::Probability(t) => Arg::Probability(t.clone()),
            Arg::Coord(t) => Arg::Coord(t.clone()),
            Arg::Index(i) => Arg::Index(*i),
        }
    }
}

fn duplicate_targets(s: &Vec<Target>) -> (r: Vec<Target>)
    ensures
        targets_view(r@) == targets_view(s@),
{
    let mut v: Vec<Target> = Vec::new();
    let mut j: usize = 0;
    while j < s.len()
        invariant
            j <= s@.len(),
            targets_view(v@) == targets_view(s@.take(j as int)),
        decreases s@.len() - j,
    {
        let t = s[j].duplicate();
        proof {
            lemma_targets_view_push(v@, t);
            lemma_targets_view_push(s@.take(j as int), s@[j as int]);
            assert(s@.take(j as int).push(s@[j as int]) =~= s@.take(j + 1));
        }
        v.push(t);
        j = j + 1;
    }
    assert(s@.take(s@.len() as int) =~= s@);
    v
}

fn duplicate_args(s: &Vec<Arg>) -> (r: Vec<Arg>)
    ensures
        args_view(r@) == args_view(s@),
{
    let mut v: Vec<Arg> = Vec::new();
    let mut j: usize = 0;
    while j < s.len()
        invariant
            j <= s@.len(),
            args_view(v@) == args_view(s@.take(j as int)),
        decreases s@.len() - j,
    {
        let a = s[j].duplicate();
        proof {
            lemma_args_view_push(v@, a);
            lemma_args_view_push(s@.take(j as int), s@[j as int]);
            assert(s@.take(j as int).push(s@[j as int]) =~= s@.take(j + 1));
        }
        v.push(a);
        j = j + 1;
    }
    assert(s@.take(s@.len() as int) =~= s@);
    v
}

impl Default for CircuitInstruction {
    fn default() -> (r: CircuitInstruction)
        ensures
            r@ == (InstructionView {
                gate: Gate::NOT_A_GATE,
                targets: seq![],
                args: seq![],
                block: None,
            }),
    {
        let r = CircuitInstruction {
            gate: Gate::NOT_A_GATE,
            targets: Vec::new(),
            args: Vec::new(),
            block: None,
        };
        assert(r@.targets =~= seq![]);
        assert(r@.args =~= seq![]);
        r
    }
}

impl CircuitInstruction {
    /// An instruction applying `gate` to `targets` with `args`.
    pub fn new(gate: Gate, targets: Vec<Target>, args: Vec<Arg>) -> (r: Self)
        ensures
            r@ == (InstructionView {
                gate,
                targets: targets_view(targets@),
                args: args_view(args@),
                block: None,
            }),
    {
        CircuitInstruction { gate, targets, args, block: None }
    }

    /// A `REPEAT` block running `block` `repeat_count` times.
    pub fn repeat(repeat_count: usize, block: Circuit) -> (r: Self)
        ensures
            r@ == repeat_view(repeat_count, block@),
    {
        let mut args: Vec<Arg> = Vec::new();
        args.push(Arg::Index(repeat_count));
        let r = CircuitInstruction {
            gate: Gate::REPEAT,
            targets: Vec::new(),
            args,
            block: Some(block),
        };
        assert(r@.targets =~= seq![]);
        assert(r@.args =~= seq![ArgView::Index(repeat_count)]);
        r
    }

    /// This instruction's gate.
    pub fn gate(&self) -> (g: Gate)
        ensures
            g == self@.gate,
    {
        self.gate
    }

    /// The targets of this instruction.
    pub fn targets(&self) -> (r: &[Target])
        ensures
            targets_view(r@) == self@.targets,
    {
        self.targets.as_slice()
    }

    /// The arguments of this instruction.
    pub fn args(&self) -> (r: &[Arg])
        ensures
            args_view(r@) == self@.args,
    {
        self.args.as_slice()
    }

    /// How many times a `REPEAT` runs its block (0 for any other instruction).
    pub fn repeat_count(&self) -> (r: usize)
        ensures
            r == spec_repeat_count(self@),
    {
        if self.gate == Gate::REPEAT {
            if self.args.len() > 0 {
                if let Arg::Index(count) = &self.args[0] {
                    return *count;
                }
            }
        }
        0
    }

    /// The nested circuit of a `REPEAT` block.
    pub fn block(&self) -> (r: Option<&Circuit>)
        ensures
            match r {
                Some(c) => self@.block == Some(c@),
                None => self@.block is None,
            },
    {
        match &self.block {
            Some(c) => Some(c),
            None => None,
        }
    }

    fn write_operands(&self, out: &mut Vec<char>)
        ensures
            final(out)@ == old(out)@ + operands_text(self@),
    {
        let ghost start = out@;
        if self.gate == Gate::REPEAT {
            if self.args.len() > 0 {
                out.push(' ');
                self.args[0].write_text(out);
            }
        } else {
            if self.args.len() > 0 {
                out.push('(');
                write_args(&self.args, out);
                out.push(')');
            }
            write_targets(&self.targets, out);
        }
        assert(out@ =~= start + operands_text(self@));
    }

    fn write_text(&self, out: &mut Vec<char>)
        ensures
            final(out)@ == old(out)@ + instruction_text(self@),
        decreases self,
    {
        let ghost start = out@;
        push_str(out, self.gate.name());
        self.write_operands(out);
        assert(out@ =~= start + spec_name(self@.gate) + operands_text(self@));
        let ghost middle = out@;
        match &self.block {
            Some(c) => {
                push_str(out, " {\n");
                c.write_block(out);
                out.push('}');
                assert(self@.block == Some(c@));
            },
            None => {},
        }
        out.push('\n');
        assert(out@ =~= start + instruction_text(self@));
    }

    /// The `.stim` text of this instruction, ended by a line feed.
    pub fn to_string(&self) -> (s: String)
        ensures
            s@ == instruction_text(self@),
    {
        let mut out: Vec<char> = Vec::new();
        self.write_text(&mut out);
        assert(out@ =~= instruction_text(self@));
        chars_to_string(&out)
    }

    /// A copy of this instruction.
    fn duplicate(&self) -> (r: CircuitInstruction)
        ensures
            r@ == self@,
        decreases self,
    {
        let block = match &self.block {
            Some(c) => Some(c.duplicate()),
            None => None,
        };
        CircuitInstruction {
            gate: self.gate,
            targets: duplicate_targets(&self.targets),
            args: duplicate_args(&self.args),
            block,
        }
    }
}

impl Clone for CircuitInstruction {
    fn clone(&self) -> (r: Self)
        ensures
            r@ == self@,
    {
        self.duplicate()
    }
}

impl Clone for Circuit {
    fn clone(&self) -> (r: Self)
        ensures
            r@ == self@,
    {
        self.duplicate()
    }
}

impl Circuit {
    /// A copy of this circuit.
    fn duplicate(&self) -> (r: Circuit)
        ensures
            r@ == self@,
        decreases self,
    {
        let mut v: Vec<CircuitInstruction> = Vec::new();
        let mut j: usize = 0;
        while j < self.instructions.len()
            invariant
                j <= self.instructions@.len(),
                instructions_view(v@) == instructions_view(self.instructions@.take(j as int)),
            decreases self.instructions@.len() - j,
        {
            let x = self.instructions[j].duplicate();
            proof {
                let t = self.instructions@;
                lemma_instructions_view_push(v@, x);
                lemma_instructions_view_push(t.take(j as int), t[j as int]);
                assert(t.take(j as int).push(t[j as int]) =~= t.take(j + 1));
            }
            v.push(x);
            j = j + 1;
        }
        assert(self.instructions@.take(self.instructions@.len() as int) =~= self.instructions@);
        proof {
            use_type_invariant(self);
            lemma_circuit_view(*self);
            lemma_instruction_values(v@);
        }
        let r = Circuit { instructions: v };
        proof {
            lemma_circuit_view(r);
        }
        r
    }

    fn write_block(&self, out: &mut Vec<char>)
        ensures
            final(out)@ == old(out)@ + block_text(self@),
        decreases self,
    {
        proof {
            lemma_circuit_view(*self);
        }
        let ghost body = self@;
        let mut j: usize = 0;
        let ghost opened = out@;
        assert(body.take(0) =~= Seq::<InstructionView>::empty());
        assert(out@ =~= opened + block_text(body.take(0)));
        while j < self.instructions.len()
            invariant
                j <= self.instructions@.len(),
                body == instructions_view(self.instructions@),
                out@ == opened + block_text(body.take(j as int)),
            decreases self.instructions@.len() - j,
        {
            let mut inner: Vec<char> = Vec::new();
            self.instructions[j].write_text(&mut inner);
            push_indented(out, &inner);
            proof {
                let t = body.take(j + 1);
                assert(t.drop_last() =~= body.take(j as int));
                assert(t.last() == self.instructions@[j as int]@);
            }
            j = j + 1;
        }
        assert(body.take(self.instructions@.len() as int) =~= body);
    }

    /// The `.stim` text of this circuit.
    pub fn to_string(&self) -> (s: String)
        ensures
            s@ == circuit_text(self@),
    {
        proof {
            lemma_circuit_view(*self);
        }
        let ghost c = self@;
        let mut out: Vec<char> = Vec::new();
        let mut j: usize = 0;
        assert(c.take(0) =~= Seq::<InstructionView>::empty());
        assert(out@ =~= circuit_text(c.take(0)));
        while j < self.instructions.len()
            invariant
                j <= self.instructions@.len(),
                c == instructions_view(self.instructions@),
                out@ == circuit_text(c.take(j as int)),
            decreases self.instructions@.len() - j,
        {
            self.instructions[j].write_text(&mut out);
            proof {
                let t = c.take(j + 1);
                assert(t.drop_last() =~= c.take(j as int));
                assert(t.last() == self.instructions@[j as int]@);
            }
            j = j + 1;
        }
        assert(c.take(self.instructions@.len() as int) =~= c);
        chars_to_string(&out)
    }

    /// The empty circuit.
    pub fn new() -> (c: Self)
        ensures
            c@ == Seq::<InstructionView>::empty(),
    {
        let c = Circuit { instructions: Vec::new() };
        proof {
            lemma_circuit_view(c);
        }
        assert(c@ =~= Seq::<InstructionView>::empty());
        c
    }

    /// Adds an instruction applying `gate` to `targets` with `args` at the end.
    pub fn append(&mut self, gate: Gate, targets: Vec<Target>, args: Vec<Arg>)
        ensures
            final(self)@ == old(self)@.push(
                InstructionView {
                    gate,
                    targets: targets_view(targets@),
                    args: args_view(args@),
                    block: None,
                },
            ),
    {
        proof {
            lemma_circuit_view(*self);
        }
        proof {
            use_type_invariant(&*self);
        }
        let ins = CircuitInstruction::new(gate, targets, args);
        let mut v: Vec<CircuitInstruction> = Vec::new();
        proof {
            lemma_instruction_values(v@);
            assert(instructions_view(v@) =~= Seq::<InstructionView>::empty());
        }
        std::mem::swap(&mut v, &mut self.instructions);
        v.push(ins);
        proof {
            lemma_instructions_view_push(old(self).instructions@, ins);
            lemma_instruction_values(v@);
            lemma_append_well_formed(old(self)@, ins@);
        }
        self.instructions = v;
        proof {
            lemma_circuit_view(*self);
        }
        assert(self@ =~= old(self)@.push(ins@));
    }

    /// Adds a `REPEAT` block running `block` `repeat_count` times at the end.
    pub fn append_repeat(&mut self, repeat_count: usize, block: Circuit)
        ensures
            final(self)@ == old(self)@.push(repeat_view(repeat_count, block@)),
    {
        proof {
            lemma_circuit_view(*self);
        }
        proof {
            use_type_invariant(&*self);
            use_type_invariant(&block);
        }
        let ins = CircuitInstruction::repeat(repeat_count, block);
        let mut v: Vec<CircuitInstruction> = Vec::new();
        proof {
            lemma_instruction_values(v@);
            assert(instructions_view(v@) =~= Seq::<InstructionView>::empty());
        }
        std::mem::swap(&mut v, &mut self.instructions);
        v.push(ins);
        proof {
            lemma_instructions_view_push(old(self).instructions@, ins);
            lemma_instruction_values(v@);
            lemma_append_well_formed(old(self)@, ins@);
        }
        self.instructions = v;
        proof {
            lemma_circuit_view(*self);
        }
        assert(self@ =~= old(self)@.push(ins@));
    }

    /// Whether the circuit holds no instruction.
    pub fn is_empty(&self) -> (r: bool)
        ensures
            r == (self@.len() == 0),
    {
        proof {
            lemma_circuit_view(*self);
        }
        self.instructions.len() == 0
    }

    /// The number of top-level instructions.
    pub fn len(&self) -> (r: usize)
        ensures
            r == self@.len(),
    {
        proof {
            lemma_circuit_view(*self);
        }
        self.instructions.len()
    }

    /// The top-level instructions.
    pub fn instructions(&self) -> (r: &[CircuitInstruction])
        ensures
            instructions_view(r@) == self@,
            well_formed(self@),
    {
        proof {
            lemma_circuit_view(*self);
            use_type_invariant(self);
        }
        self.instructions.as_slice()
    }

    /// The instructions with every `REPEAT` block unrolled, recursively.
    pub fn unrolled_instructions(&self) -> (r: Vec<CircuitInstruction>)
        ensures
            instructions_view(r@) == unroll(self@),
            repeat_free(instructions_view(r@)),
            block_free(instructions_view(r@)),
        decreases self,
    {
        proof {
            lemma_circuit_view(*self);
            use_type_invariant(self);
            lemma_unroll_repeat_free(self@);
            lemma_unroll_block_free(self@);
        }
        let ghost c = self@;
        let mut result: Vec<CircuitInstruction> = Vec::new();
        let mut k: usize = 0;
        assert(instructions_view(result@) =~= unroll(c.take(0)));
        while k < self.instructions.len()
            invariant
                k <= self.instructions@.len(),
                c == instructions_view(self.instructions@),
                instructions_view(result@) == unroll(c.take(k as int)),
            decreases self.instructions@.len() - k,
        {
            let instruction = &self.instructions[k];
            let ghost before = instructions_view(result@);
            assert(c.take(k + 1).drop_last() =~= c.take(k as int));
            assert(c.take(k + 1).last() == instruction@);
            assert(unroll(c.take(k + 1)) == unroll(c.take(k as int)) + unroll_one(instruction@));
            if instruction.gate == Gate::REPEAT {
                if let Some(block) = &instruction.block {
                    let body = block.unrolled_instructions();
                    let count = instruction.repeat_count();
                    let ghost unit = unroll(block@);
                    let mut n: usize = 0;
                    assert(before + repeat_seq(unit, 0) =~= before);
                    while n < count
                        invariant
                            n <= count,
                            instructions_view(body@) == unit,
                            instructions_view(result@) == before + repeat_seq(unit, n as nat),
                        decreases count - n,
                    {
                        let ghost round = instructions_view(result@);
                        let mut j: usize = 0;
                        while j < body.len()
                            invariant
                                j <= body@.len(),
                                instructions_view(body@) == unit,
                                instructions_view(result@) == round + unit.take(j as int),
                            decreases body@.len() - j,
                        {
                            let x = body[j].duplicate();
                            proof {
                                lemma_instructions_view_push(result@, x);
                                assert(unit[j as int] == body@[j as int]@);
                                assert(round + unit.take(j + 1) =~= (round + unit.take(j as int)).push(x@));
                            }
                            result.push(x);
                            j = j + 1;
                        }
                        assert(unit.take(body@.len() as int) =~= unit);
                        n = n + 1;
                        assert(before + repeat_seq(unit, n as nat) =~= before + repeat_seq(
                            unit,
                            (n - 1) as nat,
                        ) + unit);
                    }
                    assert(instruction@.block == Some(block@));
                    assert(unroll_one(instruction@) == repeat_seq(unit, count as nat));
                } else {
                    assert(unroll_one(instruction@) =~= Seq::<InstructionView>::empty());
                    assert(before + unroll_one(instruction@) =~= before);
                }
            } else {
                let x = instruction.duplicate();
                proof {
                    lemma_instructions_view_push(result@, x);
                    assert(unroll_one(instruction@) == seq![instruction@]);
                    assert(before.push(x@) =~= before + seq![instruction@]);
                }
                result.push(x);
            }
            assert(instructions_view(result@) == before + unroll_one(instruction@));
            k = k + 1;
        }
        assert(c.take(self.instructions@.len() as int) =~= c);
        result
    }

    /// This circuit with every `REPEAT` block unrolled.
    pub fn unrolled(&self) -> (r: Circuit)
        ensures
            r@ == unroll(self@),
            repeat_free(r@),
            block_free(r@),
    {
        let v = self.unrolled_instructions();
        proof {
            lemma_instruction_values(v@);
            lemma_block_free_well_formed(unroll(self@));
        }
        let r = Circuit { instructions: v };
        proof {
            lemma_circuit_view(r);
        }
        r
    }
}

} // verus!
