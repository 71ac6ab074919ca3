//! Reading `.stim` circuit text.
//!
//! The grammar, line by line (a line ends at a line feed or at the end of the text):
//! spaces, tabs and carriage returns may stand between the parts of a line, and a `#`
//! starts a comment that runs to the end of the line. A line is empty, an instruction
//! `NAME(arg, arg, ...) target target ...` (the parenthesised arguments are optional), a
//! block header `REPEAT <count> {`, or the `}` line that closes the innermost block. An
//! argument is a decimal literal (`-`, digits, an optional fraction and exponent); a
//! target is a qubit `5` or `!5`, a measurement record `rec[-3]`, or a Pauli product
//! `X1*Y2*Z3` (optionally `!`-inverted). Targets are separated from what precedes them by
//! at least one space.
//!
//! Reading happens in two passes: the whole text is first checked against the grammar
//! (any violation gives an `invalid syntax` error on the line where reading stopped),
//! then the lines are read in order, which checks gate names, argument and target kinds
//! and counts.
use vstd::prelude::*;
use crate::circuit::{
    Arg, ArgView, Circuit, InstructionView, Target, TargetView, args_view,
    instruction_well_formed, lemma_well_formed_each, repeat_view, targets_view, well_formed,
};
use crate::gate::{
    ArgType, Gate, Pauli, spec_accepts_arg_count, spec_accepts_measurement_record,
    spec_accepts_pauli_str, spec_accepts_qubit, spec_accepts_target_count, spec_arg_type,
    spec_gate_named, spec_name,
};
use crate::text::{chars_to_string, decimal_chars, push_decimal, push_str};
use vstd::string::StringExecFns;
use vstd::string::StringSliceAdditionalSpecFns;

verus! {

/// An error found while reading a circuit: the line it was found on and what is wrong.
#[derive(Debug, Clone, PartialEq)]
pub struct ParseError {
    pub line: usize,
    pub message: String,
}

/// The mathematical value of a `ParseError`.
pub struct ParseErrorView {
    pub line: nat,
    pub message: Seq<char>,
}

impl View for ParseError {
    type V = ParseErrorView;

    open spec fn view(&self) -> ParseErrorView {
        ParseErrorView { line: self.line as nat, message: self.message@ }
    }
}

/// The text of an error as it is shown to users.
pub open spec fn error_text(e: ParseErrorView) -> Seq<char> {
    "Parse error on line "@ + decimal_chars(e.line) + seq![':', '\n'] + e.message
}

impl ParseError {
    /// The error as it is shown to users: `Parse error on line <n>:` and the message on
    /// the next line.
    pub fn to_string(&self) -> (r: String)
        ensures
            r@ == error_text(self@),
    {
        let mut out: Vec<char> = Vec::new();
        push_str(&mut out, "Parse error on line ");
        push_decimal(&mut out, self.line);
        out.push(':');
        out.push('\n');
        push_str(&mut out, self.message.as_str());
        assert(out@ =~= error_text(self@));
        chars_to_string(&out)
    }
}

/// How reading ends: with a value, with an error, or on a number too large for `usize`.
pub enum Outcome<T> {
    Done(T),
    Failed(ParseErrorView),
    Overflow,
}

/// The kinds of bytes that the scanner skips over.
pub enum ByteClass {
    /// Space, tab or carriage return.
    Space,
    /// `0` to `9`.
    Digit,
    /// Letters, digits and `_`.
    Name,
    /// Anything but a line feed.
    NotNewline,
}

/// Whether byte `b` belongs to class `c`.
pub open spec fn in_class(c: ByteClass, b: u8) -> bool {
    match c {
        ByteClass::Space => b == 32 || b == 9 || b == 13,
        ByteClass::Digit => 48 <= b <= 57,
        ByteClass::Name => (48 <= b <= 57) || (65 <= b <= 90) || (97 <= b <= 122) || b == 95,
        ByteClass::NotNewline => b != 10,
    }
}

/// Whether byte `b` is an ASCII letter.
pub open spec fn is_letter(b: u8) -> bool {
    (65 <= b <= 90) || (97 <= b <= 122)
}

/// The end of the run of class-`c` bytes that starts at `i`.
pub open spec fn skip(s: Seq<u8>, i: int, c: ByteClass) -> int
    decreases s.len() - i,
{
    if 0 <= i < s.len() && in_class(c, s[i]) {
        skip(s, i + 1, c)
    } else {
        i
    }
}

/// Where a run of class-`c` bytes from `i` ends, and that everything before is in the class.
pub proof fn lemma_skip(s: Seq<u8>, i: int, c: ByteClass)
    requires
        0 <= i <= s.len(),
    ensures
        i <= skip(s, i, c) <= s.len(),
        forall|k: int| i <= k < skip(s, i, c) ==> in_class(c, #[trigger] s[k]),
        skip(s, i, c) < s.len() ==> !in_class(c, s[skip(s, i, c)]),
    decreases s.len() - i,
{
    if i < s.len() && in_class(c, s[i]) {
        lemma_skip(s, i + 1, c);
    }
}

fn in_class_exec(c: &ByteClass, b: u8) -> (r: bool)
    ensures
        r == in_class(*c, b),
{
    match c {
        ByteClass::Space => b == 32 || b == 9 || b == 13,
        ByteClass::Digit => 48 <= b && b <= 57,
        ByteClass::Name => (48 <= b && b <= 57) || (65 <= b && b <= 90) || (97 <= b && b <= 122)
            || b == 95,
        ByteClass::NotNewline => b != 10,
    }
}

fn skip_exec(s: &[u8], i: usize, c: ByteClass) -> (r: usize)
    requires
        i <= s@.len(),
    ensures
        r == skip(s@, i as int, c),
        i <= r <= s@.len(),
{
    let mut k = i;
    while k < s.len() && in_class_exec(&c, s[k])
        invariant
            i <= k <= s@.len(),
            skip(s@, i as int, c) == skip(s@, k as int, c),
        decreases s@.len() - k,
    {
        k = k + 1;
    }
    k
}

/// Where the rest of a line that starts at `i` ends: spaces, an optional comment, then
/// the line feed (the result is the position after it) or the end of the text.
pub open spec fn line_rest(s: Seq<u8>, i: int) -> Option<int> {
    let j = skip(s, i, ByteClass::Space);
    let k = if j < s.len() && s[j] == 35 {
        skip(s, j, ByteClass::NotNewline)
    } else {
        j
    };
    if k >= s.len() {
        Some(s.len() as int)
    } else if s[k] == 10 {
        Some(k + 1)
    } else {
        None
    }
}

fn line_rest_exec(s: &[u8], i: usize) -> (r: Option<usize>)
    requires
        i <= s@.len(),
    ensures
        match r {
            Some(e) => line_rest(s@, i as int) == Some(e as int) && e <= s@.len(),
            None => line_rest(s@, i as int) is None,
        },
{
    let j = skip_exec(s, i, ByteClass::Space);
    let k = if j < s.len() && s[j] == 35 {
        skip_exec(s, j, ByteClass::NotNewline)
    } else {
        j
    };
    if k >= s.len() {
        Some(s.len())
    } else if s[k] == 10 {
        Some(k + 1)
    } else {
        None
    }
}

/// The end of the decimal literal that starts at `i` (`-`, digits, an optional fraction,
/// an optional exponent), or `i` itself when there is none.
pub open spec fn number_end(s: Seq<u8>, i: int) -> int {
    let a = if 0 <= i < s.len() && s[i] == 45 {
        i + 1
    } else {
        i
    };
    let b = skip(s, a, ByteClass::Digit);
    if b == a {
        i
    } else {
        let c = if b < s.len() && s[b] == 46 {
            skip(s, b + 1, ByteClass::Digit)
        } else {
            b
        };
        if c < s.len() && (s[c] == 101 || s[c] == 69) {
            let d = if c + 1 < s.len() && (s[c + 1] == 43 || s[c + 1] == 45) {
                c + 2
            } else {
                c + 1
            };
            let e = skip(s, d, ByteClass::Digit);
            if e > d {
                e
            } else {
                c
            }
        } else {
            c
        }
    }
}

fn number_end_exec(s: &[u8], i: usize) -> (r: usize)
    requires
        i <= s@.len(),
    ensures
        r == number_end(s@, i as int),
        i <= r <= s@.len(),
{
    let a = if i < s.len() && s[i] == 45 {
        i + 1
    } else {
        i
    };
    let b = skip_exec(s, a, ByteClass::Digit);
    if b == a {
        return i;
    }
    let c = if b < s.len() && s[b] == 46 {
        skip_exec(s, b + 1, ByteClass::Digit)
    } else {
        b
    };
    if c < s.len() && (s[c] == 101 || s[c] == 69) {
        let d = if c + 1 < s.len() && (s[c + 1] == 43 || s[c + 1] == 45) {
            c + 2
        } else {
            c + 1
        };
        let e = skip_exec(s, d, ByteClass::Digit);
        if e > d {
            e
        } else {
            c
        }
    } else {
        c
    }
}


/// The parenthesised argument list that starts at `i` (at `(`): where it ends (after
/// `)`) and the spans of its literals.
pub open spec fn args_at(s: Seq<u8>, i: int) -> Option<(int, Seq<(int, int)>)> {
    if 0 <= i < s.len() && s[i] == 40 {
        arg_list(s, i + 1, seq![])
    } else {
        None
    }
}

/// The rest of an argument list from `i`, after the literals `acc` were read.
pub open spec fn arg_list(s: Seq<u8>, i: int, acc: Seq<(int, int)>) -> Option<
    (int, Seq<(int, int)>),
>
    decreases s.len() - i,
{
    let j = skip(s, i, ByteClass::Space);
    let e = number_end(s, j);
    if e <= j || j < i {
        None
    } else {
        let k = skip(s, e, ByteClass::Space);
        if 0 <= k < s.len() && s[k] == 44 && k >= i {
            arg_list(s, k + 1, acc.push((j, e)))
        } else if 0 <= k < s.len() && s[k] == 41 {
            Some((k + 1, acc.push((j, e))))
        } else {
            None
        }
    }
}

fn args_at_exec(s: &[u8], i: usize) -> (r: Option<(usize, Vec<(usize, usize)>)>)
    requires
        i <= s@.len(),
    ensures
        match r {
            Some((e, v)) => args_at(s@, i as int) == Some((e as int, spans_view(v@))) && i < e
                <= s@.len() && spans_ok(s@, spans_view(v@)),
            None => args_at(s@, i as int) is None,
        },
{
    if !(i < s.len() && s[i] == 40) {
        return None;
    }
    let mut acc: Vec<(usize, usize)> = Vec::new();
    let mut p = i + 1;
    assert(spans_view(acc@) =~= Seq::<(int, int)>::empty());
    loop
        invariant
            i < p <= s@.len(),
            args_at(s@, i as int) == arg_list(s@, p as int, spans_view(acc@)),
            spans_ok(s@, spans_view(acc@)),
        decreases s@.len() - p,
    {
        let j = skip_exec(s, p, ByteClass::Space);
        let e = number_end_exec(s, j);
        if e <= j {
            return None;
        }
        let k = skip_exec(s, e, ByteClass::Space);
        proof {
            lemma_skip(s@, p as int, ByteClass::Space);
            lemma_spans_view_push(acc@, (j, e));
            assert(spans_ok(s@, spans_view(acc@.push((j, e))))) by {
                let w = spans_view(acc@.push((j, e)));
                assert forall|m: int| 0 <= m < w.len() implies 0 <= (#[trigger] w[m]).0 <= w[m].1
                    <= s@.len() by {
                    if m < w.len() - 1 {
                        assert(w[m] == spans_view(acc@)[m]);
                    }
                }
            }
        }
        if k < s.len() && s[k] == 44 {
            acc.push((j, e));
            p = k + 1;
        } else if k < s.len() && s[k] == 41 {
            acc.push((j, e));
            return Some((k + 1, acc));
        } else {
            return None;
        }
    }
}

/// Spans as pairs of integers.
pub open spec fn spans_view(v: Seq<(usize, usize)>) -> Seq<(int, int)> {
    v.map_values(|x: (usize, usize)| (x.0 as int, x.1 as int))
}

proof fn lemma_spans_view_push(v: Seq<(usize, usize)>, x: (usize, usize))
    ensures
        spans_view(v.push(x)) == spans_view(v).push((x.0 as int, x.1 as int)),
{
    assert(spans_view(v.push(x)) =~= spans_view(v).push((x.0 as int, x.1 as int)));
}

/// Whether the bytes from `a` to `b` are all decimal digits.
pub open spec fn all_digits(s: Seq<u8>, a: int, b: int) -> bool {
    0 <= a <= b <= s.len() && forall|k: int| a <= k < b ==> in_class(ByteClass::Digit, #[trigger] s[k])
}

/// The shape of one target as written.
pub enum TargetShape {
    /// `rec[-k]`, with the span of the digits of `k`.
    Record(int, int),
    /// A Pauli product: whether it is inverted, and each factor's letter and the span of
    /// its qubit's digits.
    Paulis(bool, Seq<(u8, int, int)>),
    /// A qubit: whether it is inverted, and the span of its digits.
    Qubit(bool, int, int),
}

/// A target as written: its span and its shape.
pub struct TargetToken {
    pub start: int,
    pub end: int,
    pub shape: TargetShape,
}

/// Whether `rec[-` is written at `i`.
pub open spec fn starts_with_rec(s: Seq<u8>, i: int) -> bool {
    0 <= i && i + 5 <= s.len() && s[i] == 114 && s[i + 1] == 101 && s[i + 2] == 99 && s[i + 3]
        == 91 && s[i + 4] == 45
}

/// `X`, `Y` or `Z`.
pub open spec fn is_pauli_letter(b: u8) -> bool {
    b == 88 || b == 89 || b == 90
}

/// The factors `P<digits>` joined by `*` from `i`, after the factors `acc`.
pub open spec fn pauli_factors(s: Seq<u8>, i: int, acc: Seq<(u8, int, int)>) -> Option<
    (int, Seq<(u8, int, int)>),
>
    decreases s.len() - i,
{
    if 0 <= i < s.len() && is_pauli_letter(s[i]) {
        let d = skip(s, i + 1, ByteClass::Digit);
        if d <= i + 1 {
            None
        } else if d < s.len() && s[d] == 42 {
            pauli_factors(s, d + 1, acc.push((s[i], i + 1, d)))
        } else {
            Some((d, acc.push((s[i], i + 1, d))))
        }
    } else {
        None
    }
}

/// The target written at `i`: where it ends and its shape.
pub open spec fn target_at(s: Seq<u8>, i: int) -> Option<(int, TargetShape)> {
    if starts_with_rec(s, i) {
        let d = skip(s, i + 5, ByteClass::Digit);
        if d > i + 5 && d < s.len() && s[d] == 93 {
            Some((d + 1, TargetShape::Record(i + 5, d)))
        } else {
            None
        }
    } else {
        let neg = 0 <= i < s.len() && s[i] == 33;
        let j = if neg {
            i + 1
        } else {
            i
        };
        if 0 <= j < s.len() && is_pauli_letter(s[j]) {
            match pauli_factors(s, j, seq![]) {
                Some((e, fs)) => Some((e, TargetShape::Paulis(neg, fs))),
                None => None,
            }
        } else if 0 <= j < s.len() && in_class(ByteClass::Digit, s[j]) {
            let d = skip(s, j, ByteClass::Digit);
            Some((d, TargetShape::Qubit(neg, j, d)))
        } else {
            None
        }
    }
}

/// The targets from `i` to the end of the line, after the targets `acc`: where the line
/// ends and all the targets.
pub open spec fn target_list(s: Seq<u8>, i: int, acc: Seq<TargetToken>) -> Option<
    (int, Seq<TargetToken>),
>
    decreases s.len() - i,
{
    let q = skip(s, i, ByteClass::Space);
    if q >= s.len() || q < 0 || s[q] == 10 || s[q] == 35 {
        match line_rest(s, q) {
            Some(e) => Some((e, acc)),
            None => None,
        }
    } else if q <= i {
        None
    } else {
        match target_at(s, q) {
            Some((e, sh)) => if q < e <= s.len() {
                target_list(s, e, acc.push(TargetToken { start: q, end: e, shape: sh }))
            } else {
                None
            },
            None => None,
        }
    }
}

/// Whether the bytes from `a` to `b` spell `REPEAT`.
pub open spec fn is_repeat_word(s: Seq<u8>, a: int, b: int) -> bool {
    0 <= a <= b <= s.len() && s.subrange(a, b) == seq![82u8, 69u8, 80u8, 69u8, 65u8, 84u8]
}

/// The header `REPEAT <count> {` of a block whose name spans `j..n`: the span of the
/// count's digits and where the block's first line starts.
pub open spec fn block_header(s: Seq<u8>, j: int, n: int) -> Option<(int, int, int)> {
    if is_repeat_word(s, j, n) {
        let k = skip(s, n, ByteClass::Space);
        let d = skip(s, k, ByteClass::Digit);
        let m = skip(s, d, ByteClass::Space);
        if k > n && d > k && 0 <= m < s.len() && s[m] == 123 {
            match line_rest(s, m + 1) {
                Some(b) => Some((k, d, b)),
                None => None,
            }
        } else {
            None
        }
    } else {
        None
    }
}

/// What a line starting at `i` holds.
pub enum LineHead {
    /// The `}` that closes a block.
    Close,
    /// Nothing but spaces and a comment; the next line starts at the position held.
    Empty(int),
    /// A block header: the span of the repeat count's digits and where the body starts.
    Block(int, int, int),
    /// An instruction: the span of its name, the spans of its arguments if it has
    /// parentheses, its targets, and where the next line starts.
    Instruction(int, int, Option<Seq<(int, int)>>, Seq<TargetToken>, int),
    /// Something the grammar does not allow.
    Bad,
}

/// What the line that starts at `i` holds.
pub open spec fn line_head(s: Seq<u8>, i: int) -> LineHead {
    let j = skip(s, i, ByteClass::Space);
    if 0 <= j < s.len() && s[j] == 125 {
        LineHead::Close
    } else if j >= s.len() || j < 0 || s[j] == 10 || s[j] == 35 {
        match line_rest(s, j) {
            Some(e) => LineHead::Empty(e),
            None => LineHead::Bad,
        }
    } else if !is_letter(s[j]) {
        LineHead::Bad
    } else {
        let n = skip(s, j, ByteClass::Name);
        match block_header(s, j, n) {
            Some((a, b, body)) => LineHead::Block(a, b, body),
            None => if n < s.len() && s[n] == 40 {
                match args_at(s, n) {
                    Some((ae, spans)) => match target_list(s, ae, seq![]) {
                        Some((e, ts)) => LineHead::Instruction(j, n, Some(spans), ts, e),
                        None => LineHead::Bad,
                    },
                    None => LineHead::Bad,
                }
            } else {
                match target_list(s, n, seq![]) {
                    Some((e, ts)) => LineHead::Instruction(j, n, None, ts, e),
                    None => LineHead::Bad,
                }
            },
        }
    }
}

enum TargetShapeExec {
    Record(usize, usize),
    Paulis(bool, Vec<(u8, usize, usize)>),
    Qubit(bool, usize, usize),
}

struct TargetTokenExec {
    start: usize,
    end: usize,
    shape: TargetShapeExec,
}

spec fn factors_ok(s: Seq<u8>, fs: Seq<(u8, int, int)>) -> bool {
    forall|k: int| 0 <= k < fs.len() ==> all_digits(s, (#[trigger] fs[k]).1, fs[k].2)
}

spec fn shape_ok(s: Seq<u8>, sh: TargetShape) -> bool {
    match sh {
        TargetShape::Record(a, b) => all_digits(s, a, b),
        TargetShape::Paulis(_, fs) => factors_ok(s, fs),
        TargetShape::Qubit(_, a, b) => all_digits(s, a, b),
    }
}

spec fn token_ok(s: Seq<u8>, t: TargetToken) -> bool {
    0 <= t.start <= t.end <= s.len() && shape_ok(s, t.shape)
}

spec fn tokens_ok(s: Seq<u8>, ts: Seq<TargetToken>) -> bool {
    forall|k: int| 0 <= k < ts.len() ==> token_ok(s, #[trigger] ts[k])
}

spec fn spans_ok(s: Seq<u8>, v: Seq<(int, int)>) -> bool {
    forall|k: int| 0 <= k < v.len() ==> 0 <= (#[trigger] v[k]).0 <= v[k].1 <= s.len()
}

spec fn factors_view(v: Seq<(u8, usize, usize)>) -> Seq<(u8, int, int)> {
    v.map_values(|x: (u8, usize, usize)| (x.0, x.1 as int, x.2 as int))
}

spec fn shape_view(t: TargetShapeExec) -> TargetShape {
    match t {
        TargetShapeExec::Record(a, b) => TargetShape::Record(a as int, b as int),
        TargetShapeExec::Paulis(n, v) => TargetShape::Paulis(n, factors_view(v@)),
        TargetShapeExec::Qubit(n, a, b) => TargetShape::Qubit(n, a as int, b as int),
    }
}

spec fn token_view(t: TargetTokenExec) -> TargetToken {
    TargetToken { start: t.start as int, end: t.end as int, shape: shape_view(t.shape) }
}

spec fn tokens_view(v: Seq<TargetTokenExec>) -> Seq<TargetToken> {
    v.map_values(|t: TargetTokenExec| token_view(t))
}

enum LineHeadExec {
    Close,
    Empty(usize),
    Block(usize, usize, usize),
    Instruction(usize, usize, Option<Vec<(usize, usize)>>, Vec<TargetTokenExec>, usize),
    Bad,
}

spec fn head_view(h: LineHeadExec) -> LineHead {
    match h {
        LineHeadExec::Close => LineHead::Close,
        LineHeadExec::Empty(e) => LineHead::Empty(e as int),
        LineHeadExec::Block(a, b, c) => LineHead::Block(a as int, b as int, c as int),
        LineHeadExec::Instruction(a, b, args, ts, e) => LineHead::Instruction(
            a as int,
            b as int,
            match args {
                Some(v) => Some(spans_view(v@)),
                None => None,
            },
            tokens_view(ts@),
            e as int,
        ),
        LineHeadExec::Bad => LineHead::Bad,
    }
}

fn pauli_factors_exec(s: &[u8], i: usize) -> (r: Option<(usize, Vec<(u8, usize, usize)>)>)
    requires
        i <= s@.len(),
    ensures
        match r {
            Some((e, v)) => pauli_factors(s@, i as int, seq![]) == Some((e as int, factors_view(v@)))
                && i < e <= s@.len() && factors_ok(s@, factors_view(v@)),
            None => pauli_factors(s@, i as int, seq![]) is None,
        },
{
    let mut acc: Vec<(u8, usize, usize)> = Vec::new();
    let mut p = i;
    assert(factors_view(acc@) =~= Seq::<(u8, int, int)>::empty());
    loop
        invariant
            i <= p <= s@.len(),
            pauli_factors(s@, i as int, seq![]) == pauli_factors(s@, p as int, factors_view(acc@)),
            acc@.len() > 0 ==> p > i,
            factors_ok(s@, factors_view(acc@)),
        decreases s@.len() - p,
    {
        if !(p < s.len() && (s[p] == 88 || s[p] == 89 || s[p] == 90)) {
            return None;
        }
        let d = skip_exec(s, p + 1, ByteClass::Digit);
        if d <= p + 1 {
            return None;
        }
        let f = (s[p], p + 1, d);
        proof {
            assert(factors_view(acc@.push(f)) =~= factors_view(acc@).push((s@[p as int], p + 1, d as int)));
            lemma_skip(s@, p + 1, ByteClass::Digit);
            let w = factors_view(acc@.push(f));
            assert forall|m: int| 0 <= m < w.len() implies all_digits(s@, (#[trigger] w[m]).1, w[m].2) by {
                if m < w.len() - 1 {
                    assert(w[m] == factors_view(acc@)[m]);
                }
            }
        }
        acc.push(f);
        if d < s.len() && s[d] == 42 {
            p = d + 1;
        } else {
            return Some((d, acc));
        }
    }
}

fn target_at_exec(s: &[u8], i: usize) -> (r: Option<(usize, TargetShapeExec)>)
    requires
        i <= s@.len(),
    ensures
        match r {
            Some((e, sh)) => target_at(s@, i as int) == Some((e as int, shape_view(sh))) && e
                <= s@.len() && shape_ok(s@, shape_view(sh)),
            None => target_at(s@, i as int) is None,
        },
{
    if s.len() >= 5 && i <= s.len() - 5 && s[i] == 114 && s[i + 1] == 101 && s[i + 2] == 99 && s[i + 3] == 91
        && s[i + 4] == 45 {
        let d = skip_exec(s, i + 5, ByteClass::Digit);
        proof {
            lemma_skip(s@, i + 5, ByteClass::Digit);
        }
        if d > i + 5 && d < s.len() && s[d] == 93 {
            return Some((d + 1, TargetShapeExec::Record(i + 5, d)));
        } else {
            return None;
        }
    }
    let neg = i < s.len() && s[i] == 33;
    let j = if neg {
        i + 1
    } else {
        i
    };
    if j < s.len() && (s[j] == 88 || s[j] == 89 || s[j] == 90) {
        match pauli_factors_exec(s, j) {
            Some((e, fs)) => Some((e, TargetShapeExec::Paulis(neg, fs))),
            None => None,
        }
    } else if j < s.len() && 48 <= s[j] && s[j] <= 57 {
        let d = skip_exec(s, j, ByteClass::Digit);
        proof {
            lemma_skip(s@, j as int, ByteClass::Digit);
        }
        Some((d, TargetShapeExec::Qubit(neg, j, d)))
    } else {
        None
    }
}

fn target_list_exec(s: &[u8], i: usize) -> (r: Option<(usize, Vec<TargetTokenExec>)>)
    requires
        i <= s@.len(),
    ensures
        match r {
            Some((e, v)) => target_list(s@, i as int, seq![]) == Some((e as int, tokens_view(v@)))
                && e <= s@.len() && tokens_ok(s@, tokens_view(v@)),
            None => target_list(s@, i as int, seq![]) is None,
        },
{
    let mut acc: Vec<TargetTokenExec> = Vec::new();
    let mut p = i;
    assert(tokens_view(acc@) =~= Seq::<TargetToken>::empty());
    loop
        invariant
            i <= p <= s@.len(),
            target_list(s@, i as int, seq![]) == target_list(s@, p as int, tokens_view(acc@)),
            tokens_ok(s@, tokens_view(acc@)),
        decreases s@.len() - p,
    {
        let q = skip_exec(s, p, ByteClass::Space);
        if q >= s.len() || s[q] == 10 || s[q] == 35 {
            return match line_rest_exec(s, q) {
                Some(e) => Some((e, acc)),
                None => None,
            };
        }
        if q <= p {
            return None;
        }
        match target_at_exec(s, q) {
            Some((e, sh)) => {
                if q < e {
                    let t = TargetTokenExec { start: q, end: e, shape: sh };
                    proof {
                        assert(tokens_view(acc@.push(t)) =~= tokens_view(acc@).push(token_view(t)));
                        let w = tokens_view(acc@.push(t));
                        assert forall|m: int| 0 <= m < w.len() implies token_ok(s@, #[trigger] w[m]) by {
                            if m < w.len() - 1 {
                                assert(w[m] == tokens_view(acc@)[m]);
                            }
                        }
                    }
                    acc.push(t);
                    p = e;
                } else {
                    return None;
                }
            },
            None => {
                return None;
            },
        }
    }
}

fn is_repeat_word_exec(s: &[u8], a: usize, b: usize) -> (r: bool)
    requires
        a <= b <= s@.len(),
    ensures
        r == is_repeat_word(s@, a as int, b as int),
{
    if b - a != 6 {
        assert(s@.subrange(a as int, b as int).len() != seq![82u8, 69u8, 80u8, 69u8, 65u8, 84u8].len());
        return false;
    }
    let r = s[a] == 82 && s[a + 1] == 69 && s[a + 2] == 80 && s[a + 3] == 69 && s[a + 4] == 65
        && s[a + 5] == 84;
    proof {
        let w = seq![82u8, 69u8, 80u8, 69u8, 65u8, 84u8];
        let t = s@.subrange(a as int, b as int);
        if r {
            assert(t =~= w);
        } else {
            if t == w {
                assert(t[0] == w[0] && t[1] == w[1] && t[2] == w[2] && t[3] == w[3] && t[4] == w[4]
                    && t[5] == w[5]);
            }
        }
    }
    r
}

fn block_header_exec(s: &[u8], j: usize, n: usize) -> (r: Option<(usize, usize, usize)>)
    requires
        j <= n <= s@.len(),
    ensures
        match r {
            Some((a, b, c)) => block_header(s@, j as int, n as int) == Some(
                (a as int, b as int, c as int),
            ) && c <= s@.len(),
            None => block_header(s@, j as int, n as int) is None,
        },
{
    if !is_repeat_word_exec(s, j, n) {
        return None;
    }
    let k = skip_exec(s, n, ByteClass::Space);
    let d = skip_exec(s, k, ByteClass::Digit);
    let m = skip_exec(s, d, ByteClass::Space);
    if k > n && d > k && m < s.len() && s[m] == 123 {
        match line_rest_exec(s, m + 1) {
            Some(b) => Some((k, d, b)),
            None => None,
        }
    } else {
        None
    }
}

fn line_head_exec(s: &[u8], i: usize) -> (r: LineHeadExec)
    requires
        i <= s@.len(),
    ensures
        head_view(r) == line_head(s@, i as int),
        match r {
            LineHeadExec::Empty(e) => e <= s@.len(),
            LineHeadExec::Block(a, b, c) => all_digits(s@, a as int, b as int) && c <= s@.len(),
            LineHeadExec::Instruction(a, b, args, ts, e) => a <= b <= s@.len() && e <= s@.len()
                && tokens_ok(s@, tokens_view(ts@)) && match args {
                Some(v) => spans_ok(s@, spans_view(v@)),
                None => true,
            },
            _ => true,
        },
{
    let j = skip_exec(s, i, ByteClass::Space);
    if j < s.len() && s[j] == 125 {
        return LineHeadExec::Close;
    }
    if j >= s.len() || s[j] == 10 || s[j] == 35 {
        return match line_rest_exec(s, j) {
            Some(e) => LineHeadExec::Empty(e),
            None => LineHeadExec::Bad,
        };
    }
    if !((65 <= s[j] && s[j] <= 90) || (97 <= s[j] && s[j] <= 122)) {
        return LineHeadExec::Bad;
    }
    let n = skip_exec(s, j, ByteClass::Name);
    match block_header_exec(s, j, n) {
        Some((a, b, body)) => {
            proof {
                lemma_skip(s@, n as int, ByteClass::Space);
                lemma_skip(s@, j as int, ByteClass::Space);
                let k = skip(s@, n as int, ByteClass::Space);
                lemma_skip(s@, k, ByteClass::Digit);
            }
            return LineHeadExec::Block(a, b, body);
        },
        None => {},
    }
    if n < s.len() && s[n] == 40 {
        match args_at_exec(s, n) {
            Some((ae, spans)) => match target_list_exec(s, ae) {
                Some((e, ts)) => LineHeadExec::Instruction(j, n, Some(spans), ts, e),
                None => LineHeadExec::Bad,
            },
            None => LineHeadExec::Bad,
        }
    } else {
        match target_list_exec(s, n) {
            Some((e, ts)) => LineHeadExec::Instruction(j, n, None, ts, e),
            None => LineHeadExec::Bad,
        }
    }
}

/// The number of line feeds in `s`.
pub open spec fn newlines(s: Seq<u8>) -> nat
    decreases s.len(),
{
    if s.len() == 0 {
        0
    } else {
        newlines(s.drop_last()) + if s.last() == 10 {
            1nat
        } else {
            0nat
        }
    }
}

/// The number (counting from 1) of the line that position `p` lies on.
pub open spec fn line_number(s: Seq<u8>, p: int) -> nat {
    newlines(s.take(p)) + 1
}

proof fn lemma_newlines_bound(s: Seq<u8>)
    ensures
        newlines(s) <= s.len(),
    decreases s.len(),
{
    if s.len() > 0 {
        lemma_newlines_bound(s.drop_last());
    }
}

fn line_number_exec(s: &[u8], p: usize) -> (r: usize)
    requires
        p <= s@.len(),
        s@.len() < usize::MAX,
    ensures
        r == line_number(s@, p as int),
{
    let mut count: usize = 0;
    let mut k: usize = 0;
    assert(s@.take(0) =~= Seq::<u8>::empty());
    while k < p
        invariant
            k <= p <= s@.len(),
            s@.len() < usize::MAX,
            count == newlines(s@.take(k as int)),
            count <= k,
        decreases p - k,
    {
        assert(s@.take(k + 1).drop_last() =~= s@.take(k as int));
        if s[k] == 10 {
            count = count + 1;
        }
        k = k + 1;
    }
    count + 1
}

/// The result of checking lines against the grammar.
pub enum Syntax {
    /// The lines are well formed; reading stopped at the position held (the end of the
    /// text, or the start of the `}` line that closes the enclosing block).
    Valid(int),
    /// Reading stopped on the line held.
    Invalid(nat),
}

/// Where the `}` line at `p` ends.
pub open spec fn close_end(s: Seq<u8>, p: int) -> Option<int> {
    let j = skip(s, p, ByteClass::Space);
    if 0 <= j < s.len() && s[j] == 125 {
        line_rest(s, j + 1)
    } else {
        None
    }
}

/// Checks the lines from `i` against the grammar; inside a block (`nested`) they must be
/// closed by a `}` line, at the top level they run to the end of the text.
pub open spec fn check_lines(s: Seq<u8>, i: int, nested: bool) -> Syntax
    decreases s.len() - i,
{
    if i < 0 || i >= s.len() {
        if nested {
            Syntax::Invalid(line_number(s, s.len() as int))
        } else {
            Syntax::Valid(s.len() as int)
        }
    } else {
        match line_head(s, i) {
            LineHead::Close => if nested {
                Syntax::Valid(i)
            } else {
                Syntax::Invalid(line_number(s, i))
            },
            LineHead::Empty(e) => if i < e <= s.len() {
                check_lines(s, e, nested)
            } else {
                Syntax::Invalid(line_number(s, i))
            },
            LineHead::Instruction(_, _, _, _, e) => if i < e <= s.len() {
                check_lines(s, e, nested)
            } else {
                Syntax::Invalid(line_number(s, i))
            },
            LineHead::Block(_, _, b) => if i < b <= s.len() {
                match check_lines(s, b, true) {
                    Syntax::Valid(p) => match close_end(s, p) {
                        Some(e) => if i < e <= s.len() {
                            check_lines(s, e, nested)
                        } else {
                            Syntax::Invalid(line_number(s, p))
                        },
                        None => Syntax::Invalid(line_number(s, p)),
                    },
                    Syntax::Invalid(l) => Syntax::Invalid(l),
                }
            } else {
                Syntax::Invalid(line_number(s, i))
            },
            LineHead::Bad => Syntax::Invalid(line_number(s, i)),
        }
    }
}

/// Where a `Valid` check ends.
proof fn lemma_check_lines_end(s: Seq<u8>, i: int, nested: bool)
    requires
        0 <= i <= s.len(),
    ensures
        check_lines(s, i, nested) matches Syntax::Valid(p) ==> i <= p <= s.len(),
    decreases s.len() - i,
{
    if 0 <= i < s.len() {
        match line_head(s, i) {
            LineHead::Empty(e) => if i < e <= s.len() {
                lemma_check_lines_end(s, e, nested);
            },
            LineHead::Instruction(_, _, _, _, e) => if i < e <= s.len() {
                lemma_check_lines_end(s, e, nested);
            },
            LineHead::Block(_, _, b) => if i < b <= s.len() {
                lemma_check_lines_end(s, b, true);
                if let Syntax::Valid(p) = check_lines(s, b, true) {
                    if let Some(e) = close_end(s, p) {
                        if i < e <= s.len() {
                            lemma_check_lines_end(s, e, nested);
                        }
                    }
                }
            },
            _ => {},
        }
    }
}

fn close_end_exec(s: &[u8], p: usize) -> (r: Option<usize>)
    requires
        p <= s@.len(),
    ensures
        match r {
            Some(e) => close_end(s@, p as int) == Some(e as int) && e <= s@.len(),
            None => close_end(s@, p as int) is None,
        },
{
    let j = skip_exec(s, p, ByteClass::Space);
    if j < s.len() && s[j] == 125 {
        line_rest_exec(s, j + 1)
    } else {
        None
    }
}

fn check_lines_exec(s: &[u8], i: usize, nested: bool) -> (r: Result<usize, usize>)
    requires
        i <= s@.len(),
        s@.len() < usize::MAX,
    ensures
        match r {
            Ok(p) => check_lines(s@, i as int, nested) == Syntax::Valid(p as int),
            Err(l) => check_lines(s@, i as int, nested) == Syntax::Invalid(l as nat),
        },
    decreases s@.len() - i,
{
    let mut p = i;
    loop
        invariant
            i <= p <= s@.len(),
            s@.len() < usize::MAX,
            check_lines(s@, i as int, nested) == check_lines(s@, p as int, nested),
        decreases s@.len() - p,
    {
        if p >= s.len() {
            return if nested {
                Err(line_number_exec(s, s.len()))
            } else {
                Ok(s.len())
            };
        }
        match line_head_exec(s, p) {
            LineHeadExec::Close => {
                return if nested {
                    Ok(p)
                } else {
                    Err(line_number_exec(s, p))
                };
            },
            LineHeadExec::Empty(e) => {
                if p < e && e <= s.len() {
                    p = e;
                } else {
                    return Err(line_number_exec(s, p));
                }
            },
            LineHeadExec::Instruction(_, _, _, _, e) => {
                if p < e && e <= s.len() {
                    p = e;
                } else {
                    return Err(line_number_exec(s, p));
                }
            },
            LineHeadExec::Block(_, _, b) => {
                if p < b && b <= s.len() {
                    match check_lines_exec(s, b, true) {
                        Ok(q) => {
                            proof {
                                lemma_check_lines_end(s@, b as int, true);
                            }
                            match close_end_exec(s, q) {
                                Some(e) => {
                                    if p < e && e <= s.len() {
                                        p = e;
                                    } else {
                                        return Err(line_number_exec(s, q));
                                    }
                                },
                                None => {
                                    return Err(line_number_exec(s, q));
                                },
                            }
                        },
                        Err(l) => {
                            return Err(l);
                        },
                    }
                } else {
                    return Err(line_number_exec(s, p));
                }
            },
            LineHeadExec::Bad => {
                return Err(line_number_exec(s, p));
            },
        }
    }
}

/// The characters of the ASCII bytes from `a` to `b`.
pub open spec fn ascii_text(s: Seq<u8>, a: int, b: int) -> Seq<char> {
    s.subrange(a, b).map_values(|x: u8| x as char)
}

/// The value of a run of decimal digits.
pub open spec fn digits_value(d: Seq<u8>) -> nat
    decreases d.len(),
{
    if d.len() == 0 {
        0
    } else {
        digits_value(d.drop_last()) * 10 + (d.last() - 48) as nat
    }
}

/// The value of the digits from `a` to `b`, if it fits in a `usize`.
pub open spec fn number_at(s: Seq<u8>, a: int, b: int) -> Option<usize> {
    let v = digits_value(s.subrange(a, b));
    if v <= usize::MAX {
        Some(v as usize)
    } else {
        None
    }
}

/// The error for text that breaks the grammar.
pub open spec fn syntax_error(line: nat) -> ParseErrorView {
    ParseErrorView { line, message: "invalid syntax"@ }
}

/// The message for a name that is no gate.
pub open spec fn unknown_gate_message(name: Seq<char>) -> Seq<char> {
    "Unknown gate: "@ + name
}

/// The message for an index argument that is not an unsigned integer.
pub open spec fn not_an_index_message(g: Gate, found: Seq<char>) -> Seq<char> {
    "Expected an unsigned integer for gate "@ + spec_name(g) + ", found: "@ + found
}

/// The message for a number of arguments that gate `g` does not take.
pub open spec fn arg_count_message(g: Gate, count: nat) -> Seq<char> {
    "Incorrect number of arguments for gate "@ + spec_name(g) + ": "@ + decimal_chars(count)
}

/// The message for a target that gate `g` does not take.
pub open spec fn invalid_target_message(g: Gate, found: Seq<char>) -> Seq<char> {
    "Invalid target for gate "@ + spec_name(g) + ": "@ + found
}

/// The message for a number of targets that gate `g` does not take.
pub open spec fn target_count_message(g: Gate, count: nat) -> Seq<char> {
    "Incorrect number of targets for gate "@ + spec_name(g) + ": "@ + decimal_chars(count)
}

/// Reads one argument of gate `g` from its literal: a probability or coordinate keeps
/// the literal, an index must be an unsigned integer, and gates without arguments drop it.
pub open spec fn read_arg(s: Seq<u8>, g: Gate, span: (int, int)) -> Outcome<Option<ArgView>> {
    let text = ascii_text(s, span.0, span.1);
    match spec_arg_type(g) {
        ArgType::Probability(_) => Outcome::Done(Some(ArgView::Probability(text))),
        ArgType::ProbabilityOpt => Outcome::Done(Some(ArgView::Probability(text))),
        ArgType::Coords => Outcome::Done(Some(ArgView::Coord(text))),
        ArgType::Index => if skip(s, span.0, ByteClass::Digit) != span.1 {
            Outcome::Failed(
                ParseErrorView {
                    line: line_number(s, span.0),
                    message: not_an_index_message(g, text),
                },
            )
        } else {
            match number_at(s, span.0, span.1) {
                Some(v) => Outcome::Done(Some(ArgView::Index(v))),
                None => Outcome::Overflow,
            }
        },
        ArgType::Empty => Outcome::Done(None),
    }
}

/// Reads the arguments with the given literals, in order.
pub open spec fn read_arg_list(s: Seq<u8>, g: Gate, spans: Seq<(int, int)>) -> Outcome<
    Seq<ArgView>,
>
    decreases spans.len(),
{
    if spans.len() == 0 {
        Outcome::Done(seq![])
    } else {
        match read_arg_list(s, g, spans.drop_last()) {
            Outcome::Done(prev) => match read_arg(s, g, spans.last()) {
                Outcome::Done(Some(a)) => Outcome::Done(prev.push(a)),
                Outcome::Done(None) => Outcome::Done(prev),
                Outcome::Failed(e) => Outcome::Failed(e),
                Outcome::Overflow => Outcome::Overflow,
            },
            Outcome::Failed(e) => Outcome::Failed(e),
            Outcome::Overflow => Outcome::Overflow,
        }
    }
}

/// Reads a parenthesised argument list and checks how many arguments gate `g` got.
pub open spec fn read_args(s: Seq<u8>, g: Gate, spans: Seq<(int, int)>) -> Outcome<Seq<ArgView>> {
    match read_arg_list(s, g, spans) {
        Outcome::Done(args) => if spec_accepts_arg_count(g, args.len() as int) {
            Outcome::Done(args)
        } else {
            Outcome::Failed(
                ParseErrorView {
                    line: if spans.len() > 0 {
                        line_number(s, spans.last().0)
                    } else {
                        0
                    },
                    message: arg_count_message(g, args.len()),
                },
            )
        },
        Outcome::Failed(e) => Outcome::Failed(e),
        Outcome::Overflow => Outcome::Overflow,
    }
}

/// The Pauli operator of a letter byte.
pub open spec fn pauli_of(b: u8) -> Pauli {
    if b == 88 {
        Pauli::X
    } else if b == 89 {
        Pauli::Y
    } else {
        Pauli::Z
    }
}

/// The factors of a Pauli product, if every qubit index fits in a `usize`.
pub open spec fn pauli_values(s: Seq<u8>, fs: Seq<(u8, int, int)>) -> Option<Seq<(Pauli, usize)>>
    decreases fs.len(),
{
    if fs.len() == 0 {
        Some(seq![])
    } else {
        match pauli_values(s, fs.drop_last()) {
            Some(ps) => match number_at(s, fs.last().1, fs.last().2) {
                Some(v) => Some(ps.push((pauli_of(fs.last().0), v))),
                None => None,
            },
            None => None,
        }
    }
}

/// Reads one target of gate `g`; a target of a kind that gate does not take is an error.
pub open spec fn read_target(s: Seq<u8>, g: Gate, t: TargetToken) -> Outcome<TargetView> {
    let invalid = Outcome::Failed(
        ParseErrorView {
            line: line_number(s, t.start),
            message: invalid_target_message(g, ascii_text(s, t.start, t.end)),
        },
    );
    match t.shape {
        TargetShape::Record(a, b) => if spec_accepts_measurement_record(g) {
            match number_at(s, a, b) {
                Some(v) => Outcome::Done(TargetView::MeasurementRecord(v)),
                None => Outcome::Overflow,
            }
        } else {
            invalid
        },
        TargetShape::Paulis(neg, fs) => if spec_accepts_pauli_str(g) {
            match pauli_values(s, fs) {
                Some(ps) => Outcome::Done(TargetView::PauliString(ps, neg)),
                None => Outcome::Overflow,
            }
        } else {
            invalid
        },
        TargetShape::Qubit(neg, a, b) => if spec_accepts_qubit(g) {
            match number_at(s, a, b) {
                Some(v) => Outcome::Done(TargetView::Qubit(v, neg)),
                None => Outcome::Overflow,
            }
        } else {
            invalid
        },
    }
}

/// Reads the targets, in order.
pub open spec fn read_target_list(s: Seq<u8>, g: Gate, ts: Seq<TargetToken>) -> Outcome<
    Seq<TargetView>,
>
    decreases ts.len(),
{
    if ts.len() == 0 {
        Outcome::Done(seq![])
    } else {
        match read_target_list(s, g, ts.drop_last()) {
            Outcome::Done(prev) => match read_target(s, g, ts.last()) {
                Outcome::Done(t) => Outcome::Done(prev.push(t)),
                Outcome::Failed(e) => Outcome::Failed(e),
                Outcome::Overflow => Outcome::Overflow,
            },
            Outcome::Failed(e) => Outcome::Failed(e),
            Outcome::Overflow => Outcome::Overflow,
        }
    }
}

/// Reads the targets and checks how many that gate got (an error without targets is
/// reported on line 0).
pub open spec fn read_targets(s: Seq<u8>, g: Gate, ts: Seq<TargetToken>) -> Outcome<
    Seq<TargetView>,
> {
    match read_target_list(s, g, ts) {
        Outcome::Done(tv) => if spec_accepts_target_count(g, tv.len() as int) {
            Outcome::Done(tv)
        } else {
            Outcome::Failed(
                ParseErrorView {
                    line: if ts.len() > 0 {
                        line_number(s, ts.last().start)
                    } else {
                        0
                    },
                    message: target_count_message(g, tv.len()),
                },
            )
        },
        Outcome::Failed(e) => Outcome::Failed(e),
        Outcome::Overflow => Outcome::Overflow,
    }
}

/// Reads an instruction line: that gate named, then its arguments (when it has
/// parentheses), then its targets.
pub open spec fn read_instruction(
    s: Seq<u8>,
    a: int,
    b: int,
    args: Option<Seq<(int, int)>>,
    ts: Seq<TargetToken>,
) -> Outcome<InstructionView> {
    let name = ascii_text(s, a, b);
    let g = spec_gate_named(name);
    if g == Gate::NOT_A_GATE {
        Outcome::Failed(ParseErrorView { line: line_number(s, a), message: unknown_gate_message(name) })
    } else {
        let read = match args {
            Some(spans) => read_args(s, g, spans),
            None => Outcome::Done(seq![]),
        };
        match read {
            Outcome::Done(av) => match read_targets(s, g, ts) {
                Outcome::Done(tv) => Outcome::Done(
                    InstructionView { gate: g, targets: tv, args: av, block: None },
                ),
                Outcome::Failed(e) => Outcome::Failed(e),
                Outcome::Overflow => Outcome::Overflow,
            },
            Outcome::Failed(e) => Outcome::Failed(e),
            Outcome::Overflow => Outcome::Overflow,
        }
    }
}

/// `x` put in front of the instructions that reading the following lines gives.
pub open spec fn prepend(
    x: Seq<InstructionView>,
    o: Outcome<(Seq<InstructionView>, int)>,
) -> Outcome<(Seq<InstructionView>, int)> {
    match o {
        Outcome::Done((rest, p)) => Outcome::Done((x + rest, p)),
        Outcome::Failed(e) => Outcome::Failed(e),
        Outcome::Overflow => Outcome::Overflow,
    }
}

/// Reads the lines from `i` into instructions, in order, up to the end of the text or
/// (inside a block) up to the `}` line; gives the instructions and where reading stopped.
/// Lines that break the grammar give a syntax error, as `check_lines` does.
pub open spec fn read_lines(s: Seq<u8>, i: int, nested: bool) -> Outcome<
    (Seq<InstructionView>, int),
>
    decreases s.len() - i,
{
    if i < 0 || i >= s.len() {
        if nested {
            Outcome::Failed(syntax_error(line_number(s, s.len() as int)))
        } else {
            Outcome::Done((seq![], s.len() as int))
        }
    } else {
        match line_head(s, i) {
            LineHead::Close => if nested {
                Outcome::Done((seq![], i))
            } else {
                Outcome::Failed(syntax_error(line_number(s, i)))
            },
            LineHead::Empty(e) => if i < e <= s.len() {
                read_lines(s, e, nested)
            } else {
                Outcome::Failed(syntax_error(line_number(s, i)))
            },
            LineHead::Instruction(a, b, args, ts, e) => if i < e <= s.len() {
                match read_instruction(s, a, b, args, ts) {
                    Outcome::Done(ins) => prepend(seq![ins], read_lines(s, e, nested)),
                    Outcome::Failed(x) => Outcome::Failed(x),
                    Outcome::Overflow => Outcome::Overflow,
                }
            } else {
                Outcome::Failed(syntax_error(line_number(s, i)))
            },
            LineHead::Block(a, b, body) => if i < body <= s.len() {
                match number_at(s, a, b) {
                    None => Outcome::Overflow,
                    Some(count) => match read_lines(s, body, true) {
                        Outcome::Done((inner, p)) => match close_end(s, p) {
                            Some(e) => if i < e <= s.len() {
                                prepend(seq![repeat_view(count, inner)], read_lines(s, e, nested))
                            } else {
                                Outcome::Failed(syntax_error(line_number(s, p)))
                            },
                            None => Outcome::Failed(syntax_error(line_number(s, p))),
                        },
                        Outcome::Failed(x) => Outcome::Failed(x),
                        Outcome::Overflow => Outcome::Overflow,
                    },
                }
            } else {
                Outcome::Failed(syntax_error(line_number(s, i)))
            },
            LineHead::Bad => Outcome::Failed(syntax_error(line_number(s, i))),
        }
    }
}

/// What reading a whole `.stim` text gives: a syntax error on the line where checking
/// the grammar stopped, else what reading its lines in order gives.
pub open spec fn spec_parse(s: Seq<u8>) -> Outcome<Seq<InstructionView>> {
    match check_lines(s, 0, false) {
        Syntax::Invalid(l) => Outcome::Failed(syntax_error(l)),
        Syntax::Valid(_) => match read_lines(s, 0, false) {
            Outcome::Done((c, _)) => Outcome::Done(c),
            Outcome::Failed(e) => Outcome::Failed(e),
            Outcome::Overflow => Outcome::Overflow,
        },
    }
}

/// Reading lines gives a well-formed circuit: only `REPEAT` instructions carry blocks.
proof fn lemma_read_lines_well_formed(s: Seq<u8>, i: int, nested: bool)
    ensures
        read_lines(s, i, nested) matches Outcome::Done((c, _)) ==> well_formed(c),
    decreases s.len() - i,
{
    if 0 <= i < s.len() {
        match line_head(s, i) {
            LineHead::Empty(e) => if i < e <= s.len() {
                lemma_read_lines_well_formed(s, e, nested);
            },
            LineHead::Instruction(a, b, args, ts, e) => if i < e <= s.len() {
                lemma_read_lines_well_formed(s, e, nested);
                if let Outcome::Done(x) = read_instruction(s, a, b, args, ts) {
                    if let Outcome::Done((rest, _)) = read_lines(s, e, nested) {
                        lemma_well_formed_each(rest);
                        lemma_well_formed_each(seq![x] + rest);
                        assert forall|k: int| 0 <= k < (seq![x] + rest).len() implies
                            instruction_well_formed(#[trigger] (seq![x] + rest)[k]) by {
                            if k > 0 {
                                assert((seq![x] + rest)[k] == rest[k - 1]);
                            }
                        }
                    }
                }
            },
            LineHead::Block(a, b, body) => if i < body <= s.len() {
                lemma_read_lines_well_formed(s, body, true);
                if let Outcome::Done((inner, p)) = read_lines(s, body, true) {
                    if let Some(e) = close_end(s, p) {
                        if i < e <= s.len() {
                            lemma_read_lines_well_formed(s, e, nested);
                            if let (Some(count), Outcome::Done((rest, _))) = (
                                number_at(s, a, b),
                                read_lines(s, e, nested),
                            ) {
                                let x = repeat_view(count, inner);
                                lemma_well_formed_each(rest);
                                lemma_well_formed_each(seq![x] + rest);
                                assert forall|k: int| 0 <= k < (seq![x] + rest).len() implies
                                    instruction_well_formed(#[trigger] (seq![x] + rest)[k]) by {
                                    if k > 0 {
                                        assert((seq![x] + rest)[k] == rest[k - 1]);
                                    }
                                }
                            }
                        }
                    }
                }
            },
            _ => {},
        }
    }
}

/// Every circuit that reading a text gives is well formed: only `REPEAT` instructions
/// carry blocks, so unrolling it leaves no block behind.
pub proof fn lemma_parse_well_formed(s: Seq<u8>)
    ensures
        spec_parse(s) matches Outcome::Done(c) ==> well_formed(c),
{
    lemma_read_lines_well_formed(s, 0, false);
}

/// What an executable reading result stands for.
pub open spec fn outcome_of<T, V>(r: Option<Result<T, ParseError>>, f: spec_fn(T) -> V) -> Outcome<V> {
    match r {
        Some(Ok(x)) => Outcome::Done(f(x)),
        Some(Err(e)) => Outcome::Failed(e@),
        None => Outcome::Overflow,
    }
}

fn push_ascii(out: &mut Vec<char>, s: &[u8], a: usize, b: usize)
    requires
        a <= b <= s@.len(),
    ensures
        final(out)@ == old(out)@ + ascii_text(s@, a as int, b as int),
{
    let mut k = a;
    while k < b
        invariant
            a <= k <= b <= s@.len(),
            out@ == old(out)@ + ascii_text(s@, a as int, k as int),
        decreases b - k,
    {
        out.push(s[k] as char);
        k = k + 1;
        assert(ascii_text(s@, a as int, k as int) =~= ascii_text(s@, a as int, k - 1).push(
            s@[k - 1] as char,
        ));
    }
}

proof fn lemma_digits_value_prefix(d: Seq<u8>, k: int)
    requires
        0 <= k <= d.len(),
    ensures
        digits_value(d.take(k)) <= digits_value(d),
    decreases d.len(),
{
    if k < d.len() {
        assert(d.drop_last().take(k) =~= d.take(k));
        lemma_digits_value_prefix(d.drop_last(), k);
    } else {
        assert(d.take(k) =~= d);
    }
}

fn number_at_exec(s: &[u8], a: usize, b: usize) -> (r: Option<usize>)
    requires
        all_digits(s@, a as int, b as int),
    ensures
        r == number_at(s@, a as int, b as int),
{
    let ghost d = s@.subrange(a as int, b as int);
    let mut v: usize = 0;
    let mut k = a;
    assert(d.take(0) =~= Seq::<u8>::empty());
    while k < b
        invariant
            all_digits(s@, a as int, b as int),
            a <= k <= b,
            d == s@.subrange(a as int, b as int),
            v == digits_value(d.take(k - a)),
        decreases b - k,
    {
        let digit = s[k] - 48;
        assert(in_class(ByteClass::Digit, s@[k as int]));
        proof {
            assert(d.take(k - a + 1).drop_last() =~= d.take(k - a));
            assert(d.take(k - a + 1).last() == s@[k as int]);
        }
        match v.checked_mul(10) {
            Some(w) => match w.checked_add(digit as usize) {
                Some(x) => {
                    v = x;
                },
                None => {
                    proof {
                        lemma_digits_value_prefix(d, k - a + 1);
                    }
                    return None;
                },
            },
            None => {
                proof {
                    lemma_digits_value_prefix(d, k - a + 1);
                }
                return None;
            },
        }
        k = k + 1;
    }
    assert(d.take(b - a) =~= d);
    Some(v)
}

fn syntax_error_exec(line: usize) -> (e: ParseError)
    ensures
        e@ == syntax_error(line as nat),
{
    ParseError { line, message: String::from_str("invalid syntax") }
}

fn pauli_of_exec(b: u8) -> (p: Pauli)
    ensures
        p == pauli_of(b),
{
    if b == 88 {
        Pauli::X
    } else if b == 89 {
        Pauli::Y
    } else {
        Pauli::Z
    }
}

fn read_arg_exec(s: &[u8], g: Gate, a: usize, b: usize) -> (r: Option<Result<Option<Arg>, ParseError>>)
    requires
        a <= b <= s@.len(),
        s@.len() < usize::MAX,
    ensures
        outcome_of(r, |x: Option<Arg>| match x {
            Some(y) => Some(y@),
            None => None,
        }) == read_arg(s@, g, (a as int, b as int)),
{
    let mut t: Vec<char> = Vec::new();
    push_ascii(&mut t, s, a, b);
    match g.arg_type() {
        ArgType::Probability(_) => Some(Ok(Some(Arg::Probability(chars_to_string(&t))))),
        ArgType::ProbabilityOpt => Some(Ok(Some(Arg::Probability(chars_to_string(&t))))),
        ArgType::Coords => Some(Ok(Some(Arg::Coord(chars_to_string(&t))))),
        ArgType::Index => {
            if skip_exec(s, a, ByteClass::Digit) != b {
                let mut m: Vec<char> = Vec::new();
                push_str(&mut m, "Expected an unsigned integer for gate ");
                push_str(&mut m, g.name());
                push_str(&mut m, ", found: ");
                push_ascii(&mut m, s, a, b);
                let line = line_number_exec(s, a);
                assert(m@ =~= not_an_index_message(g, ascii_text(s@, a as int, b as int)));
                return Some(Err(ParseError { line, message: chars_to_string(&m) }));
            }
            proof {
                lemma_skip(s@, a as int, ByteClass::Digit);
            }
            match number_at_exec(s, a, b) {
                Some(v) => Some(Ok(Some(Arg::Index(v)))),
                None => None,
            }
        },
        ArgType::Empty => Some(Ok(None)),
    }
}

fn read_args_exec(s: &[u8], g: Gate, spans: &Vec<(usize, usize)>) -> (r: Option<
    Result<Vec<Arg>, ParseError>,
>)
    requires
        spans_ok(s@, spans_view(spans@)),
        s@.len() < usize::MAX,
    ensures
        outcome_of(r, |x: Vec<Arg>| args_view(x@)) == read_args(s@, g, spans_view(spans@)),
{
    let ghost sv = spans_view(spans@);
    let mut acc: Vec<Arg> = Vec::new();
    let mut k: usize = 0;
    assert(sv.take(0) =~= Seq::<(int, int)>::empty());
    assert(args_view(acc@) =~= Seq::<ArgView>::empty());
    while k < spans.len()
        invariant
            k <= spans@.len(),
            sv == spans_view(spans@),
            spans_ok(s@, sv),
            s@.len() < usize::MAX,
            read_arg_list(s@, g, sv.take(k as int)) == Outcome::Done(args_view(acc@)),
        decreases spans@.len() - k,
    {
        let (a, b) = spans[k];
        assert(sv[k as int] == (a as int, b as int));
        let one = read_arg_exec(s, g, a, b);
        proof {
            assert(sv.take(k + 1).drop_last() =~= sv.take(k as int));
            assert(sv.take(k + 1).last() == (a as int, b as int));
        }
        match one {
            Some(Ok(Some(x))) => {
                proof {
                    assert(args_view(acc@.push(x)) =~= args_view(acc@).push(x@));
                }
                acc.push(x);
            },
            Some(Ok(None)) => {},
            Some(Err(e)) => {
                proof {
                    lemma_arg_list_stops(s@, g, sv, k + 1);
                }
                return Some(Err(e));
            },
            None => {
                proof {
                    lemma_arg_list_stops(s@, g, sv, k + 1);
                }
                return None;
            },
        }
        k = k + 1;
    }
    assert(sv.take(spans@.len() as int) =~= sv);
    if g.accepts_arg_count(acc.len()) {
        Some(Ok(acc))
    } else {
        let mut m: Vec<char> = Vec::new();
        push_str(&mut m, "Incorrect number of arguments for gate ");
        push_str(&mut m, g.name());
        push_str(&mut m, ": ");
        push_decimal(&mut m, acc.len());
        let line = if spans.len() > 0 {
            line_number_exec(s, spans[spans.len() - 1].0)
        } else {
            0
        };
        assert(m@ =~= arg_count_message(g, acc@.len() as nat));
        Some(Err(ParseError { line, message: chars_to_string(&m) }))
    }
}

/// Once reading an argument list fails, reading any longer list fails the same way.
proof fn lemma_arg_list_stops(s: Seq<u8>, g: Gate, sv: Seq<(int, int)>, k: int)
    requires
        0 < k <= sv.len(),
        !(read_arg_list(s, g, sv.take(k)) is Done),
    ensures
        read_arg_list(s, g, sv) == read_arg_list(s, g, sv.take(k)),
    decreases sv.len() - k,
{
    if k < sv.len() {
        assert(sv.take(k + 1).drop_last() =~= sv.take(k));
        lemma_arg_list_stops(s, g, sv, k + 1);
    } else {
        assert(sv.take(k) =~= sv);
    }
}

fn pauli_values_exec(s: &[u8], fs: &Vec<(u8, usize, usize)>) -> (r: Option<Vec<(Pauli, usize)>>)
    requires
        factors_ok(s@, factors_view(fs@)),
    ensures
        match r {
            Some(v) => pauli_values(s@, factors_view(fs@)) == Some(v@),
            None => pauli_values(s@, factors_view(fs@)) is None,
        },
{
    let ghost fv = factors_view(fs@);
    let mut acc: Vec<(Pauli, usize)> = Vec::new();
    let mut k: usize = 0;
    assert(fv.take(0) =~= Seq::<(u8, int, int)>::empty());
    assert(acc@ =~= Seq::<(Pauli, usize)>::empty());
    while k < fs.len()
        invariant
            k <= fs@.len(),
            fv == factors_view(fs@),
            factors_ok(s@, fv),
            pauli_values(s@, fv.take(k as int)) == Some(acc@),
        decreases fs@.len() - k,
    {
        let (l, a, b) = fs[k];
        assert(fv[k as int] == (l, a as int, b as int));
        assert(all_digits(s@, fv[k as int].1, fv[k as int].2));
        proof {
            assert(fv.take(k + 1).drop_last() =~= fv.take(k as int));
            assert(fv.take(k + 1).last() == (l, a as int, b as int));
        }
        match number_at_exec(s, a, b) {
            Some(v) => {
                acc.push((pauli_of_exec(l), v));
            },
            None => {
                proof {
                    lemma_pauli_values_stop(s@, fv, k + 1);
                }
                return None;
            },
        }
        k = k + 1;
    }
    assert(fv.take(fs@.len() as int) =~= fv);
    Some(acc)
}

proof fn lemma_pauli_values_stop(s: Seq<u8>, fv: Seq<(u8, int, int)>, k: int)
    requires
        0 < k <= fv.len(),
        pauli_values(s, fv.take(k)) is None,
    ensures
        pauli_values(s, fv) is None,
    decreases fv.len() - k,
{
    if k < fv.len() {
        assert(fv.take(k + 1).drop_last() =~= fv.take(k));
        lemma_pauli_values_stop(s, fv, k + 1);
    } else {
        assert(fv.take(k) =~= fv);
    }
}

fn read_target_exec(s: &[u8], g: Gate, t: &TargetTokenExec) -> (r: Option<Result<Target, ParseError>>)
    requires
        token_ok(s@, token_view(*t)),
        s@.len() < usize::MAX,
    ensures
        outcome_of(r, |x: Target| x@) == read_target(s@, g, token_view(*t)),
{
    let ok = match &t.shape {
        TargetShapeExec::Record(_, _) => g.accepts_measurement_record(),
        TargetShapeExec::Paulis(_, _) => g.accepts_pauli_str(),
        TargetShapeExec::Qubit(_, _, _) => g.accepts_qubit(),
    };
    if !ok {
        let mut m: Vec<char> = Vec::new();
        push_str(&mut m, "Invalid target for gate ");
        push_str(&mut m, g.name());
        push_str(&mut m, ": ");
        push_ascii(&mut m, s, t.start, t.end);
        let line = line_number_exec(s, t.start);
        assert(m@ =~= invalid_target_message(g, ascii_text(s@, t.start as int, t.end as int)));
        return Some(Err(ParseError { line, message: chars_to_string(&m) }));
    }
    match &t.shape {
        TargetShapeExec::Record(a, b) => match number_at_exec(s, *a, *b) {
            Some(v) => Some(Ok(Target::MeasurementRecord(v))),
            None => None,
        },
        TargetShapeExec::Paulis(neg, fs) => match pauli_values_exec(s, fs) {
            Some(ps) => Some(Ok(Target::PauliString(ps, *neg))),
            None => None,
        },
        TargetShapeExec::Qubit(neg, a, b) => match number_at_exec(s, *a, *b) {
            Some(v) => Some(Ok(Target::Qubit(v, *neg))),
            None => None,
        },
    }
}

fn read_targets_exec(s: &[u8], g: Gate, ts: &Vec<TargetTokenExec>) -> (r: Option<
    Result<Vec<Target>, ParseError>,
>)
    requires
        tokens_ok(s@, tokens_view(ts@)),
        s@.len() < usize::MAX,
    ensures
        outcome_of(r, |x: Vec<Target>| targets_view(x@)) == read_targets(s@, g, tokens_view(ts@)),
{
    let ghost tv = tokens_view(ts@);
    let mut acc: Vec<Target> = Vec::new();
    let mut k: usize = 0;
    assert(tv.take(0) =~= Seq::<TargetToken>::empty());
    assert(targets_view(acc@) =~= Seq::<TargetView>::empty());
    while k < ts.len()
        invariant
            k <= ts@.len(),
            tv == tokens_view(ts@),
            tokens_ok(s@, tv),
            s@.len() < usize::MAX,
            read_target_list(s@, g, tv.take(k as int)) == Outcome::Done(targets_view(acc@)),
        decreases ts@.len() - k,
    {
        assert(tv[k as int] == token_view(ts@[k as int]));
        assert(token_ok(s@, tv[k as int]));
        let one = read_target_exec(s, g, &ts[k]);
        proof {
            assert(tv.take(k + 1).drop_last() =~= tv.take(k as int));
            assert(tv.take(k + 1).last() == token_view(ts@[k as int]));
        }
        match one {
            Some(Ok(x)) => {
                proof {
                    assert(targets_view(acc@.push(x)) =~= targets_view(acc@).push(x@));
                }
                acc.push(x);
            },
            Some(Err(e)) => {
                proof {
                    lemma_target_list_stops(s@, g, tv, k + 1);
                }
                return Some(Err(e));
            },
            None => {
                proof {
                    lemma_target_list_stops(s@, g, tv, k + 1);
                }
                return None;
            },
        }
        k = k + 1;
    }
    assert(tv.take(ts@.len() as int) =~= tv);
    if g.accepts_target_count(acc.len()) {
        Some(Ok(acc))
    } else {
        let mut m: Vec<char> = Vec::new();
        push_str(&mut m, "Incorrect number of targets for gate ");
        push_str(&mut m, g.name());
        push_str(&mut m, ": ");
        push_decimal(&mut m, acc.len());
        let line = if ts.len() > 0 {
            assert(token_ok(s@, tv[ts@.len() - 1]));
            line_number_exec(s, ts[ts.len() - 1].start)
        } else {
            0
        };
        assert(m@ =~= target_count_message(g, acc@.len() as nat));
        Some(Err(ParseError { line, message: chars_to_string(&m) }))
    }
}

/// Once reading a target list fails, reading any longer list fails the same way.
proof fn lemma_target_list_stops(s: Seq<u8>, g: Gate, tv: Seq<TargetToken>, k: int)
    requires
        0 < k <= tv.len(),
        !(read_target_list(s, g, tv.take(k)) is Done),
    ensures
        read_target_list(s, g, tv) == read_target_list(s, g, tv.take(k)),
    decreases tv.len() - k,
{
    if k < tv.len() {
        assert(tv.take(k + 1).drop_last() =~= tv.take(k));
        lemma_target_list_stops(s, g, tv, k + 1);
    } else {
        assert(tv.take(k) =~= tv);
    }
}

fn read_instruction_exec(
    s: &[u8],
    a: usize,
    b: usize,
    args: &Option<Vec<(usize, usize)>>,
    ts: &Vec<TargetTokenExec>,
) -> (r: Option<Result<(Gate, Vec<Target>, Vec<Arg>), ParseError>>)
    requires
        a <= b <= s@.len(),
        s@.len() < usize::MAX,
        tokens_ok(s@, tokens_view(ts@)),
        match args {
            Some(v) => spans_ok(s@, spans_view(v@)),
            None => true,
        },
    ensures
        outcome_of(
            r,
            |x: (Gate, Vec<Target>, Vec<Arg>)|
                InstructionView {
                    gate: x.0,
                    targets: targets_view(x.1@),
                    args: args_view(x.2@),
                    block: None,
                },
        ) == read_instruction(
            s@,
            a as int,
            b as int,
            match args {
                Some(v) => Some(spans_view(v@)),
                None => None,
            },
            tokens_view(ts@),
        ),
{
    let mut name_chars: Vec<char> = Vec::new();
    push_ascii(&mut name_chars, s, a, b);
    let name = chars_to_string(&name_chars);
    let g = Gate::from(name.as_str());
    if g == Gate::NOT_A_GATE {
        let mut m: Vec<char> = Vec::new();
        push_str(&mut m, "Unknown gate: ");
        push_ascii(&mut m, s, a, b);
        let line = line_number_exec(s, a);
        assert(m@ =~= unknown_gate_message(ascii_text(s@, a as int, b as int)));
        return Some(Err(ParseError { line, message: chars_to_string(&m) }));
    }
    let av = match args {
        Some(spans) => match read_args_exec(s, g, spans) {
            Some(Ok(v)) => v,
            Some(Err(e)) => {
                return Some(Err(e));
            },
            None => {
                return None;
            },
        },
        None => {
            let v: Vec<Arg> = Vec::new();
            assert(args_view(v@) =~= Seq::<ArgView>::empty());
            v
        },
    };
    match read_targets_exec(s, g, ts) {
        Some(Ok(tv)) => Some(Ok((g, tv, av))),
        Some(Err(e)) => Some(Err(e)),
        None => None,
    }
}

proof fn lemma_prepend_assoc(
    acc: Seq<InstructionView>,
    x: Seq<InstructionView>,
    o: Outcome<(Seq<InstructionView>, int)>,
)
    ensures
        prepend(acc, prepend(x, o)) == prepend(acc + x, o),
{
    if let Outcome::Done((rest, p)) = o {
        assert(acc + (x + rest) =~= (acc + x) + rest);
    }
}

fn read_lines_exec(s: &[u8], i: usize, nested: bool) -> (r: Option<
    Result<(Circuit, usize), ParseError>,
>)
    requires
        i <= s@.len(),
        s@.len() < usize::MAX,
    ensures
        outcome_of(r, |x: (Circuit, usize)| (x.0@, x.1 as int)) == read_lines(s@, i as int, nested),
        r matches Some(Ok((_, p))) ==> p <= s@.len(),
    decreases s@.len() - i,
{
    let mut acc = Circuit::new();
    let mut p = i;
    proof {
        assert forall|o: Outcome<(Seq<InstructionView>, int)>| prepend(acc@, o) == o by {
            if let Outcome::Done((rest, q)) = o {
                assert(acc@ + rest =~= rest);
            }
        }
    }
    loop
        invariant
            i <= p <= s@.len(),
            s@.len() < usize::MAX,
            read_lines(s@, i as int, nested) == prepend(acc@, read_lines(s@, p as int, nested)),
        decreases s@.len() - p,
    {
        if p >= s.len() {
            if nested {
                return Some(Err(syntax_error_exec(line_number_exec(s, s.len()))));
            } else {
                assert(acc@ + Seq::<InstructionView>::empty() =~= acc@);
                return Some(Ok((acc, s.len())));
            }
        }
        match line_head_exec(s, p) {
            LineHeadExec::Close => {
                if nested {
                    assert(acc@ + Seq::<InstructionView>::empty() =~= acc@);
                    return Some(Ok((acc, p)));
                } else {
                    return Some(Err(syntax_error_exec(line_number_exec(s, p))));
                }
            },
            LineHeadExec::Empty(e) => {
                if p < e && e <= s.len() {
                    p = e;
                } else {
                    return Some(Err(syntax_error_exec(line_number_exec(s, p))));
                }
            },
            LineHeadExec::Instruction(a, b, args, ts, e) => {
                if !(p < e && e <= s.len()) {
                    return Some(Err(syntax_error_exec(line_number_exec(s, p))));
                }
                match read_instruction_exec(s, a, b, &args, &ts) {
                    Some(Ok((g, tv, av))) => {
                        let ghost ins = InstructionView {
                            gate: g,
                            targets: targets_view(tv@),
                            args: args_view(av@),
                            block: None,
                        };
                        proof {
                            lemma_prepend_assoc(acc@, seq![ins], read_lines(s@, e as int, nested));
                            assert(acc@ + seq![ins] =~= acc@.push(ins));
                        }
                        acc.append(g, tv, av);
                        p = e;
                    },
                    Some(Err(x)) => {
                        return Some(Err(x));
                    },
                    None => {
                        return None;
                    },
                }
            },
            LineHeadExec::Block(a, b, body) => {
                if !(p < body && body <= s.len()) {
                    return Some(Err(syntax_error_exec(line_number_exec(s, p))));
                }
                let count = match number_at_exec(s, a, b) {
                    Some(v) => v,
                    None => {
                        return None;
                    },
                };
                match read_lines_exec(s, body, true) {
                    Some(Ok((inner, q))) => {
                        match close_end_exec(s, q) {
                            Some(e) => {
                                if !(p < e && e <= s.len()) {
                                    return Some(Err(syntax_error_exec(line_number_exec(s, q))));
                                }
                                let ghost ins = repeat_view(count, inner@);
                                proof {
                                    lemma_prepend_assoc(
                                        acc@,
                                        seq![ins],
                                        read_lines(s@, e as int, nested),
                                    );
                                    assert(acc@ + seq![ins] =~= acc@.push(ins));
                                }
                                acc.append_repeat(count, inner);
                                p = e;
                            },
                            None => {
                                return Some(Err(syntax_error_exec(line_number_exec(s, q))));
                            },
                        }
                    },
                    Some(Err(x)) => {
                        return Some(Err(x));
                    },
                    None => {
                        return None;
                    },
                }
            },
            LineHeadExec::Bad => {
                return Some(Err(syntax_error_exec(line_number_exec(s, p))));
            },
        }
    }
}

/// The `.stim` grammar: checks a text against it without reading gates or numbers.
pub struct StimParser;

impl StimParser {
    /// Checks `input` against the grammar: `Ok` when it is well formed, else the syntax
    /// error on the line where checking stopped.
    pub fn check(input: &[u8]) -> (r: Result<(), ParseError>)
        requires
            input@.len() < usize::MAX,
        ensures
            match check_lines(input@, 0, false) {
                Syntax::Valid(_) => r is Ok,
                Syntax::Invalid(l) => r matches Err(e) && e@ == syntax_error(l),
            },
    {
        match check_lines_exec(input, 0, false) {
            Ok(_) => Ok(()),
            Err(l) => Err(syntax_error_exec(l)),
        }
    }
}

/// Reads a `.stim` text given as bytes. Gives `None` when a number that must be a `usize`
/// (a qubit, a record lookback, a repeat count or an index argument) is too large for one;
/// otherwise the circuit, or the first error (syntax errors anywhere come first).
pub fn parse_bytes(input: &[u8]) -> (r: Option<Result<Circuit, ParseError>>)
    requires
        input@.len() < usize::MAX,
    ensures
        outcome_of(r, |c: Circuit| c@) == spec_parse(input@),
{
    match StimParser::check(input) {
        Err(e) => Some(Err(e)),
        Ok(()) => match read_lines_exec(input, 0, false) {
            Some(Ok((c, _))) => Some(Ok(c)),
            Some(Err(e)) => Some(Err(e)),
            None => None,
        },
    }
}

/// Reads a circuit from `.stim` text.
pub fn parse_string(input: &str) -> (r: Result<Circuit, ParseError>)
    requires
        input.spec_bytes().len() < usize::MAX,
        !(spec_parse(input.spec_bytes()) is Overflow),
    ensures
        outcome_of(Some(r), |c: Circuit| c@) == spec_parse(input.spec_bytes()),
{
    match parse_bytes(input.as_bytes()) {
        Some(r) => r,
        None => Err(syntax_error_exec(0)),
    }
}

/// What reading a single target from the start of a text gives: a syntax error on line 1
/// when no target is written there, and otherwise the error that no target suits the
/// gate `NOT_A_GATE`.
pub open spec fn spec_parse_target(s: Seq<u8>) -> ParseErrorView {
    match target_at(s, 0) {
        Some((e, _)) => ParseErrorView {
            line: 1,
            message: invalid_target_message(Gate::NOT_A_GATE, ascii_text(s, 0, e)),
        },
        None => syntax_error(1),
    }
}

/// Reads one target written at the start of `input`, as a target of no particular gate;
/// since the placeholder gate `NOT_A_GATE` takes no targets, this always gives an error.
pub fn parse_target(input: &str) -> (r: Result<Target, ParseError>)
    ensures
        r matches Err(e) && e@ == spec_parse_target(input.spec_bytes()),
{
    let s = input.as_bytes();
    match target_at_exec(s, 0) {
        Some((e, _)) => {
            let mut m: Vec<char> = Vec::new();
            push_str(&mut m, "Invalid target for gate ");
            push_str(&mut m, Gate::NOT_A_GATE.name());
            push_str(&mut m, ": ");
            push_ascii(&mut m, s, 0, e);
            assert(m@ =~= invalid_target_message(Gate::NOT_A_GATE, ascii_text(s@, 0, e as int)));
            Err(ParseError { line: 1, message: chars_to_string(&m) })
        },
        None => Err(syntax_error_exec(1)),
    }
}

} // verus!
