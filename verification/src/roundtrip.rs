//! Printing then reading: the `.stim` text that `Circuit::to_string` prints for a circuit
//! whose instructions all suit their gates reads back as the same circuit; every circuit
//! that reading gives is such a circuit.
//!
//! The proof follows the reader over the printed text: names, argument literals and
//! targets are found where the printer put them, indentation is skipped, and each
//! `REPEAT` block's lines end at its `}` line.
use vstd::prelude::*;
use crate::circuit::{
    ArgView, InstructionView, TargetView, arg_text, args_text, block_text, circuit_text,
    instruction_text, inversion_mark, operands_text, pauli_factor_text, pauli_product_text,
    repeat_view, target_text, targets_text,
};
use crate::gate::{
    ArgType, Gate, Pauli, is_name_char, lemma_name_injective, lemma_name_roundtrip,
    lemma_name_shape, spec_accepts_arg_count, spec_accepts_measurement_record,
    spec_accepts_pauli_str, spec_accepts_qubit, spec_accepts_target_count, spec_arg_type,
    spec_gate_named, spec_name, spec_pauli_letter,
};
use crate::stim_parser::{
    ByteClass, LineHead, Outcome, Syntax, TargetShape, TargetToken, arg_list, ascii_text,
    block_header, check_lines, close_end, digits_value, in_class, is_letter, is_pauli_letter,
    is_repeat_word, line_head, number_at, number_end, pauli_factors, pauli_of, pauli_values,
    read_arg, read_arg_list, read_args, read_instruction, read_lines, read_target,
    read_target_list, read_targets, skip, spec_parse, starts_with_rec, target_at, target_list,
};
use crate::text::{decimal_chars, digit_char, indented, lines_of, next_newline};
use vstd::utf8::{encode_utf8, is_ascii_chars, is_ascii_chars_encode_utf8};

verus! {

/// The bytes of a text whose characters are all ASCII.
pub open spec fn ascii_bytes(t: Seq<char>) -> Seq<u8> {
    t.map_values(|c: char| c as u8)
}

/// Whether the bytes of `s` from `p` on spell out the ASCII text `t`.
pub open spec fn spells(s: Seq<u8>, p: int, t: Seq<char>) -> bool {
    &&& 0 <= p
    &&& p + t.len() <= s.len()
    &&& forall|k: int| 0 <= k < t.len() ==> s[p + k] == #[trigger] t[k] as u8
}

proof fn lemma_spells_concat(s: Seq<u8>, p: int, a: Seq<char>, b: Seq<char>)
    ensures
        spells(s, p, a + b) <==> spells(s, p, a) && spells(s, p + a.len(), b),
{
    if spells(s, p, a + b) {
        assert forall|k: int| 0 <= k < a.len() implies s[p + k] == #[trigger] a[k] as u8 by {
            assert((a + b)[k] == a[k]);
        }
        assert forall|k: int| 0 <= k < b.len() implies s[p + a.len() + k] == #[trigger] b[k] as u8 by {
            assert((a + b)[a.len() + k] == b[k]);
        }
    }
    if spells(s, p, a) && spells(s, p + a.len(), b) {
        assert forall|k: int| 0 <= k < (a + b).len() implies s[p + k] == #[trigger] (a + b)[k] as u8 by {
            if k < a.len() {
                assert((a + b)[k] == a[k]);
            } else {
                assert((a + b)[k] == b[k - a.len()]);
                assert(s[p + a.len() + (k - a.len())] == b[k - a.len()] as u8);
            }
        }
    }
}

proof fn lemma_skip_run(s: Seq<u8>, a: int, b: int, c: ByteClass)
    requires
        0 <= a <= b <= s.len(),
        forall|k: int| a <= k < b ==> in_class(c, #[trigger] s[k]),
        b == s.len() || !in_class(c, s[b]),
    ensures
        skip(s, a, c) == b,
    decreases b - a,
{
    if a < b {
        lemma_skip_run(s, a + 1, b, c);
    }
}

/// Whether every character of `t` is a decimal digit.
pub open spec fn all_digit_chars(t: Seq<char>) -> bool {
    forall|k: int| 0 <= k < t.len() ==> '0' <= #[trigger] t[k] <= '9'
}

/// A decimal numeral is a non-empty run of digits whose value is the number.
pub proof fn lemma_decimal_chars(n: nat)
    ensures
        decimal_chars(n).len() > 0,
        all_digit_chars(decimal_chars(n)),
        digits_value(ascii_bytes(decimal_chars(n))) == n,
    decreases n,
{
    if n >= 10 {
        lemma_decimal_chars(n / 10);
        let d = decimal_chars(n / 10);
        let c = digit_char(n % 10);
        assert(decimal_chars(n) == d.push(c));
        assert(ascii_bytes(d.push(c)) =~= ascii_bytes(d).push(c as u8));
        assert(ascii_bytes(d.push(c)).drop_last() =~= ascii_bytes(d));
        assert(c as u8 == (n % 10) + 48);
        let x = ascii_bytes(decimal_chars(n));
        assert(x.last() == c as u8);
        assert(digits_value(x) == digits_value(x.drop_last()) * 10 + (x.last() - 48) as nat);
        assert(n == (n / 10) * 10 + n % 10);
    } else {
        let c = digit_char(n);
        assert(decimal_chars(n) == seq![c]);
        assert(ascii_bytes(seq![c]) =~= seq![c as u8]);
        assert(seq![c as u8].drop_last() =~= Seq::<u8>::empty());
        let x = ascii_bytes(decimal_chars(n));
        assert(x.last() == c as u8);
        assert(c as u8 == n + 48);
        assert(digits_value(x) == digits_value(x.drop_last()) * 10 + (x.last() - 48) as nat);
        assert(digits_value(x.drop_last()) == 0);
    }
}

proof fn lemma_skip_digits_shift(s: Seq<u8>, a: int, t: Seq<char>, x: int)
    requires
        spells(s, a, t),
        0 <= x <= t.len(),
        a + t.len() == s.len() || !in_class(ByteClass::Digit, s[a + t.len()]),
    ensures
        skip(s, a + x, ByteClass::Digit) == a + skip(ascii_bytes(t), x, ByteClass::Digit),
    decreases t.len() - x,
{
    let u = ascii_bytes(t);
    if x < t.len() {
        assert(u[x] == t[x] as u8);
        assert(s[a + x] == t[x] as u8);
        if in_class(ByteClass::Digit, u[x]) {
            lemma_skip_digits_shift(s, a, t, x + 1);
        }
    }
}

/// A decimal literal the reader reads whole: ASCII, not empty, and nothing of it left over.
pub open spec fn is_decimal_literal(t: Seq<char>) -> bool {
    &&& t.len() > 0
    &&& is_ascii_chars(t)
    &&& number_end(ascii_bytes(t), 0) == t.len()
}

proof fn lemma_number_end_spelled(s: Seq<u8>, a: int, t: Seq<char>)
    requires
        spells(s, a, t),
        is_decimal_literal(t),
        a + t.len() < s.len(),
        s[a + t.len()] == 44 || s[a + t.len()] == 41,
    ensures
        number_end(s, a) == a + t.len(),
{
    let u = ascii_bytes(t);
    let l = t.len() as int;
    assert(u.len() == l);
    assert(u[0] == s[a]) by {
        assert(s[a + 0] == t[0] as u8);
    }
    let a1 = if u[0] == 45 {
        1int
    } else {
        0int
    };
    lemma_skip_digits_shift(s, a, t, a1);
    let b = skip(u, a1, ByteClass::Digit);
    crate::stim_parser::lemma_skip(u, a1, ByteClass::Digit);
    if b != a1 {
        if b < l {
            assert(s[a + b] == u[b]) by {
                assert(s[a + b] == t[b] as u8);
            }
        }
        let c = if b < l && u[b] == 46 {
            lemma_skip_digits_shift(s, a, t, b + 1);
            crate::stim_parser::lemma_skip(u, b + 1, ByteClass::Digit);
            skip(u, b + 1, ByteClass::Digit)
        } else {
            b
        };
        if c < l {
            assert(s[a + c] == u[c]) by {
                assert(s[a + c] == t[c] as u8);
            }
            if c + 1 < l {
                assert(s[a + c + 1] == u[c + 1]) by {
                    assert(s[a + (c + 1)] == t[c + 1] as u8);
                }
            }
            if u[c] == 101 || u[c] == 69 {
                let d = if c + 1 < l && (u[c + 1] == 43 || u[c + 1] == 45) {
                    c + 2
                } else {
                    c + 1
                };
                if d <= l {
                    lemma_skip_digits_shift(s, a, t, d);
                }
            }
        }
    }
}

proof fn lemma_ascii_text_spelled(s: Seq<u8>, p: int, t: Seq<char>)
    requires
        spells(s, p, t),
        is_ascii_chars(t),
    ensures
        ascii_text(s, p, p + t.len()) == t,
{
    assert forall|k: int| 0 <= k < t.len() implies #[trigger] ascii_text(s, p, p + t.len())[k]
        == t[k] by {
        let sub = s.subrange(p, p + t.len());
        assert(sub[k] == s[p + k]);
        assert(s[p + k] == t[k] as u8);
        assert('\0' <= t[k] <= '\u{7f}');
        assert(ascii_text(s, p, p + t.len())[k] == (sub[k] as char));
    }
    assert(ascii_text(s, p, p + t.len()) =~= t);
}

proof fn lemma_subrange_spelled(s: Seq<u8>, p: int, t: Seq<char>)
    requires
        spells(s, p, t),
    ensures
        s.subrange(p, p + t.len()) == ascii_bytes(t),
{
    assert forall|k: int| 0 <= k < t.len() implies #[trigger] s.subrange(p, p + t.len())[k]
        == ascii_bytes(t)[k] by {
        assert(s[p + k] == t[k] as u8);
    }
    assert(s.subrange(p, p + t.len()) =~= ascii_bytes(t));
}

/// A decimal numeral is ASCII and reads whole as a literal.
pub proof fn lemma_decimal_is_literal(n: nat)
    ensures
        is_decimal_literal(decimal_chars(n)),
        is_ascii_chars(decimal_chars(n)),
{
    lemma_decimal_chars(n);
    let t = decimal_chars(n);
    let u = ascii_bytes(t);
    assert forall|k: int| 0 <= k < u.len() implies in_class(ByteClass::Digit, #[trigger] u[k]) by {
        assert('0' <= t[k] <= '9');
    }
    lemma_skip_run(u, 0, u.len() as int, ByteClass::Digit);
    assert(u[0] != 45) by {
        assert('0' <= t[0] <= '9');
    }
    assert forall|k: int| 0 <= k < t.len() implies '\0' <= #[trigger] t[k] <= '\u{7f}' by {
        assert('0' <= t[k] <= '9');
    }
}

/// Whether argument `a` is one that gate `g` reads back as itself.
pub open spec fn arg_fits(g: Gate, a: ArgView) -> bool {
    match a {
        ArgView::Probability(t) => (spec_arg_type(g) is Probability || spec_arg_type(g)
            == ArgType::ProbabilityOpt) && is_decimal_literal(t),
        ArgView::Coord(t) => spec_arg_type(g) == ArgType::Coords && is_decimal_literal(t),
        ArgView::Index(_) => spec_arg_type(g) == ArgType::Index,
    }
}

proof fn lemma_args_text_front(args: Seq<ArgView>)
    requires
        args.len() > 0,
    ensures
        args_text(args) == arg_text(args[0]) + if args.len() > 1 {
            seq![',', ' '] + args_text(args.drop_first())
        } else {
            Seq::<char>::empty()
        },
    decreases args.len(),
{
    if args.len() == 1 {
        assert(arg_text(args[0]) + Seq::<char>::empty() =~= arg_text(args[0]));
    } else if args.len() == 2 {
        let r = args.drop_first();
        assert(r.len() == 1);
        assert(args.drop_last().len() == 1);
        assert(args.drop_last()[0] == args[0]);
        assert(r[0] == args.last());
        assert(args_text(r) == arg_text(r[0]));
        assert(args_text(args.drop_last()) == arg_text(args[0]));
        assert(args_text(args) =~= arg_text(args[0]) + (seq![',', ' '] + args_text(r)));
    } else {
        lemma_args_text_front(args.drop_last());
        let r = args.drop_first();
        assert(args.drop_last().drop_first() =~= r.drop_last());
        assert(args.drop_last()[0] == args[0]);
        assert(r.last() == args.last());
        assert(args_text(args) =~= arg_text(args[0]) + (seq![',', ' '] + args_text(r)));
    }
}

proof fn lemma_read_arg_spelled(s: Seq<u8>, g: Gate, j: int, a: ArgView)
    requires
        arg_fits(g, a),
        spells(s, j, arg_text(a)),
        j + arg_text(a).len() < s.len(),
        s[j + arg_text(a).len()] == 44 || s[j + arg_text(a).len()] == 41,
    ensures
        number_end(s, j) == j + arg_text(a).len(),
        read_arg(s, g, (j, j + arg_text(a).len())) == Outcome::Done(Some(a)),
{
    let t = arg_text(a);
    let e = j + t.len();
    match a {
        ArgView::Index(n) => {
            lemma_decimal_is_literal(n as nat);
            lemma_decimal_chars(n as nat);
            lemma_number_end_spelled(s, j, t);
            lemma_ascii_text_spelled(s, j, t);
            assert forall|k: int| j <= k < e implies in_class(ByteClass::Digit, #[trigger] s[k]) by {
                assert(s[j + (k - j)] == t[k - j] as u8);
                assert('0' <= t[k - j] <= '9');
            }
            lemma_skip_run(s, j, e, ByteClass::Digit);
            lemma_subrange_spelled(s, j, t);
        },
        ArgView::Probability(x) => {
            lemma_number_end_spelled(s, j, t);
            lemma_ascii_text_spelled(s, j, t);
        },
        ArgView::Coord(x) => {
            lemma_number_end_spelled(s, j, t);
            lemma_ascii_text_spelled(s, j, t);
        },
    }
}


/// A decimal literal starts with `-` or a digit.
proof fn lemma_literal_start(t: Seq<char>)
    requires
        is_decimal_literal(t),
    ensures
        t[0] == '-' || ('0' <= t[0] <= '9'),
{
    let u = ascii_bytes(t);
    assert(u[0] == t[0] as u8);
    assert('\0' <= t[0] <= '\u{7f}');
    if u[0] != 45 {
        assert(skip(u, 0, ByteClass::Digit) != 0);
        assert(in_class(ByteClass::Digit, u[0]));
    }
}

/// The text of an argument that fits its gate is a decimal literal.
proof fn lemma_arg_literal(g: Gate, a: ArgView)
    requires
        arg_fits(g, a),
    ensures
        is_decimal_literal(arg_text(a)),
{
    if let ArgView::Index(n) = a {
        lemma_decimal_is_literal(n as nat);
    }
}

/// The spans of the literals of `args` when their text starts at `j`.
pub open spec fn arg_spans(args: Seq<ArgView>, j: int) -> Seq<(int, int)>
    decreases args.len(),
{
    if args.len() == 0 {
        seq![]
    } else {
        let e = j + arg_text(args[0]).len();
        seq![(j, e)] + arg_spans(args.drop_first(), e + 2)
    }
}

proof fn lemma_arg_list_spelled(
    s: Seq<u8>,
    g: Gate,
    i: int,
    j: int,
    acc: Seq<(int, int)>,
    args: Seq<ArgView>,
)
    requires
        args.len() > 0,
        forall|k: int| 0 <= k < args.len() ==> arg_fits(g, #[trigger] args[k]),
        0 <= i <= j,
        forall|m: int| i <= m < j ==> #[trigger] s[m] == 32,
        spells(s, j, args_text(args) + seq![')']),
    ensures
        arg_list(s, i, acc) == Some((j + args_text(args).len() + 1, acc + arg_spans(args, j))),
        arg_spans(args, j).len() == args.len(),
        forall|k: int|
            0 <= k < args.len() ==> read_arg(s, g, #[trigger] arg_spans(args, j)[k])
                == Outcome::Done(Some(args[k])),
    decreases args.len(),
{
    let t0 = arg_text(args[0]);
    let e = j + t0.len();
    assert(arg_fits(g, args[0]));
    lemma_arg_literal(g, args[0]);
    lemma_literal_start(t0);
    lemma_args_text_front(args);
    let rest = args.drop_first();
    let tail = if args.len() > 1 {
        seq![',', ' '] + (args_text(rest) + seq![')'])
    } else {
        seq![')']
    };
    assert(args_text(args) + seq![')'] =~= t0 + tail);
    lemma_spells_concat(s, j, t0, tail);
    assert(s[e] == tail[0] as u8);
    assert(s[j] == t0[0] as u8) by {
        assert(s[j + 0] == t0[0] as u8);
    }
    lemma_skip_run(s, i, j, ByteClass::Space);
    lemma_read_arg_spelled(s, g, j, args[0]);
    lemma_skip_run(s, e, e, ByteClass::Space);
    if args.len() == 1 {
        assert(rest.len() == 0);
        assert(arg_spans(rest, e + 2) =~= Seq::<(int, int)>::empty());
        assert(arg_spans(args, j) =~= seq![(j, e)]);
        assert(acc + arg_spans(args, j) =~= acc.push((j, e)));
    } else {
        assert(s[e + 1] == tail[1] as u8);
        lemma_spells_concat(s, e, seq![',', ' '], args_text(rest) + seq![')']);
        assert forall|k: int| 0 <= k < rest.len() implies arg_fits(g, #[trigger] rest[k]) by {
            assert(rest[k] == args[k + 1]);
        }
        lemma_arg_list_spelled(s, g, e + 1, e + 2, acc.push((j, e)), rest);
        assert(acc.push((j, e)) + arg_spans(rest, e + 2) =~= acc + arg_spans(args, j));
        assert forall|k: int| 0 <= k < args.len() implies read_arg(
            s,
            g,
            #[trigger] arg_spans(args, j)[k],
        ) == Outcome::Done(Some(args[k])) by {
            if k > 0 {
                assert(arg_spans(args, j)[k] == arg_spans(rest, e + 2)[k - 1]);
                assert(args[k] == rest[k - 1]);
            }
        }
    }
}

proof fn lemma_read_arg_list_each(s: Seq<u8>, g: Gate, spans: Seq<(int, int)>, args: Seq<ArgView>)
    requires
        spans.len() == args.len(),
        forall|k: int|
            0 <= k < spans.len() ==> read_arg(s, g, #[trigger] spans[k]) == Outcome::Done(
                Some(args[k]),
            ),
    ensures
        read_arg_list(s, g, spans) == Outcome::Done(args),
    decreases spans.len(),
{
    if spans.len() > 0 {
        let n = spans.len() - 1;
        assert forall|k: int| 0 <= k < n implies read_arg(s, g, #[trigger] spans.drop_last()[k])
            == Outcome::Done(Some(args.drop_last()[k])) by {
            assert(spans.drop_last()[k] == spans[k]);
        }
        lemma_read_arg_list_each(s, g, spans.drop_last(), args.drop_last());
        assert(read_arg(s, g, spans[n]) == Outcome::Done(Some(args[n])));
        assert(args.drop_last().push(args[n]) =~= args);
    } else {
        assert(args =~= Seq::<ArgView>::empty());
    }
}


/// The decimal numeral of `n` written at `a` and not followed by a digit is read whole
/// and gives back `n`.
proof fn lemma_decimal_spelled(s: Seq<u8>, a: int, n: usize)
    requires
        spells(s, a, decimal_chars(n as nat)),
        a + decimal_chars(n as nat).len() == s.len() || !in_class(
            ByteClass::Digit,
            s[a + decimal_chars(n as nat).len()],
        ),
    ensures
        decimal_chars(n as nat).len() > 0,
        in_class(ByteClass::Digit, s[a]),
        skip(s, a, ByteClass::Digit) == a + decimal_chars(n as nat).len(),
        number_at(s, a, a + decimal_chars(n as nat).len()) == Some(n),
{
    let t = decimal_chars(n as nat);
    lemma_decimal_chars(n as nat);
    assert forall|k: int| a <= k < a + t.len() implies in_class(ByteClass::Digit, #[trigger] s[k]) by {
        assert(s[a + (k - a)] == t[k - a] as u8);
        assert('0' <= t[k - a] <= '9');
    }
    assert(in_class(ByteClass::Digit, s[a]));
    lemma_skip_run(s, a, a + t.len(), ByteClass::Digit);
    lemma_subrange_spelled(s, a, t);
}

/// Whether target `t` is one that gate `g` reads back as itself.
pub open spec fn target_fits(g: Gate, t: TargetView) -> bool {
    match t {
        TargetView::Qubit(_, _) => spec_accepts_qubit(g),
        TargetView::MeasurementRecord(_) => spec_accepts_measurement_record(g),
        TargetView::PauliString(ps, _) => spec_accepts_pauli_str(g) && ps.len() > 0 && forall|
            k: int,
        |
            0 <= k < ps.len() ==> (#[trigger] ps[k]).0 != Pauli::I,
        TargetView::Bool(_) => false,
    }
}

proof fn lemma_pauli_product_front(ps: Seq<(Pauli, usize)>)
    requires
        ps.len() > 1,
    ensures
        pauli_product_text(ps) == pauli_factor_text(ps[0]) + seq!['*'] + pauli_product_text(
            ps.drop_first(),
        ),
    decreases ps.len(),
{
    let r = ps.drop_first();
    let dl = ps.drop_last();
    if ps.len() == 2 {
        assert(dl.len() == 1 && dl[0] == ps[0]);
        assert(r.len() == 1 && r[0] == ps.last());
        assert(pauli_product_text(dl) == pauli_factor_text(ps[0]));
        assert(pauli_product_text(r) == pauli_factor_text(ps.last()));
    } else {
        lemma_pauli_product_front(dl);
        assert(dl.drop_first() =~= r.drop_last());
        assert(dl[0] == ps[0]);
        assert(r.last() == ps.last());
    }
    assert(pauli_product_text(ps) =~= pauli_factor_text(ps[0]) + seq!['*'] + pauli_product_text(r));
}

/// The letters and digit spans of the factors of a Pauli product written at `p`.
pub open spec fn factor_spans(ps: Seq<(Pauli, usize)>, p: int) -> Seq<(u8, int, int)>
    decreases ps.len(),
{
    if ps.len() == 0 {
        seq![]
    } else {
        let d = p + 1 + decimal_chars(ps[0].1 as nat).len();
        seq![(spec_pauli_letter(ps[0].0) as u8, p + 1, d)] + factor_spans(ps.drop_first(), d + 1)
    }
}

proof fn lemma_pauli_factors_spelled(
    s: Seq<u8>,
    p: int,
    acc: Seq<(u8, int, int)>,
    ps: Seq<(Pauli, usize)>,
)
    requires
        ps.len() > 0,
        forall|k: int| 0 <= k < ps.len() ==> (#[trigger] ps[k]).0 != Pauli::I,
        spells(s, p, pauli_product_text(ps)),
        p + pauli_product_text(ps).len() < s.len(),
        s[p + pauli_product_text(ps).len()] == 32 || s[p + pauli_product_text(ps).len()] == 10,
    ensures
        pauli_factors(s, p, acc) == Some(
            (p + pauli_product_text(ps).len(), acc + factor_spans(ps, p)),
        ),
        is_pauli_letter(s[p]),
        factor_spans(ps, p).len() == ps.len(),
        forall|k: int|
            0 <= k < ps.len() ==> pauli_of((#[trigger] factor_spans(ps, p)[k]).0) == ps[k].0
                && number_at(s, factor_spans(ps, p)[k].1, factor_spans(ps, p)[k].2) == Some(
                ps[k].1,
            ),
    decreases ps.len(),
{
    let f0 = pauli_factor_text(ps[0]);
    let dec = decimal_chars(ps[0].1 as nat);
    let letter = spec_pauli_letter(ps[0].0);
    let d = p + 1 + dec.len();
    let rest = ps.drop_first();
    let tail = if ps.len() > 1 {
        seq!['*'] + pauli_product_text(rest)
    } else {
        Seq::<char>::empty()
    };
    if ps.len() > 1 {
        lemma_pauli_product_front(ps);
    }
    assert(pauli_product_text(ps) =~= seq![letter] + dec + tail);
    lemma_spells_concat(s, p, seq![letter] + dec, tail);
    lemma_spells_concat(s, p, seq![letter], dec);
    assert(s[p] == letter as u8) by {
        assert(s[p + 0] == seq![letter][0] as u8);
    }
    assert(ps[0].0 != Pauli::I);
    assert(d < s.len());
    if ps.len() > 1 {
        assert(s[d] == tail[0] as u8);
        assert(s[d] == 42);
    } else {
        assert(d == p + pauli_product_text(ps).len());
    }
    lemma_decimal_spelled(s, p + 1, ps[0].1);
    assert(pauli_of(letter as u8) == ps[0].0);
    if ps.len() == 1 {
        assert(factor_spans(ps, p) =~= seq![(letter as u8, p + 1, d)]);
        assert(acc + factor_spans(ps, p) =~= acc.push((s[p], p + 1, d)));
    } else {
        lemma_spells_concat(s, d, seq!['*'], pauli_product_text(rest));
        assert forall|k: int| 0 <= k < rest.len() implies (#[trigger] rest[k]).0 != Pauli::I by {
            assert(rest[k] == ps[k + 1]);
        }
        lemma_pauli_factors_spelled(s, d + 1, acc.push((s[p], p + 1, d)), rest);
        assert(acc.push((s[p], p + 1, d)) + factor_spans(rest, d + 1) =~= acc + factor_spans(
            ps,
            p,
        ));
        assert forall|k: int| 0 <= k < ps.len() implies pauli_of(
            (#[trigger] factor_spans(ps, p)[k]).0,
        ) == ps[k].0 && number_at(s, factor_spans(ps, p)[k].1, factor_spans(ps, p)[k].2) == Some(
            ps[k].1,
        ) by {
            if k > 0 {
                assert(factor_spans(ps, p)[k] == factor_spans(rest, d + 1)[k - 1]);
                assert(ps[k] == rest[k - 1]);
            }
        }
    }
}

proof fn lemma_pauli_values_each(s: Seq<u8>, fs: Seq<(u8, int, int)>, ps: Seq<(Pauli, usize)>)
    requires
        fs.len() == ps.len(),
        forall|k: int|
            0 <= k < fs.len() ==> pauli_of((#[trigger] fs[k]).0) == ps[k].0 && number_at(
                s,
                fs[k].1,
                fs[k].2,
            ) == Some(ps[k].1),
    ensures
        pauli_values(s, fs) == Some(ps),
    decreases fs.len(),
{
    if fs.len() > 0 {
        let n = fs.len() - 1;
        assert forall|k: int| 0 <= k < n implies pauli_of((#[trigger] fs.drop_last()[k]).0)
            == ps.drop_last()[k].0 && number_at(s, fs.drop_last()[k].1, fs.drop_last()[k].2)
            == Some(ps.drop_last()[k].1) by {
            assert(fs.drop_last()[k] == fs[k]);
        }
        lemma_pauli_values_each(s, fs.drop_last(), ps.drop_last());
        assert(pauli_of(fs[n].0) == ps[n].0);
        assert(ps.drop_last().push((pauli_of(fs.last().0), ps[n].1)) =~= ps);
    } else {
        assert(ps =~= Seq::<(Pauli, usize)>::empty());
    }
}


/// The shape the reader finds for target `t` written at `q`.
pub open spec fn target_shape(t: TargetView, q: int) -> TargetShape {
    match t {
        TargetView::Qubit(k, inv) => {
            let a = q + inversion_mark(inv).len();
            TargetShape::Qubit(inv, a, a + decimal_chars(k as nat).len())
        },
        TargetView::MeasurementRecord(k) => TargetShape::Record(
            q + 5,
            q + 5 + decimal_chars(k as nat).len(),
        ),
        TargetView::PauliString(ps, inv) => TargetShape::Paulis(
            inv,
            factor_spans(ps, q + inversion_mark(inv).len()),
        ),
        TargetView::Bool(_) => TargetShape::Qubit(false, q, q),
    }
}

proof fn lemma_target_at_spelled(s: Seq<u8>, g: Gate, q: int, t: TargetView)
    requires
        target_fits(g, t),
        spells(s, q, target_text(t)),
        q + target_text(t).len() < s.len(),
        s[q + target_text(t).len()] == 32 || s[q + target_text(t).len()] == 10,
    ensures
        target_text(t).len() > 0,
        s[q] == 33 || s[q] == 114 || is_pauli_letter(s[q]) || in_class(ByteClass::Digit, s[q]),
        target_at(s, q) == Some((q + target_text(t).len(), target_shape(t, q))),
        read_target(
            s,
            g,
            TargetToken { start: q, end: q + target_text(t).len(), shape: target_shape(t, q) },
        ) == Outcome::Done(t),
{
    let e = q + target_text(t).len();
    match t {
        TargetView::Qubit(k, inv) => {
            let m = inversion_mark(inv);
            let dec = decimal_chars(k as nat);
            lemma_spells_concat(s, q, m, dec);
            lemma_decimal_spelled(s, q + m.len(), k);
            if inv {
                assert(s[q + 0] == m[0] as u8);
            }
            assert(!starts_with_rec(s, q));
        },
        TargetView::MeasurementRecord(k) => {
            reveal_strlit("rec[-");
            let dec = decimal_chars(k as nat);
            lemma_spells_concat(s, q, "rec[-"@ + dec, seq![']']);
            lemma_spells_concat(s, q, "rec[-"@, dec);
            assert(s[q + 0] == "rec[-"@[0] as u8);
            assert(s[q + 1] == "rec[-"@[1] as u8);
            assert(s[q + 2] == "rec[-"@[2] as u8);
            assert(s[q + 3] == "rec[-"@[3] as u8);
            assert(s[q + 4] == "rec[-"@[4] as u8);
            assert(starts_with_rec(s, q));
            assert(s[q + 5 + dec.len() + 0] == seq![']'][0] as u8);
            lemma_decimal_spelled(s, q + 5, k);
        },
        TargetView::PauliString(ps, inv) => {
            let m = inversion_mark(inv);
            lemma_spells_concat(s, q, m, pauli_product_text(ps));
            lemma_pauli_factors_spelled(s, q + m.len(), seq![], ps);
            if inv {
                assert(s[q + 0] == m[0] as u8);
            }
            assert(!starts_with_rec(s, q));
            let fs = factor_spans(ps, q + m.len());
            assert(Seq::<(u8, int, int)>::empty() + fs =~= fs);
            lemma_pauli_values_each(s, fs, ps);
        },
        TargetView::Bool(_) => {},
    }
}

proof fn lemma_targets_text_front(ts: Seq<TargetView>)
    requires
        ts.len() > 0,
    ensures
        targets_text(ts) == seq![' '] + target_text(ts[0]) + targets_text(ts.drop_first()),
    decreases ts.len(),
{
    let r = ts.drop_first();
    let dl = ts.drop_last();
    if ts.len() == 1 {
        assert(r.len() == 0);
        assert(dl.len() == 0);
        assert(targets_text(dl) =~= Seq::<char>::empty());
        assert(targets_text(r) =~= Seq::<char>::empty());
    } else {
        lemma_targets_text_front(dl);
        assert(dl.drop_first() =~= r.drop_last());
        assert(dl[0] == ts[0]);
        assert(r.last() == ts.last());
    }
    assert(targets_text(ts) =~= seq![' '] + target_text(ts[0]) + targets_text(r));
}

/// The targets the reader finds when the text of `ts` is written at `i`.
pub open spec fn target_tokens(ts: Seq<TargetView>, i: int) -> Seq<TargetToken>
    decreases ts.len(),
{
    if ts.len() == 0 {
        seq![]
    } else {
        let q = i + 1;
        let e = q + target_text(ts[0]).len();
        seq![TargetToken { start: q, end: e, shape: target_shape(ts[0], q) }] + target_tokens(
            ts.drop_first(),
            e,
        )
    }
}

proof fn lemma_target_list_spelled(
    s: Seq<u8>,
    g: Gate,
    i: int,
    acc: Seq<TargetToken>,
    ts: Seq<TargetView>,
)
    requires
        forall|k: int| 0 <= k < ts.len() ==> target_fits(g, #[trigger] ts[k]),
        spells(s, i, targets_text(ts) + seq!['\n']),
    ensures
        target_list(s, i, acc) == Some(
            (i + targets_text(ts).len() + 1, acc + target_tokens(ts, i)),
        ),
        target_tokens(ts, i).len() == ts.len(),
        forall|k: int|
            0 <= k < ts.len() ==> read_target(s, g, #[trigger] target_tokens(ts, i)[k])
                == Outcome::Done(ts[k]),
    decreases ts.len(),
{
    if ts.len() == 0 {
        assert(targets_text(ts) =~= Seq::<char>::empty());
        assert(s[i + 0] == seq!['\n'][0] as u8);
        lemma_skip_run(s, i, i, ByteClass::Space);
        assert(acc + target_tokens(ts, i) =~= acc);
    } else {
        lemma_targets_text_front(ts);
        let t0 = ts[0];
        let tt = target_text(t0);
        let rest = ts.drop_first();
        let q = i + 1;
        let e = q + tt.len();
        let after = targets_text(rest) + seq!['\n'];
        assert(targets_text(ts) + seq!['\n'] =~= seq![' '] + tt + after);
        lemma_spells_concat(s, i, seq![' '] + tt, after);
        lemma_spells_concat(s, i, seq![' '], tt);
        assert(s[i + 0] == seq![' '][0] as u8);
        if rest.len() > 0 {
            lemma_targets_text_front(rest);
            assert(after[0] == ' ');
        } else {
            assert(targets_text(rest) =~= Seq::<char>::empty());
            assert(after[0] == '\n');
        }
        assert(s[e + 0] == after[0] as u8);
        assert(target_fits(g, t0));
        lemma_target_at_spelled(s, g, q, t0);
        lemma_skip_run(s, i, q, ByteClass::Space);
        assert forall|k: int| 0 <= k < rest.len() implies target_fits(g, #[trigger] rest[k]) by {
            assert(rest[k] == ts[k + 1]);
        }
        let tok = TargetToken { start: q, end: e, shape: target_shape(t0, q) };
        lemma_target_list_spelled(s, g, e, acc.push(tok), rest);
        assert(acc.push(tok) + target_tokens(rest, e) =~= acc + target_tokens(ts, i));
        assert forall|k: int| 0 <= k < ts.len() implies read_target(
            s,
            g,
            #[trigger] target_tokens(ts, i)[k],
        ) == Outcome::Done(ts[k]) by {
            if k > 0 {
                assert(target_tokens(ts, i)[k] == target_tokens(rest, e)[k - 1]);
                assert(ts[k] == rest[k - 1]);
            }
        }
    }
}

proof fn lemma_read_target_list_each(
    s: Seq<u8>,
    g: Gate,
    toks: Seq<TargetToken>,
    ts: Seq<TargetView>,
)
    requires
        toks.len() == ts.len(),
        forall|k: int|
            0 <= k < toks.len() ==> read_target(s, g, #[trigger] toks[k]) == Outcome::Done(ts[k]),
    ensures
        read_target_list(s, g, toks) == Outcome::Done(ts),
    decreases toks.len(),
{
    if toks.len() > 0 {
        let n = toks.len() - 1;
        assert forall|k: int| 0 <= k < n implies read_target(s, g, #[trigger] toks.drop_last()[k])
            == Outcome::Done(ts.drop_last()[k]) by {
            assert(toks.drop_last()[k] == toks[k]);
        }
        lemma_read_target_list_each(s, g, toks.drop_last(), ts.drop_last());
        assert(read_target(s, g, toks[n]) == Outcome::Done(ts[n]));
        assert(ts.drop_last().push(ts[n]) =~= ts);
    } else {
        assert(ts =~= Seq::<TargetView>::empty());
    }
}


/// Whether instruction `x` is a plain instruction that reads back as itself: a gate
/// other than `NOT_A_GATE` without a block (a `REPEAT` then without arguments or
/// targets), whose arguments and targets are of kinds and in numbers that its gate takes.
pub open spec fn instruction_fits(x: InstructionView) -> bool {
    &&& x.gate != Gate::NOT_A_GATE
    &&& x.gate == Gate::REPEAT ==> x.args.len() == 0 && x.targets.len() == 0
    &&& x.block is None
    &&& forall|k: int| 0 <= k < x.args.len() ==> arg_fits(x.gate, #[trigger] x.args[k])
    &&& x.args.len() > 0 ==> spec_accepts_arg_count(x.gate, x.args.len() as int)
    &&& forall|k: int| 0 <= k < x.targets.len() ==> target_fits(x.gate, #[trigger] x.targets[k])
    &&& spec_accepts_target_count(x.gate, x.targets.len() as int)
}

/// Reading the bytes a gate's name was printed as names that same gate again; those bytes
/// spell `REPEAT` only for `REPEAT` itself.
proof fn lemma_name_spelled(s: Seq<u8>, p: int, g: Gate)
    requires
        spells(s, p, spec_name(g)),
        p + spec_name(g).len() < s.len(),
        !in_class(ByteClass::Name, s[p + spec_name(g).len()]),
    ensures
        is_letter(s[p]),
        skip(s, p, ByteClass::Name) == p + spec_name(g).len(),
        ascii_text(s, p, p + spec_name(g).len()) == spec_name(g),
        spec_gate_named(ascii_text(s, p, p + spec_name(g).len())) == g,
        is_repeat_word(s, p, p + spec_name(g).len()) ==> g == Gate::REPEAT,
{
    let name = spec_name(g);
    let n = p + name.len();
    lemma_name_shape(g);
    assert(s[p + 0] == name[0] as u8);
    assert forall|k: int| p <= k < n implies in_class(ByteClass::Name, #[trigger] s[k]) by {
        assert(s[p + (k - p)] == name[k - p] as u8);
        assert(is_name_char(name[k - p]));
    }
    lemma_skip_run(s, p, n, ByteClass::Name);
    assert forall|k: int| 0 <= k < name.len() implies '\0' <= #[trigger] name[k] <= '\u{7f}' by {
        assert(is_name_char(name[k]));
    }
    lemma_ascii_text_spelled(s, p, name);
    lemma_name_roundtrip(g);
    if is_repeat_word(s, p, n) {
        reveal_strlit("REPEAT");
        let w = seq![82u8, 69u8, 80u8, 69u8, 65u8, 84u8];
        assert(s.subrange(p, n) == w);
        assert(name.len() == 6);
        assert forall|k: int| 0 <= k < 6 implies #[trigger] name[k] == "REPEAT"@[k] by {
            assert(s.subrange(p, n)[k] == s[p + k]);
            assert(s[p + k] == name[k] as u8);
            assert(is_name_char(name[k]));
        }
        assert(name =~= spec_name(Gate::REPEAT));
        lemma_name_injective(g, Gate::REPEAT);
    }
}

/// The line holding the printed text of a plain instruction, after `w` spaces, reads back
/// as that instruction.
proof fn lemma_instruction_line(s: Seq<u8>, p: int, w: nat, x: InstructionView)
    requires
        instruction_fits(x),
        spells(s, p, spaces(w) + instruction_text(x)),
    ensures
        line_head(s, p) matches LineHead::Instruction(a, b, args, ts, e) && e == p + w
            + instruction_text(x).len() && read_instruction(s, a, b, args, ts) == Outcome::Done(
            x,
        ),
{
    let q = p + w;
    lemma_spells_concat(s, p, spaces(w), instruction_text(x));
    assert forall|m: int| p <= m < q implies in_class(ByteClass::Space, #[trigger] s[m]) by {
        assert(s[p + (m - p)] == spaces(w)[m - p] as u8);
    }
    let g = x.gate;
    let name = spec_name(g);
    let n = q + name.len();
    let argpart = if x.args.len() > 0 {
        seq!['('] + args_text(x.args) + seq![')']
    } else {
        Seq::<char>::empty()
    };
    let after = argpart + (targets_text(x.targets) + seq!['\n']);
    assert(instruction_text(x) =~= name + after);
    lemma_spells_concat(s, q, name, after);
    lemma_spells_concat(s, n, argpart, targets_text(x.targets) + seq!['\n']);
    let ae = n + argpart.len();
    lemma_target_list_spelled(s, g, ae, seq![], x.targets);
    let toks = target_tokens(x.targets, ae);
    assert(Seq::<TargetToken>::empty() + toks =~= toks);
    let e = ae + targets_text(x.targets).len() + 1;
    if x.args.len() > 0 {
        assert(s[n + 0] == after[0] as u8);
        assert(s[n] == 40);
    } else if x.targets.len() > 0 {
        lemma_targets_text_front(x.targets);
        assert(s[n + 0] == after[0] as u8);
        assert(s[n] == 32);
    } else {
        assert(targets_text(x.targets) =~= Seq::<char>::empty());
        assert(s[n + 0] == after[0] as u8);
        assert(s[n] == 10);
        lemma_skip_run(s, n, n, ByteClass::Space);
    }
    lemma_name_spelled(s, q, g);
    lemma_skip_run(s, p, q, ByteClass::Space);
    lemma_read_target_list_each(s, g, toks, x.targets);
    assert(read_targets(s, g, toks) == Outcome::Done(x.targets));
    assert(e == q + instruction_text(x).len());
    if x.args.len() > 0 {
        let inner = args_text(x.args) + seq![')'];
        assert(argpart =~= seq!['('] + inner);
        lemma_spells_concat(s, n, seq!['('], inner);
        lemma_arg_list_spelled(s, g, n + 1, n + 1, seq![], x.args);
        let sp = arg_spans(x.args, n + 1);
        assert(Seq::<(int, int)>::empty() + sp =~= sp);
        lemma_read_arg_list_each(s, g, sp, x.args);
        assert(read_args(s, g, sp) == Outcome::Done(x.args));
        assert(line_head(s, p) == LineHead::Instruction(q, n, Some(sp), toks, e));
        assert(read_instruction(s, q, n, Some(sp), toks) == Outcome::Done(x));
    } else {
        assert(x.args =~= Seq::<ArgView>::empty());
        assert(line_head(s, p) == LineHead::Instruction(q, n, None, toks, e));
        assert(read_instruction(s, q, n, None, toks) == Outcome::Done(x));
    }
    assert(x == InstructionView { gate: g, targets: x.targets, args: x.args, block: None });
}


proof fn lemma_ascii_concat(a: Seq<char>, b: Seq<char>)
    requires
        is_ascii_chars(a),
        is_ascii_chars(b),
    ensures
        is_ascii_chars(a + b),
{
    assert forall|k: int| 0 <= k < (a + b).len() implies '\0' <= #[trigger] (a + b)[k] <= '\u{7f}' by {
        if k < a.len() {
            assert((a + b)[k] == a[k]);
        } else {
            assert((a + b)[k] == b[k - a.len()]);
        }
    }
}


/// Whether every character of `t` is a visible ASCII character or a space (so no line
/// break stands in it).
pub open spec fn visible(t: Seq<char>) -> bool {
    forall|k: int| 0 <= k < t.len() ==> ' ' <= #[trigger] t[k] <= '~'
}

proof fn lemma_visible_concat(a: Seq<char>, b: Seq<char>)
    requires
        visible(a),
        visible(b),
    ensures
        visible(a + b),
{
    assert forall|k: int| 0 <= k < (a + b).len() implies ' ' <= #[trigger] (a + b)[k] <= '~' by {
        if k < a.len() {
            assert((a + b)[k] == a[k]);
        } else {
            assert((a + b)[k] == b[k - a.len()]);
        }
    }
}

proof fn lemma_visible_one(c: char)
    requires
        ' ' <= c <= '~',
    ensures
        visible(seq![c]),
{
    assert forall|k: int| 0 <= k < seq![c].len() implies ' ' <= #[trigger] seq![c][k] <= '~' by {
        assert(seq![c][k] == c);
    }
}

proof fn lemma_visible_ascii(t: Seq<char>)
    requires
        visible(t),
    ensures
        is_ascii_chars(t),
{
    assert forall|k: int| 0 <= k < t.len() implies '\0' <= #[trigger] t[k] <= '\u{7f}' by {
        assert(' ' <= t[k] <= '~');
    }
}

/// A decimal literal holds only a sign, digits, a point and an exponent mark.
proof fn lemma_literal_visible(t: Seq<char>)
    requires
        is_decimal_literal(t),
    ensures
        visible(t),
{
    let u = ascii_bytes(t);
    let l = t.len() as int;
    let a = if u[0] == 45 {
        1int
    } else {
        0int
    };
    crate::stim_parser::lemma_skip(u, a, ByteClass::Digit);
    let b = skip(u, a, ByteClass::Digit);
    let c = if b < l && u[b] == 46 {
        crate::stim_parser::lemma_skip(u, b + 1, ByteClass::Digit);
        skip(u, b + 1, ByteClass::Digit)
    } else {
        b
    };
    let d = if c + 1 < l && (u[c + 1] == 43 || u[c + 1] == 45) {
        c + 2
    } else {
        c + 1
    };
    if c < l && (u[c] == 101 || u[c] == 69) && d <= l {
        crate::stim_parser::lemma_skip(u, d, ByteClass::Digit);
    }
    assert forall|k: int| 0 <= k < l implies 32 <= #[trigger] u[k] <= 126 by {
        if k < a {
        } else if k < b {
            assert(in_class(ByteClass::Digit, u[k]));
        } else if k == b {
        } else if k < c {
            assert(in_class(ByteClass::Digit, u[k]));
        } else if k == c {
        } else if k < d {
        } else {
            assert(in_class(ByteClass::Digit, u[k]));
        }
    }
    assert forall|k: int| 0 <= k < l implies ' ' <= #[trigger] t[k] <= '~' by {
        assert(u[k] == t[k] as u8);
        assert('\0' <= t[k] <= '\u{7f}');
        assert(32 <= u[k] <= 126);
    }
}

proof fn lemma_decimal_visible(n: nat)
    ensures
        visible(decimal_chars(n)),
{
    lemma_decimal_is_literal(n);
    lemma_literal_visible(decimal_chars(n));
}

proof fn lemma_name_visible(g: Gate)
    ensures
        visible(spec_name(g)),
{
    lemma_name_shape(g);
    assert forall|k: int| 0 <= k < spec_name(g).len() implies ' ' <= #[trigger] spec_name(g)[k]
        <= '~' by {
        assert(is_name_char(spec_name(g)[k]));
    }
}

proof fn lemma_args_text_visible(g: Gate, args: Seq<ArgView>)
    requires
        forall|k: int| 0 <= k < args.len() ==> arg_fits(g, #[trigger] args[k]),
    ensures
        visible(args_text(args)),
    decreases args.len(),
{
    if args.len() > 0 {
        assert(arg_fits(g, args.last()));
        lemma_arg_literal(g, args.last());
        lemma_literal_visible(arg_text(args.last()));
        if args.len() == 1 {
            assert(args[0] == args.last());
        } else {
            let dl = args.drop_last();
            assert forall|k: int| 0 <= k < dl.len() implies arg_fits(g, #[trigger] dl[k]) by {
                assert(dl[k] == args[k]);
            }
            lemma_args_text_visible(g, dl);
            lemma_visible_one(',');
            lemma_visible_one(' ');
            lemma_visible_concat(seq![','], seq![' ']);
            assert(seq![','] + seq![' '] =~= seq![',', ' ']);
            lemma_visible_concat(args_text(dl), seq![',', ' ']);
            lemma_visible_concat(args_text(dl) + seq![',', ' '], arg_text(args.last()));
        }
    }
}

proof fn lemma_pauli_product_visible(ps: Seq<(Pauli, usize)>)
    ensures
        visible(pauli_product_text(ps)),
    decreases ps.len(),
{
    if ps.len() > 0 {
        let f = ps.last();
        lemma_visible_one(spec_pauli_letter(f.0));
        lemma_decimal_visible(f.1 as nat);
        lemma_visible_concat(seq![spec_pauli_letter(f.0)], decimal_chars(f.1 as nat));
        if ps.len() == 1 {
            assert(ps[0] == f);
        } else {
            lemma_pauli_product_visible(ps.drop_last());
            lemma_visible_one('*');
            lemma_visible_concat(pauli_product_text(ps.drop_last()), seq!['*']);
            lemma_visible_concat(
                pauli_product_text(ps.drop_last()) + seq!['*'],
                pauli_factor_text(f),
            );
        }
    } else {
        assert(pauli_product_text(ps) =~= Seq::<char>::empty());
    }
}

proof fn lemma_target_text_visible(t: TargetView)
    ensures
        visible(target_text(t)),
{
    lemma_visible_one('!');
    assert(visible(Seq::<char>::empty()));
    match t {
        TargetView::Qubit(k, inv) => {
            lemma_decimal_visible(k as nat);
            lemma_visible_concat(inversion_mark(inv), decimal_chars(k as nat));
        },
        TargetView::MeasurementRecord(k) => {
            reveal_strlit("rec[-");
            assert(visible("rec[-"@));
            lemma_decimal_visible(k as nat);
            lemma_visible_concat("rec[-"@, decimal_chars(k as nat));
            lemma_visible_one(']');
            lemma_visible_concat("rec[-"@ + decimal_chars(k as nat), seq![']']);
        },
        TargetView::PauliString(ps, inv) => {
            lemma_pauli_product_visible(ps);
            lemma_visible_concat(inversion_mark(inv), pauli_product_text(ps));
        },
        TargetView::Bool(b) => {
            lemma_visible_one('1');
            lemma_visible_one('0');
        },
    }
}

proof fn lemma_targets_text_visible(ts: Seq<TargetView>)
    ensures
        visible(targets_text(ts)),
    decreases ts.len(),
{
    if ts.len() > 0 {
        lemma_targets_text_visible(ts.drop_last());
        lemma_visible_one(' ');
        lemma_target_text_visible(ts.last());
        lemma_visible_concat(targets_text(ts.drop_last()), seq![' ']);
        lemma_visible_concat(targets_text(ts.drop_last()) + seq![' '], target_text(ts.last()));
    } else {
        assert(targets_text(ts) =~= Seq::<char>::empty());
    }
}

/// `n` spaces.
pub open spec fn spaces(n: nat) -> Seq<char> {
    Seq::new(n, |k: int| ' ')
}

/// The first line of the text of instruction `x` nested `d` blocks deep, without its
/// line feed: the indentation, the name, the operands, and ` {` when a block follows.
pub open spec fn head_text(x: InstructionView, d: nat) -> Seq<char> {
    spaces(4 * d) + spec_name(x.gate) + operands_text(x) + if x.block is Some {
        seq![' ', '{']
    } else {
        Seq::<char>::empty()
    }
}

/// The text of instruction `x` nested `d` blocks deep: its first line, then for a block
/// the lines of its instructions one level deeper and the closing `}` line.
pub open spec fn line_text(x: InstructionView, d: nat) -> Seq<char>
    decreases x,
{
    head_text(x, d) + seq!['\n'] + match x.block {
        Some(b) => lines_text(b, d + 1) + spaces(4 * d) + seq!['}', '\n'],
        None => Seq::<char>::empty(),
    }
}

/// The texts of the instructions of `c`, nested `d` blocks deep, one after the other.
pub open spec fn lines_text(c: Seq<InstructionView>, d: nat) -> Seq<char>
    decreases c,
{
    if c.len() == 0 {
        seq![]
    } else {
        lines_text(c.drop_last(), d) + line_text(c.last(), d)
    }
}

/// Every instruction of `c` prints as text that reads back as itself (see `printable_one`).
pub open spec fn printable(c: Seq<InstructionView>) -> bool
    decreases c,
{
    if c.len() == 0 {
        true
    } else {
        printable(c.drop_last()) && printable_one(c.last())
    }
}

/// Instruction `x` prints as text that reads back as itself: a plain instruction that fits
/// its gate (see `instruction_fits`), or a `REPEAT` with one index argument, no targets,
/// and a block whose instructions all print so.
pub open spec fn printable_one(x: InstructionView) -> bool
    decreases x,
{
    match x.block {
        Some(b) => x.gate == Gate::REPEAT && x.targets.len() == 0 && x.args.len() == 1
            && x.args[0] is Index && printable(b),
        None => instruction_fits(x),
    }
}

proof fn lemma_printable_each(c: Seq<InstructionView>)
    ensures
        printable(c) <==> forall|k: int| 0 <= k < c.len() ==> printable_one(#[trigger] c[k]),
    decreases c.len(),
{
    if c.len() > 0 {
        let dl = c.drop_last();
        lemma_printable_each(dl);
        if printable(c) {
            assert forall|k: int| 0 <= k < c.len() implies printable_one(#[trigger] c[k]) by {
                if k < dl.len() {
                    assert(dl[k] == c[k]);
                }
            }
        }
        if forall|k: int| 0 <= k < c.len() ==> printable_one(#[trigger] c[k]) {
            assert forall|k: int| 0 <= k < dl.len() implies printable_one(#[trigger] dl[k]) by {
                assert(dl[k] == c[k]);
                assert(printable_one(c[k]));
            }
            assert(printable_one(c[c.len() - 1]));
        }
    }
}

proof fn lemma_spaces_add(a: nat, b: nat)
    ensures
        spaces(a) + spaces(b) == spaces(a + b),
{
    assert(spaces(a) + spaces(b) =~= spaces(a + b));
}

proof fn lemma_head_visible(x: InstructionView, d: nat)
    requires
        printable_one(x),
    ensures
        visible(head_text(x, d)),
{
    let g = x.gate;
    lemma_name_visible(g);
    lemma_visible_concat(spaces(4 * d), spec_name(g));
    lemma_visible_one(' ');
    lemma_visible_one('{');
    lemma_visible_concat(seq![' '], seq!['{']);
    assert(seq![' '] + seq!['{'] =~= seq![' ', '{']);
    assert(visible(Seq::<char>::empty()));
    match x.block {
        Some(b) => {
            if let ArgView::Index(n) = x.args[0] {
                lemma_decimal_visible(n as nat);
            }
            lemma_visible_concat(seq![' '], arg_text(x.args[0]));
        },
        None => {
            if x.args.len() > 0 {
                lemma_visible_one('(');
                lemma_visible_one(')');
                lemma_args_text_visible(g, x.args);
                lemma_visible_concat(seq!['('], args_text(x.args));
                lemma_visible_concat(seq!['('] + args_text(x.args), seq![')']);
            }
            lemma_targets_text_visible(x.targets);
            let argpart = if x.args.len() > 0 {
                seq!['('] + args_text(x.args) + seq![')']
            } else {
                Seq::<char>::empty()
            };
            lemma_visible_concat(argpart, targets_text(x.targets));
            if x.gate == Gate::REPEAT {
                assert(targets_text(x.targets) =~= Seq::<char>::empty());
                assert(operands_text(x) =~= argpart + targets_text(x.targets));
            }
        },
    }
    lemma_visible_concat(spaces(4 * d) + spec_name(g), operands_text(x));
    lemma_visible_concat(
        spaces(4 * d) + spec_name(g) + operands_text(x),
        if x.block is Some {
            seq![' ', '{']
        } else {
            Seq::<char>::empty()
        },
    );
}

proof fn lemma_lines_of_line(l: Seq<char>, rest: Seq<char>)
    requires
        visible(l),
    ensures
        lines_of(l + seq!['\n'] + rest) == seq![l] + lines_of(rest),
{
    let t = l + seq!['\n'] + rest;
    let n = l.len() as int;
    crate::text::lemma_next_newline_bounds(t, 0);
    let k = next_newline(t, 0);
    assert(t[n] == '\n');
    if k < n {
        assert(t[k] == l[k]);
        assert(' ' <= l[k] <= '~');
    }
    assert(k == n);
    assert(t.take(n) =~= l);
    assert(t.skip(n + 1) =~= rest);
    if l.len() > 0 {
        assert(' ' <= l.last() <= '~');
    }
}

proof fn lemma_indented_front(l: Seq<char>, r: Seq<Seq<char>>)
    ensures
        indented(seq![l] + r) == spaces(4) + l + seq!['\n'] + indented(r),
{
    let ls = seq![l] + r;
    assert(ls[0] == l);
    assert(ls.drop_first() =~= r);
    assert(seq![' ', ' ', ' ', ' '] =~= spaces(4));
}

/// Indenting the lines of an instruction's text nests it one block deeper.
proof fn lemma_shift_one(x: InstructionView, d: nat, rest: Seq<char>)
    requires
        printable_one(x),
    ensures
        indented(lines_of(line_text(x, d) + rest)) == line_text(x, d + 1) + indented(
            lines_of(rest),
        ),
    decreases x,
{
    let h = head_text(x, d);
    lemma_head_visible(x, d);
    lemma_spaces_add(4, 4 * d);
    assert(spaces(4) + h =~= head_text(x, d + 1));
    match x.block {
        Some(b) => {
            let close = spaces(4 * d) + seq!['}'];
            let after = close + seq!['\n'] + rest;
            assert(line_text(x, d) + rest =~= h + seq!['\n'] + (lines_text(b, d + 1) + after));
            lemma_lines_of_line(h, lines_text(b, d + 1) + after);
            lemma_indented_front(h, lines_of(lines_text(b, d + 1) + after));
            lemma_shift_all(b, d + 1, after);
            lemma_visible_one('}');
            lemma_visible_concat(spaces(4 * d), seq!['}']);
            lemma_lines_of_line(close, rest);
            lemma_indented_front(close, lines_of(rest));
            lemma_spaces_add(4, 4 * d);
            assert(spaces(4) + close =~= spaces(4 * (d + 1)) + seq!['}']);
            assert(indented(lines_of(line_text(x, d) + rest)) =~= line_text(x, d + 1) + indented(
                lines_of(rest),
            ));
        },
        None => {
            assert(line_text(x, d) + rest =~= h + seq!['\n'] + rest);
            lemma_lines_of_line(h, rest);
            lemma_indented_front(h, lines_of(rest));
            assert(indented(lines_of(line_text(x, d) + rest)) =~= line_text(x, d + 1) + indented(
                lines_of(rest),
            ));
        },
    }
}

/// Indenting the lines of a sequence of instruction texts nests them one block deeper.
proof fn lemma_shift_all(c: Seq<InstructionView>, d: nat, rest: Seq<char>)
    requires
        printable(c),
    ensures
        indented(lines_of(lines_text(c, d) + rest)) == lines_text(c, d + 1) + indented(
            lines_of(rest),
        ),
    decreases c,
{
    if c.len() == 0 {
        assert(lines_text(c, d) + rest =~= rest);
        assert(lines_text(c, d + 1) + indented(lines_of(rest)) =~= indented(lines_of(rest)));
    } else {
        let dl = c.drop_last();
        let x = c.last();
        assert(lines_text(c, d) + rest =~= lines_text(dl, d) + (line_text(x, d) + rest));
        lemma_shift_all(dl, d, line_text(x, d) + rest);
        lemma_shift_one(x, d, rest);
        assert(lines_text(c, d + 1) + indented(lines_of(rest)) =~= lines_text(dl, d + 1) + (
        line_text(x, d + 1) + indented(lines_of(rest))));
    }
}

/// The text of a printable instruction is its text at depth 0.
proof fn lemma_text_at_top(x: InstructionView)
    requires
        printable_one(x),
    ensures
        instruction_text(x) == line_text(x, 0),
    decreases x,
{
    match x.block {
        Some(b) => {
            lemma_block_text_nested(b);
            reveal_strlit(" {\n");
            assert(instruction_text(x) =~= line_text(x, 0));
        },
        None => {
            assert(instruction_text(x) =~= line_text(x, 0));
        },
    }
}

/// The text of a printable block is the texts of its instructions at depth 1.
proof fn lemma_block_text_nested(b: Seq<InstructionView>)
    requires
        printable(b),
    ensures
        block_text(b) == lines_text(b, 1),
    decreases b,
{
    if b.len() > 0 {
        let x = b.last();
        lemma_block_text_nested(b.drop_last());
        lemma_text_at_top(x);
        lemma_shift_one(x, 0, Seq::<char>::empty());
        assert(line_text(x, 0) + Seq::<char>::empty() =~= line_text(x, 0));
        assert(lines_of(Seq::<char>::empty()) =~= Seq::<Seq<char>>::empty());
        assert(indented(Seq::<Seq<char>>::empty()) =~= Seq::<char>::empty());
        assert(line_text(x, 1) + Seq::<char>::empty() =~= line_text(x, 1));
    }
}

/// The text of a printable circuit is the texts of its instructions at depth 0.
proof fn lemma_circuit_text_top(c: Seq<InstructionView>)
    requires
        printable(c),
    ensures
        circuit_text(c) == lines_text(c, 0),
    decreases c.len(),
{
    if c.len() > 0 {
        lemma_circuit_text_top(c.drop_last());
        lemma_text_at_top(c.last());
    }
}


proof fn lemma_lines_text_front(c: Seq<InstructionView>, d: nat)
    requires
        c.len() > 0,
    ensures
        lines_text(c, d) == line_text(c[0], d) + lines_text(c.drop_first(), d),
    decreases c.len(),
{
    let r = c.drop_first();
    let dl = c.drop_last();
    if c.len() == 1 {
        assert(r.len() == 0 && dl.len() == 0);
        assert(lines_text(dl, d) =~= Seq::<char>::empty());
        assert(lines_text(r, d) =~= Seq::<char>::empty());
    } else {
        lemma_lines_text_front(dl, d);
        assert(dl.drop_first() =~= r.drop_last());
        assert(dl[0] == c[0]);
        assert(r.last() == c.last());
    }
    assert(lines_text(c, d) =~= line_text(c[0], d) + lines_text(r, d));
}

/// The `}` line that closes a block nested `d + 1` deep.
proof fn lemma_close_line(s: Seq<u8>, q: int, d: nat)
    requires
        spells(s, q, spaces(4 * d) + seq!['}', '\n']),
    ensures
        line_head(s, q) == LineHead::Close,
        close_end(s, q) == Some(q + 4 * d + 2),
{
    let j = q + 4 * d;
    lemma_spells_concat(s, q, spaces(4 * d), seq!['}', '\n']);
    assert forall|m: int| q <= m < j implies in_class(ByteClass::Space, #[trigger] s[m]) by {
        assert(s[q + (m - q)] == spaces(4 * d)[m - q] as u8);
    }
    assert(s[j + 0] == seq!['}', '\n'][0] as u8);
    assert(s[j + 1] == seq!['}', '\n'][1] as u8);
    lemma_skip_run(s, q, j, ByteClass::Space);
    lemma_skip_run(s, j + 1, j + 1, ByteClass::Space);
}

/// The first line of a printed `REPEAT` reads as a block header with its count.
proof fn lemma_repeat_line(s: Seq<u8>, p: int, d: nat, x: InstructionView)
    requires
        printable_one(x),
        x.block is Some,
        spells(s, p, head_text(x, d) + seq!['\n']),
    ensures
        x.args[0] matches ArgView::Index(n) && line_head(s, p) matches LineHead::Block(a, b, body)
            && body == p + head_text(x, d).len() + 1 && number_at(s, a, b) == Some(n),
{
    let q = p + 4 * d;
    let name = spec_name(Gate::REPEAT);
    reveal_strlit("REPEAT");
    assert(name.len() == 6);
    let n = match x.args[0] {
        ArgView::Index(n) => n,
        _ => 0,
    };
    let dec = decimal_chars(n as nat);
    let r4 = seq![' ', '{', '\n'];
    let r3 = dec + r4;
    let r2 = seq![' '] + r3;
    let r1 = name + r2;
    assert(head_text(x, d) + seq!['\n'] =~= spaces(4 * d) + r1);
    lemma_spells_concat(s, p, spaces(4 * d), r1);
    assert forall|m: int| p <= m < q implies in_class(ByteClass::Space, #[trigger] s[m]) by {
        assert(s[p + (m - p)] == spaces(4 * d)[m - p] as u8);
    }
    lemma_spells_concat(s, q, name, r2);
    let k = q + 7;
    lemma_spells_concat(s, q + 6, seq![' '], r3);
    assert(s[q + 6 + 0] == r2[0] as u8);
    lemma_spells_concat(s, k, dec, r4);
    let dd = k + dec.len();
    assert(s[dd + 0] == r4[0] as u8);
    assert(s[dd + 1] == r4[1] as u8);
    assert(s[dd + 2] == r4[2] as u8);
    lemma_name_spelled(s, q, Gate::REPEAT);
    lemma_skip_run(s, p, q, ByteClass::Space);
    lemma_subrange_spelled(s, q, name);
    assert(ascii_bytes(name) =~= seq![82u8, 69u8, 80u8, 69u8, 65u8, 84u8]);
    assert(is_repeat_word(s, q, q + 6));
    lemma_decimal_spelled(s, k, n);
    lemma_skip_run(s, q + 6, k, ByteClass::Space);
    lemma_skip_run(s, dd, dd + 1, ByteClass::Space);
    lemma_skip_run(s, dd + 2, dd + 2, ByteClass::Space);
    assert(block_header(s, q, q + 6) == Some((k, dd, dd + 3)));
}

/// One step of checking and reading lines: an instruction line followed by lines that
/// check and read.
proof fn lemma_instruction_step(
    s: Seq<u8>,
    p: int,
    nested: bool,
    x: InstructionView,
    e: int,
    rest: Seq<InstructionView>,
    q: int,
)
    requires
        0 <= p < e <= s.len(),
        line_head(s, p) matches LineHead::Instruction(a, b, args, ts, f) && f == e
            && read_instruction(s, a, b, args, ts) == Outcome::Done(x),
        check_lines(s, e, nested) == Syntax::Valid(q),
        read_lines(s, e, nested) == Outcome::Done((rest, q)),
    ensures
        check_lines(s, p, nested) == Syntax::Valid(q),
        read_lines(s, p, nested) == Outcome::Done((seq![x] + rest, q)),
{
}

/// One step of checking and reading lines: a `REPEAT` block whose body checks and reads,
/// its `}` line, and lines after it that check and read.
proof fn lemma_block_step(
    s: Seq<u8>,
    p: int,
    nested: bool,
    count: usize,
    inner: Seq<InstructionView>,
    pc: int,
    e: int,
    rest: Seq<InstructionView>,
    q: int,
)
    requires
        0 <= p < e <= s.len(),
        line_head(s, p) matches LineHead::Block(a, b, body) && p < body <= s.len() && number_at(
            s,
            a,
            b,
        ) == Some(count) && check_lines(s, body, true) == Syntax::Valid(pc) && read_lines(
            s,
            body,
            true,
        ) == Outcome::Done((inner, pc)),
        close_end(s, pc) == Some(e),
        check_lines(s, e, nested) == Syntax::Valid(q),
        read_lines(s, e, nested) == Outcome::Done((rest, q)),
    ensures
        check_lines(s, p, nested) == Syntax::Valid(q),
        read_lines(s, p, nested) == Outcome::Done((seq![repeat_view(count, inner)] + rest, q)),
{
}

/// Reading the printed lines of a printable sequence of instructions nested `d` blocks
/// deep (followed, inside a block, by the block's `}` line) checks and gives them back.
#[verifier::rlimit(50)]
proof fn lemma_read_nested(s: Seq<u8>, p: int, c: Seq<InstructionView>, d: nat)
    requires
        printable(c),
        0 <= p,
        d == 0 ==> spells(s, p, lines_text(c, 0)) && p + lines_text(c, 0).len() == s.len(),
        d > 0 ==> spells(s, p, lines_text(c, d) + (spaces((4 * (d - 1)) as nat) + seq!['}', '\n'])),
    ensures
        check_lines(s, p, d > 0) == Syntax::Valid(p + lines_text(c, d).len()),
        read_lines(s, p, d > 0) == Outcome::Done((c, p + lines_text(c, d).len())),
    decreases s.len() - p,
{
    let close = if d > 0 {
        spaces((4 * (d - 1)) as nat) + seq!['}', '\n']
    } else {
        Seq::<char>::empty()
    };
    if d == 0 {
        assert(lines_text(c, d) + close =~= lines_text(c, d));
    }
    assert(spells(s, p, lines_text(c, d) + close));
    if c.len() == 0 {
        assert(lines_text(c, d) =~= Seq::<char>::empty());
        assert(c =~= Seq::<InstructionView>::empty());
        if d > 0 {
            assert(lines_text(c, d) + close =~= close);
            lemma_close_line(s, p, (d - 1) as nat);
        }
    } else {
        lemma_printable_each(c);
        lemma_lines_text_front(c, d);
        let x = c[0];
        let r = c.drop_first();
        assert(printable_one(x));
        assert forall|k: int| 0 <= k < r.len() implies printable_one(#[trigger] r[k]) by {
            assert(r[k] == c[k + 1]);
        }
        lemma_printable_each(r);
        let lt = line_text(x, d);
        let e = p + lt.len();
        assert(lines_text(c, d) + close =~= lt + (lines_text(r, d) + close));
        lemma_spells_concat(s, p, lt, lines_text(r, d) + close);
        match x.block {
            Some(b) => {
                let h = head_text(x, d);
                let body = p + h.len() + 1;
                let inner_close = spaces(4 * d) + seq!['}', '\n'];
                assert(lt =~= h + seq!['\n'] + (lines_text(b, d + 1) + inner_close));
                lemma_spells_concat(s, p, h + seq!['\n'], lines_text(b, d + 1) + inner_close);
                lemma_repeat_line(s, p, d, x);
                assert((4 * ((d + 1) - 1)) as nat == 4 * d);
                lemma_read_nested(s, body, b, d + 1);
                let pc = body + lines_text(b, d + 1).len();
                lemma_spells_concat(s, body, lines_text(b, d + 1), inner_close);
                lemma_close_line(s, pc, d);
                assert(pc + 4 * d + 2 == e);
                lemma_read_nested(s, e, r, d);
                let n = match x.args[0] {
                    ArgView::Index(n) => n,
                    _ => 0,
                };
                assert(x == repeat_view(n, b)) by {
                    assert(x.targets =~= Seq::<TargetView>::empty());
                    assert(x.args =~= seq![ArgView::Index(n)]);
                }
                lemma_block_step(s, p, d > 0, n, b, pc, e, r, e + lines_text(r, d).len());
                assert(seq![x] + r =~= c);
            },
            None => {
                assert(lt =~= spaces(4 * d) + instruction_text(x));
                lemma_instruction_line(s, p, 4 * d, x);
                lemma_read_nested(s, e, r, d);
                lemma_instruction_step(s, p, d > 0, x, e, r, e + lines_text(r, d).len());
                assert(seq![x] + r =~= c);
            },
        }
    }
}

proof fn lemma_lines_text_ascii(c: Seq<InstructionView>, d: nat)
    requires
        printable(c),
    ensures
        is_ascii_chars(lines_text(c, d)),
    decreases c,
{
    if c.len() > 0 {
        lemma_lines_text_ascii(c.drop_last(), d);
        lemma_line_text_ascii(c.last(), d);
        lemma_ascii_concat(lines_text(c.drop_last(), d), line_text(c.last(), d));
    } else {
        assert(lines_text(c, d) =~= Seq::<char>::empty());
    }
}

proof fn lemma_line_text_ascii(x: InstructionView, d: nat)
    requires
        printable_one(x),
    ensures
        is_ascii_chars(line_text(x, d)),
    decreases x,
{
    let h = head_text(x, d);
    lemma_head_visible(x, d);
    lemma_visible_ascii(h);
    let nl = seq!['\n'];
    assert(is_ascii_chars(nl));
    lemma_ascii_concat(h, nl);
    match x.block {
        Some(b) => {
            lemma_lines_text_ascii(b, d + 1);
            let close = spaces(4 * d) + seq!['}', '\n'];
            assert(is_ascii_chars(close));
            lemma_ascii_concat(lines_text(b, d + 1), close);
            lemma_ascii_concat(h + nl, lines_text(b, d + 1) + close);
            assert(line_text(x, d) =~= h + nl + (lines_text(b, d + 1) + close));
        },
        None => {
            assert(line_text(x, d) =~= h + nl);
        },
    }
}

/// Printing a circuit whose instructions are all printable (see `printable_one`) as
/// `.stim` text and reading the bytes of that text back gives the same circuit; the text
/// is plain ASCII.
pub proof fn lemma_print_then_read(c: Seq<InstructionView>)
    requires
        printable(c),
    ensures
        is_ascii_chars(circuit_text(c)),
        spec_parse(encode_utf8(circuit_text(c))) == Outcome::Done(c),
{
    let t = circuit_text(c);
    lemma_circuit_text_top(c);
    lemma_lines_text_ascii(c, 0);
    is_ascii_chars_encode_utf8(t);
    let s = encode_utf8(t);
    assert(spells(s, 0, t));
    lemma_read_nested(s, 0, c, 0);
}


/// Whether `span` is a literal as the reader finds it: a non-empty decimal literal that
/// starts at `span.0` and ends at `span.1`.
pub open spec fn literal_span(s: Seq<u8>, span: (int, int)) -> bool {
    0 <= span.0 < span.1 && span.1 == number_end(s, span.0)
}

proof fn lemma_arg_list_literals(s: Seq<u8>, i: int, acc: Seq<(int, int)>)
    requires
        0 <= i,
        forall|k: int| 0 <= k < acc.len() ==> literal_span(s, #[trigger] acc[k]),
    ensures
        arg_list(s, i, acc) matches Some((_, sp)) ==> forall|k: int|
            0 <= k < sp.len() ==> literal_span(s, #[trigger] sp[k]),
    decreases s.len() - i,
{
    let j = skip(s, i, ByteClass::Space);
    let e = number_end(s, j);
    if !(e <= j || j < i) {
        let k = skip(s, e, ByteClass::Space);
        let acc2 = acc.push((j, e));
        assert forall|m: int| 0 <= m < acc2.len() implies literal_span(s, #[trigger] acc2[m]) by {
            if m < acc.len() {
                assert(acc2[m] == acc[m]);
            }
        }
        if 0 <= k < s.len() && s[k] == 44 && k >= i {
            crate::stim_parser::lemma_skip(s, e, ByteClass::Space);
            lemma_arg_list_literals(s, k + 1, acc2);
        }
    }
}

/// Inside `[j, e)`, a run of class-`c` bytes in the slice ends where the run in the
/// whole text ends, cut at `e`.
proof fn lemma_skip_slice(s: Seq<u8>, j: int, e: int, x: int, c: ByteClass)
    requires
        0 <= j <= j + x <= e <= s.len(),
    ensures
        ({
            let t = skip(s, j + x, c);
            skip(s.subrange(j, e), x, c) == (if t < e {
                t
            } else {
                e
            }) - j
        }),
        skip(s, j + x, c) >= j + x,
    decreases e - j - x,
{
    crate::stim_parser::lemma_skip(s, j + x, c);
    if j + x < e {
        assert(s.subrange(j, e)[x] == s[j + x]);
        if in_class(c, s[j + x]) {
            lemma_skip_slice(s, j, e, x + 1, c);
        }
    }
}

/// A literal the reader finds, taken on its own, is a decimal literal.
proof fn lemma_literal_span(s: Seq<u8>, j: int, e: int)
    requires
        literal_span(s, (j, e)),
    ensures
        is_decimal_literal(ascii_text(s, j, e)),
{
    if j >= s.len() {
        assert(skip(s, j, ByteClass::Digit) == j);
        assert(skip(s, j + 1, ByteClass::Digit) == j + 1);
    }
    assert(j < s.len());
    // the parts of the literal in the whole text
    let a = if s[j] == 45 {
        j + 1
    } else {
        j
    };
    crate::stim_parser::lemma_skip(s, a, ByteClass::Digit);
    let b = skip(s, a, ByteClass::Digit);
    assert(b != a);
    let c = if b < s.len() && s[b] == 46 {
        crate::stim_parser::lemma_skip(s, b + 1, ByteClass::Digit);
        skip(s, b + 1, ByteClass::Digit)
    } else {
        b
    };
    let d = if c + 1 < s.len() && (s[c + 1] == 43 || s[c + 1] == 45) {
        c + 2
    } else {
        c + 1
    };
    let has_exp = c < s.len() && (s[c] == 101 || s[c] == 69);
    if has_exp && d <= s.len() {
        crate::stim_parser::lemma_skip(s, d, ByteClass::Digit);
    }
    assert(b <= e);
    assert(c <= e);
    assert(e <= s.len());
    let u = s.subrange(j, e);
    let t = ascii_text(s, j, e);
    let l = e - j;
    assert(ascii_bytes(t) =~= u) by {
        assert forall|k: int| 0 <= k < l implies #[trigger] ascii_bytes(t)[k] == u[k] by {
            let x = u[k];
            assert(t[k] == x as char);
            assert((x as char) as u8 == x);
        }
    }
    // the same parts in the slice
    assert(u[0] == s[j]);
    lemma_skip_slice(s, j, e, a - j, ByteClass::Digit);
    if b < e && s[b] == 46 {
        assert(u[b - j] == s[b]);
        lemma_skip_slice(s, j, e, b + 1 - j, ByteClass::Digit);
    }
    if c < e {
        assert(u[c - j] == s[c]);
        if c + 1 < e {
            assert(u[c + 1 - j] == s[c + 1]);
        }
        if has_exp && e > c {
            assert(d < e);
            lemma_skip_slice(s, j, e, d - j, ByteClass::Digit);
        }
    }
    assert(number_end(u, 0) == l);
    assert forall|k: int| 0 <= k < l implies '\0' <= #[trigger] t[k] <= '\u{7f}' by {
        let m = j + k;
        assert(t[k] == u[k] as char);
        assert(u[k] == s[m]);
        if m < a {
        } else if m < b {
            assert(in_class(ByteClass::Digit, s[m]));
        } else if m == b {
        } else if m < c {
            assert(in_class(ByteClass::Digit, s[m]));
        } else if m == c {
        } else if m < d {
        } else {
            assert(in_class(ByteClass::Digit, s[m]));
        }
        assert(s[m] < 128);
    }
}


proof fn lemma_read_arg_list_fits(s: Seq<u8>, g: Gate, spans: Seq<(int, int)>)
    requires
        forall|k: int| 0 <= k < spans.len() ==> literal_span(s, #[trigger] spans[k]),
    ensures
        read_arg_list(s, g, spans) matches Outcome::Done(args) ==> forall|k: int|
            0 <= k < args.len() ==> arg_fits(g, #[trigger] args[k]),
    decreases spans.len(),
{
    if spans.len() > 0 {
        let dl = spans.drop_last();
        assert forall|k: int| 0 <= k < dl.len() implies literal_span(s, #[trigger] dl[k]) by {
            assert(dl[k] == spans[k]);
        }
        lemma_read_arg_list_fits(s, g, dl);
        let sp = spans.last();
        assert(literal_span(s, spans[spans.len() - 1]));
        lemma_literal_span(s, sp.0, sp.1);
        if let Outcome::Done(prev) = read_arg_list(s, g, dl) {
            if let Outcome::Done(Some(a)) = read_arg(s, g, sp) {
                assert(arg_fits(g, a));
                let all = prev.push(a);
                assert forall|k: int| 0 <= k < all.len() implies arg_fits(g, #[trigger] all[k]) by {
                    if k < prev.len() {
                        assert(all[k] == prev[k]);
                    }
                }
            }
        }
    }
}

/// Whether a target as written is well shaped: a Pauli product has at least one factor,
/// each with a letter `X`, `Y` or `Z`.
pub open spec fn token_fine(t: TargetToken) -> bool {
    match t.shape {
        TargetShape::Paulis(_, fs) => fs.len() > 0 && forall|k: int|
            0 <= k < fs.len() ==> is_pauli_letter(#[trigger] fs[k].0),
        _ => true,
    }
}

proof fn lemma_pauli_factors_letters(s: Seq<u8>, i: int, acc: Seq<(u8, int, int)>)
    requires
        forall|k: int| 0 <= k < acc.len() ==> is_pauli_letter(#[trigger] acc[k].0),
    ensures
        pauli_factors(s, i, acc) matches Some((_, fs)) ==> fs.len() > acc.len() && forall|k: int|
            0 <= k < fs.len() ==> is_pauli_letter(#[trigger] fs[k].0),
    decreases s.len() - i,
{
    if 0 <= i < s.len() && is_pauli_letter(s[i]) {
        let d = skip(s, i + 1, ByteClass::Digit);
        if d > i + 1 {
            let acc2 = acc.push((s[i], i + 1, d));
            assert forall|k: int| 0 <= k < acc2.len() implies is_pauli_letter(#[trigger] acc2[k].0) by {
                if k < acc.len() {
                    assert(acc2[k] == acc[k]);
                }
            }
            if d < s.len() && s[d] == 42 {
                lemma_pauli_factors_letters(s, d + 1, acc2);
            }
        }
    }
}

proof fn lemma_target_list_fine(s: Seq<u8>, i: int, acc: Seq<TargetToken>)
    requires
        forall|k: int| 0 <= k < acc.len() ==> token_fine(#[trigger] acc[k]),
    ensures
        target_list(s, i, acc) matches Some((_, ts)) ==> forall|k: int|
            0 <= k < ts.len() ==> token_fine(#[trigger] ts[k]),
    decreases s.len() - i,
{
    let q = skip(s, i, ByteClass::Space);
    if !(q >= s.len() || q < 0 || s[q] == 10 || s[q] == 35) && q > i {
        if let Some((e, sh)) = target_at(s, q) {
            if q < e <= s.len() {
                let tok = TargetToken { start: q, end: e, shape: sh };
                if !starts_with_rec(s, q) {
                    let j = if s[q] == 33 {
                        q + 1
                    } else {
                        q
                    };
                    lemma_pauli_factors_letters(s, j, seq![]);
                }
                assert(token_fine(tok));
                let acc2 = acc.push(tok);
                assert forall|k: int| 0 <= k < acc2.len() implies token_fine(#[trigger] acc2[k]) by {
                    if k < acc.len() {
                        assert(acc2[k] == acc[k]);
                    }
                }
                lemma_target_list_fine(s, e, acc2);
            }
        }
    }
}

proof fn lemma_pauli_values_letters(s: Seq<u8>, fs: Seq<(u8, int, int)>)
    ensures
        pauli_values(s, fs) matches Some(ps) ==> ps.len() == fs.len() && forall|k: int|
            0 <= k < ps.len() ==> (#[trigger] ps[k]).0 != Pauli::I,
    decreases fs.len(),
{
    if fs.len() > 0 {
        lemma_pauli_values_letters(s, fs.drop_last());
        if let Some(prev) = pauli_values(s, fs.drop_last()) {
            if let Some(v) = number_at(s, fs.last().1, fs.last().2) {
                let all = prev.push((pauli_of(fs.last().0), v));
                assert forall|k: int| 0 <= k < all.len() implies (#[trigger] all[k]).0 != Pauli::I by {
                    if k < prev.len() {
                        assert(all[k] == prev[k]);
                    }
                }
            }
        }
    }
}

proof fn lemma_read_target_list_fits(s: Seq<u8>, g: Gate, ts: Seq<TargetToken>)
    requires
        forall|k: int| 0 <= k < ts.len() ==> token_fine(#[trigger] ts[k]),
    ensures
        read_target_list(s, g, ts) matches Outcome::Done(tv) ==> forall|k: int|
            0 <= k < tv.len() ==> target_fits(g, #[trigger] tv[k]),
    decreases ts.len(),
{
    if ts.len() > 0 {
        let dl = ts.drop_last();
        assert forall|k: int| 0 <= k < dl.len() implies token_fine(#[trigger] dl[k]) by {
            assert(dl[k] == ts[k]);
        }
        lemma_read_target_list_fits(s, g, dl);
        let t = ts.last();
        assert(token_fine(ts[ts.len() - 1]));
        if let TargetShape::Paulis(_, fs) = t.shape {
            lemma_pauli_values_letters(s, fs);
        }
        if let Outcome::Done(prev) = read_target_list(s, g, dl) {
            if let Outcome::Done(x) = read_target(s, g, t) {
                assert(target_fits(g, x));
                let all = prev.push(x);
                assert forall|k: int| 0 <= k < all.len() implies target_fits(g, #[trigger] all[k]) by {
                    if k < prev.len() {
                        assert(all[k] == prev[k]);
                    }
                }
            }
        }
    }
}

/// The targets and argument literals that the reader finds on an instruction line are
/// well shaped.
proof fn lemma_line_head_tokens(s: Seq<u8>, i: int)
    requires
        0 <= i,
    ensures
        line_head(s, i) matches LineHead::Instruction(a, b, args, ts, e) ==> (forall|k: int|
            0 <= k < ts.len() ==> token_fine(#[trigger] ts[k])) && (args matches Some(sp)
            ==> forall|k: int| 0 <= k < sp.len() ==> literal_span(s, #[trigger] sp[k])),
{
    let j = skip(s, i, ByteClass::Space);
    if i <= s.len() {
        crate::stim_parser::lemma_skip(s, i, ByteClass::Space);
    }
    let n = skip(s, j, ByteClass::Name);
    if j <= s.len() {
        crate::stim_parser::lemma_skip(s, j, ByteClass::Name);
    }
    assert(n >= 0);
    lemma_arg_list_literals(s, n + 1, seq![]);
    if let Some((ae, _)) = arg_list(s, n + 1, seq![]) {
        lemma_target_list_fine(s, ae, seq![]);
    }
    lemma_target_list_fine(s, n, seq![]);
}

proof fn lemma_instruction_read_fits(
    s: Seq<u8>,
    a: int,
    b: int,
    args: Option<Seq<(int, int)>>,
    ts: Seq<TargetToken>,
)
    requires
        forall|k: int| 0 <= k < ts.len() ==> token_fine(#[trigger] ts[k]),
        args matches Some(sp) ==> forall|k: int|
            0 <= k < sp.len() ==> literal_span(s, #[trigger] sp[k]),
    ensures
        read_instruction(s, a, b, args, ts) matches Outcome::Done(x) ==> instruction_fits(x),
{
    let g = spec_gate_named(ascii_text(s, a, b));
    if let Some(sp) = args {
        lemma_read_arg_list_fits(s, g, sp);
    }
    lemma_read_target_list_fits(s, g, ts);
    if let Outcome::Done(x) = read_instruction(s, a, b, args, ts) {
        if x.args.len() > 0 {
            assert(arg_fits(g, x.args[0]));
        }
        assert(instruction_fits(x));
    }
}

/// Every circuit that reading lines gives prints as text that reads back as itself.
proof fn lemma_read_lines_printable(s: Seq<u8>, i: int, nested: bool)
    requires
        0 <= i,
    ensures
        read_lines(s, i, nested) matches Outcome::Done((c, _)) ==> printable(c),
    decreases s.len() - i,
{
    if 0 <= i < s.len() {
        match line_head(s, i) {
            LineHead::Empty(e) => if i < e <= s.len() {
                lemma_read_lines_printable(s, e, nested);
            },
            LineHead::Instruction(a, b, args, ts, e) => if i < e <= s.len() {
                lemma_read_lines_printable(s, e, nested);
                lemma_line_head_tokens(s, i);
                lemma_instruction_read_fits(s, a, b, args, ts);
                if let Outcome::Done(x) = read_instruction(s, a, b, args, ts) {
                    if let Outcome::Done((rest, _)) = read_lines(s, e, nested) {
                        lemma_prepend_printable(x, rest);
                    }
                }
            },
            LineHead::Block(a, b, body) => if i < body <= s.len() {
                lemma_read_lines_printable(s, body, true);
                if let Outcome::Done((inner, p)) = read_lines(s, body, true) {
                    if let Some(e) = close_end(s, p) {
                        if i < e <= s.len() {
                            lemma_read_lines_printable(s, e, nested);
                            if let (Some(count), Outcome::Done((rest, _))) = (
                                number_at(s, a, b),
                                read_lines(s, e, nested),
                            ) {
                                let x = repeat_view(count, inner);
                                assert(printable_one(x));
                                lemma_prepend_printable(x, rest);
                            }
                        }
                    }
                }
            },
            _ => {},
        }
    }
}

proof fn lemma_prepend_printable(x: InstructionView, rest: Seq<InstructionView>)
    requires
        printable_one(x),
        printable(rest),
    ensures
        printable(seq![x] + rest),
{
    let c = seq![x] + rest;
    lemma_printable_each(rest);
    lemma_printable_each(c);
    assert forall|k: int| 0 <= k < c.len() implies printable_one(#[trigger] c[k]) by {
        if k > 0 {
            assert(c[k] == rest[k - 1]);
        }
    }
}

/// The text printed for any circuit that reading a text gives reads back as that same
/// circuit.
pub proof fn lemma_parsed_prints_back(s: Seq<u8>)
    ensures
        spec_parse(s) matches Outcome::Done(c) ==> spec_parse(encode_utf8(circuit_text(c)))
            == Outcome::Done(c),
{
    lemma_read_lines_printable(s, 0, false);
    if let Outcome::Done(c) = spec_parse(s) {
        lemma_print_then_read(c);
    }
}

} // verus!
