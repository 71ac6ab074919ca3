//! Building text: decimal numerals, line splitting and indentation, and turning
//! sequences of characters into `String`s.
use vstd::prelude::*;
use vstd::string::StrSliceExecFns;

verus! {

/// `String::push` appends one character to the end of the string (as std documents).
pub assume_specification[ String::push ](s: &mut String, ch: char)
    ensures
        final(s)@ == old(s)@.push(ch),
;

/// The character of a decimal digit.
pub open spec fn digit_char(d: nat) -> char {
    (d + 48) as char
}

/// The decimal numeral of `n`, without sign or leading zeros.
pub open spec fn decimal_chars(n: nat) -> Seq<char>
    decreases n,
{
    if n < 10 {
        seq![digit_char(n)]
    } else {
        decimal_chars(n / 10).push(digit_char(n % 10))
    }
}

/// Appends the characters of `s` to `out`.
pub fn push_str(out: &mut Vec<char>, s: &str)
    ensures
        final(out)@ == old(out)@ + s@,
{
    let n = s.unicode_len();
    let mut i: usize = 0;
    while i < n
        invariant
            n == s@.len(),
            i <= n,
            out@ == old(out)@ + s@.take(i as int),
        decreases n - i,
    {
        out.push(s.get_char(i));
        i = i + 1;
        assert(s@.take(i as int) =~= s@.take((i - 1) as int).push(s@[i - 1]));
    }
    assert(s@.take(n as int) =~= s@);
}

/// Appends the decimal numeral of `n` to `out`.
pub fn push_decimal(out: &mut Vec<char>, n: usize)
    ensures
        final(out)@ == old(out)@ + decimal_chars(n as nat),
    decreases n,
{
    if n >= 10 {
        push_decimal(out, n / 10);
    }
    let d: u8 = (n % 10) as u8;
    let c = (d + 48u8) as char;
    assert(c == digit_char((n % 10) as nat));
    out.push(c);
    assert(decimal_chars(n as nat) == if n < 10 {
        seq![digit_char(n as nat)]
    } else {
        decimal_chars((n / 10) as nat).push(digit_char((n % 10) as nat))
    });
}

/// A `String` holding exactly the characters of `v`.
pub fn chars_to_string(v: &Vec<char>) -> (s: String)
    ensures
        s@ == v@,
{
    let mut s = String::new();
    let mut i: usize = 0;
    while i < v.len()
        invariant
            i <= v@.len(),
            s@ == v@.take(i as int),
        decreases v@.len() - i,
    {
        s.push(v[i]);
        i = i + 1;
        assert(v@.take(i as int) =~= v@.take((i - 1) as int).push(v@[i - 1]));
    }
    assert(v@.take(v@.len() as int) =~= v@);
    s
}

/// The position of the first line feed at or after `i`, or the length of `t` if there is none.
pub open spec fn next_newline(t: Seq<char>, i: int) -> int
    decreases t.len() - i,
{
    if i >= t.len() || i < 0 {
        t.len() as int
    } else if t[i] == '\n' {
        i
    } else {
        next_newline(t, i + 1)
    }
}

/// The lines of `t` as `str::lines` gives them: the text is cut at each line feed,
/// a carriage return just before a line feed is dropped, and a final line feed does
/// not start one more (empty) line.
pub open spec fn lines_of(t: Seq<char>) -> Seq<Seq<char>>
    decreases t.len(),
{
    if t.len() == 0 {
        seq![]
    } else {
        let k = next_newline(t, 0);
        proof {
            lemma_next_newline_bounds(t, 0);
        }
        if k >= t.len() {
            seq![t]
        } else {
            let line = t.take(k);
            let line = if line.len() > 0 && line.last() == '\r' {
                line.drop_last()
            } else {
                line
            };
            seq![line] + lines_of(t.skip(k + 1))
        }
    }
}

/// Each line of `ls`, preceded by four spaces and followed by a line feed.
pub open spec fn indented(ls: Seq<Seq<char>>) -> Seq<char>
    decreases ls.len(),
{
    if ls.len() == 0 {
        seq![]
    } else {
        seq![' ', ' ', ' ', ' '] + ls[0] + seq!['\n'] + indented(ls.drop_first())
    }
}

/// Where the next line feed lies.
pub proof fn lemma_next_newline_bounds(t: Seq<char>, i: int)
    requires
        0 <= i <= t.len(),
    ensures
        i <= next_newline(t, i) <= t.len(),
        next_newline(t, i) < t.len() ==> t[next_newline(t, i)] == '\n',
        forall|j: int| i <= j < next_newline(t, i) ==> t[j] != '\n',
    decreases t.len() - i,
{
    if i < t.len() && t[i] != '\n' {
        lemma_next_newline_bounds(t, i + 1);
    }
}

/// Appends the lines of `t`, each indented by four spaces and ended by a line feed.
pub fn push_indented(out: &mut Vec<char>, t: &Vec<char>)
    ensures
        final(out)@ == old(out)@ + indented(lines_of(t@)),
{
    let n = t.len();
    let mut start: usize = 0;
    assert(t@.skip(0) =~= t@);
    while start < n
        invariant
            n == t@.len(),
            start <= n,
            old(out)@ + indented(lines_of(t@)) == out@ + indented(lines_of(t@.skip(start as int))),
        decreases n - start,
    {
        let ghost rest = t@.skip(start as int);
        let mut k: usize = start;
        while k < n && t[k] != '\n'
            invariant
                start <= k <= n,
                n == t@.len(),
                forall|j: int| start <= j < k ==> t@[j] != '\n',
            decreases n - k,
        {
            k = k + 1;
        }
        proof {
            lemma_next_newline_bounds(rest, 0);
            assert forall|j: int| 0 <= j < k - start implies rest[j] != '\n' by {
                assert(rest[j] == t@[start + j]);
            }
            if next_newline(rest, 0) < k - start {
                assert(rest[next_newline(rest, 0)] == t@[start + next_newline(rest, 0)]);
            }
            if k < n {
                assert(rest[k - start] == '\n');
                assert(!(k - start < next_newline(rest, 0)));
            }
            assert(next_newline(rest, 0) == k - start);
        }
        let mut end: usize = k;
        if k < n && k > start && t[k - 1] == '\r' {
            end = k - 1;
        }
        out.push(' ');
        out.push(' ');
        out.push(' ');
        out.push(' ');
        let mut j: usize = start;
        let ghost before = out@;
        while j < end
            invariant
                start <= j <= end <= n,
                n == t@.len(),
                out@ == before + t@.subrange(start as int, j as int),
            decreases end - j,
        {
            out.push(t[j]);
            j = j + 1;
            assert(t@.subrange(start as int, j as int) =~= t@.subrange(start as int, j - 1).push(
                t@[j - 1],
            ));
        }
        out.push('\n');
        proof {
            let line = if k < n {
                let l = rest.take(k - start);
                if l.len() > 0 && l.last() == '\r' {
                    l.drop_last()
                } else {
                    l
                }
            } else {
                rest
            };
            assert(line =~= t@.subrange(start as int, end as int));
            if k < n {
                assert(rest.skip(k - start + 1) =~= t@.skip(k + 1));
                let ls = lines_of(rest);
                assert(ls == seq![line] + lines_of(t@.skip(k + 1)));
                assert(ls[0] == line);
                assert(ls.drop_first() =~= lines_of(t@.skip(k + 1)));
                assert(indented(lines_of(rest)) =~= seq![' ', ' ', ' ', ' '] + line + seq!['\n']
                    + indented(lines_of(t@.skip(k + 1))));
            } else {
                assert(t@.skip(n as int) =~= Seq::<char>::empty());
                let ls = lines_of(rest);
                assert(ls == seq![line]);
                assert(ls[0] == line);
                assert(ls.drop_first() =~= Seq::<Seq<char>>::empty());
                assert(indented(ls.drop_first()) =~= Seq::<char>::empty());
                assert(indented(lines_of(rest)) =~= seq![' ', ' ', ' ', ' '] + line + seq!['\n']);
            }
        }
        if k < n {
            start = k + 1;
        } else {
            start = n;
        }
    }
    assert(t@.skip(n as int) =~= Seq::<char>::empty());
}

} // verus!
