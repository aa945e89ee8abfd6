//! Strings as sequences of characters: joining, splitting, decimal numbers,
//! ASCII case folding and the lexicographic order.

use vstd::prelude::*;
use vstd::string::StrSliceExecFns;
use vstd::string::StringExecFns;

verus! {

/// `parts` with `sep` between each two neighbours.
pub open spec fn join(parts: Seq<Seq<char>>, sep: Seq<char>) -> Seq<char>
    decreases parts.len(),
{
    if parts.len() == 0 {
        Seq::empty()
    } else if parts.len() == 1 {
        parts[0]
    } else {
        join(parts.drop_last(), sep) + sep + parts.last()
    }
}

/// Joining one more part appends the separator and the part.
pub proof fn lemma_join_push(parts: Seq<Seq<char>>, sep: Seq<char>, p: Seq<char>)
    requires
        parts.len() > 0,
    ensures
        join(parts.push(p), sep) == join(parts, sep) + sep + p,
{
    assert(parts.push(p).drop_last() =~= parts);
}

/// The character of the decimal digit `d`.
pub open spec fn digit_char(d: nat) -> char {
    if d == 0 {
        '0'
    } else if d == 1 {
        '1'
    } else if d == 2 {
        '2'
    } else if d == 3 {
        '3'
    } else if d == 4 {
        '4'
    } else if d == 5 {
        '5'
    } else if d == 6 {
        '6'
    } else if d == 7 {
        '7'
    } else if d == 8 {
        '8'
    } else {
        '9'
    }
}

/// The decimal notation of `n`, without leading zeroes.
pub open spec fn decimal(n: nat) -> Seq<char>
    decreases n,
{
    if n < 10 {
        seq![digit_char(n)]
    } else {
        decimal(n / 10).push(digit_char(n % 10))
    }
}

/// The value of the digit character `c`.
pub open spec fn digit_value(c: char) -> int {
    (c as int) - ('0' as int)
}

/// The number that the decimal digits `s` stand for.
pub open spec fn decimal_value(s: Seq<char>) -> int
    decreases s.len(),
{
    if s.len() == 0 {
        0
    } else {
        decimal_value(s.drop_last()) * 10 + digit_value(s.last())
    }
}

/// Decimal notation is read back as the number it was written from, and
/// consists of digits only.
pub proof fn lemma_decimal_value(n: nat)
    ensures
        decimal_value(decimal(n)) == n,
        decimal(n).len() > 0,
        forall|i: int| 0 <= i < decimal(n).len() ==> '0' <= #[trigger] decimal(n)[i] <= '9',
    decreases n,
{
    if n >= 10 {
        lemma_decimal_value(n / 10);
        assert(decimal(n).drop_last() =~= decimal(n / 10));
        lemma_digit_value((n % 10) as nat);
        assert(decimal(n).last() == digit_char((n % 10) as nat));
        assert(decimal_value(decimal(n)) == decimal_value(decimal(n / 10)) * 10 + (n % 10));
        assert((n / 10) * 10 + (n % 10) == n);
    } else {
        assert(decimal(n) == seq![digit_char(n)]);
        assert(decimal(n).drop_last() =~= Seq::<char>::empty());
        assert(decimal_value(Seq::<char>::empty()) == 0);
        lemma_digit_value(n);
        assert(decimal(n).last() == digit_char(n));
    }
}

proof fn lemma_digit_value(d: nat)
    requires
        d < 10,
    ensures
        digit_value(digit_char(d)) == d,
        '0' <= digit_char(d) <= '9',
{
}

fn digit_str(d: u64) -> (s: &'static str)
    requires
        d < 10,
    ensures
        s@ == seq![digit_char(d as nat)],
{
    proof {
        reveal_strlit("0");
        reveal_strlit("1");
        reveal_strlit("2");
        reveal_strlit("3");
        reveal_strlit("4");
        reveal_strlit("5");
        reveal_strlit("6");
        reveal_strlit("7");
        reveal_strlit("8");
        reveal_strlit("9");
    }
    match d {
        0 => "0",
        1 => "1",
        2 => "2",
        3 => "3",
        4 => "4",
        5 => "5",
        6 => "6",
        7 => "7",
        8 => "8",
        _ => "9",
    }
}

/// Appends the decimal notation of `n` to `out`.
pub fn push_decimal(out: &mut String, n: u64)
    ensures
        final(out)@ == old(out)@ + decimal(n as nat),
{
    // least significant digit first
    let mut digits: Vec<u64> = Vec::new();
    digits.push(n % 10);
    let mut m: u64 = n / 10;
    proof {
        if n >= 10 {
            assert(decimal(n as nat) =~= decimal((n / 10) as nat).push(digit_char((n % 10) as nat)));
        }
        assert(digits@.reverse() =~= seq![n % 10]);
    }
    while m > 0
        invariant
            m <= n,
            forall|i: int| 0 <= i < digits.len() ==> #[trigger] digits[i] < 10,
            digits.len() > 0,
            m > 0 ==> decimal(n as nat) =~= decimal(m as nat) + digits@.reverse().map_values(
                |d: u64| digit_char(d as nat),
            ),
            m == 0 ==> decimal(n as nat) =~= digits@.reverse().map_values(
                |d: u64| digit_char(d as nat),
            ),
        decreases m,
    {
        let ghost old_digits = digits@;
        let d = m % 10;
        digits.push(d);
        proof {
            assert(digits@.reverse() =~= seq![d].add(old_digits.reverse()));
            if m >= 10 {
                assert(decimal(m as nat) =~= decimal((m / 10) as nat).push(digit_char(d as nat)));
            }
        }
        m = m / 10;
    }
    let ghost start = out@;
    let mut k: usize = digits.len();
    while k > 0
        invariant
            k <= digits.len(),
            forall|i: int| 0 <= i < digits.len() ==> #[trigger] digits[i] < 10,
            decimal(n as nat) =~= digits@.reverse().map_values(|d: u64| digit_char(d as nat)),
            out@ =~= start + digits@.subrange(k as int, digits.len() as int).reverse().map_values(
                |d: u64| digit_char(d as nat),
            ),
        decreases k,
    {
        k = k - 1;
        let s = digit_str(digits[k]);
        out.append(s);
        proof {
            assert(digits@.subrange(k as int, digits.len() as int).reverse() =~= digits@.subrange(
                k + 1,
                digits.len() as int,
            ).reverse().push(digits[k as int]));
        }
    }
    proof {
        assert(digits@.subrange(0, digits.len() as int) =~= digits@);
    }
}

/// `c` with an ASCII capital letter replaced by its lower-case letter.
pub open spec fn ascii_lower(c: char) -> char {
    if 'A' <= c <= 'Z' {
        ((c as u32) + 32) as char
    } else {
        c
    }
}

/// `a` and `b` are equal once ASCII letters are compared without regard to case.
pub open spec fn eq_ignore_ascii_case(a: Seq<char>, b: Seq<char>) -> bool {
    &&& a.len() == b.len()
    &&& forall|i: int| 0 <= i < a.len() ==> ascii_lower(#[trigger] a[i]) == ascii_lower(b[i])
}

/// The pieces of `s` between the occurrences of `sep`, in order (as `str::split`
/// yields them: there is always at least one, possibly empty, piece).
pub open spec fn split_on(s: Seq<char>, sep: char) -> Seq<Seq<char>>
    decreases s.len(),
{
    if s.len() == 0 {
        seq![Seq::<char>::empty()]
    } else {
        let pieces = split_on(s.drop_last(), sep);
        if s.last() == sep {
            pieces.push(Seq::<char>::empty())
        } else {
            pieces.update(pieces.len() - 1, pieces.last().push(s.last()))
        }
    }
}

/// Splitting gives at least one piece, no piece holds the separator, and the
/// pieces joined by the separator give back the string.
pub proof fn lemma_split_on(s: Seq<char>, sep: char)
    ensures
        split_on(s, sep).len() >= 1,
        forall|i: int| 0 <= i < split_on(s, sep).len() ==> !(#[trigger] split_on(s, sep)[i]).contains(sep),
        join(split_on(s, sep), seq![sep]) == s,
    decreases s.len(),
{
    if s.len() > 0 {
        let prev = split_on(s.drop_last(), sep);
        lemma_split_on(s.drop_last(), sep);
        let pieces = split_on(s, sep);
        if s.last() == sep {
            lemma_join_push(prev, seq![sep], Seq::<char>::empty());
            assert(pieces[pieces.len() - 1] =~= Seq::<char>::empty());
            assert forall|i: int| 0 <= i < pieces.len() implies !(#[trigger] pieces[i]).contains(sep) by {
                if i < prev.len() {
                    assert(pieces[i] == prev[i]);
                }
            }
            assert(s.drop_last() + seq![sep] + Seq::<char>::empty() =~= s);
        } else {
            let last = prev.last().push(s.last());
            assert forall|i: int| 0 <= i < pieces.len() implies !(#[trigger] pieces[i]).contains(sep) by {
                if i < prev.len() - 1 {
                    assert(pieces[i] == prev[i]);
                } else {
                    assert(pieces[i] == last);
                    assert(!prev[prev.len() - 1].contains(sep));
                    if last.contains(sep) {
                        let k = choose|k: int| 0 <= k < last.len() && last[k] == sep;
                        if k < last.len() - 1 {
                            assert(prev.last()[k] == sep);
                        }
                    }
                }
            }
            if prev.len() == 1 {
                assert(pieces =~= seq![last]);
                assert(prev =~= seq![prev[0]]);
                assert(s =~= s.drop_last().push(s.last()));
            } else {
                let init = prev.drop_last();
                assert(pieces =~= init.push(last));
                assert(prev =~= init.push(prev.last()));
                lemma_join_push(init, seq![sep], last);
                lemma_join_push(init, seq![sep], prev.last());
                assert(join(pieces, seq![sep]) =~= join(init, seq![sep]) + seq![sep] + prev.last()
                    + seq![s.last()]);
                assert(s =~= s.drop_last().push(s.last()));
            }
        }
    }
}

/// The pieces of `s` between the occurrences of `sep`.
pub fn split_on_char(s: &str, sep: char) -> (pieces: Vec<String>)
    ensures
        pieces.deep_view() == split_on(s@, sep),
{
    let n = s.unicode_len();
    let mut pieces: Vec<String> = Vec::new();
    let mut start: usize = 0;
    let mut i: usize = 0;
    proof {
        assert(s@.take(0) =~= Seq::<char>::empty());
        assert(s@.subrange(0, 0) =~= Seq::<char>::empty());
        assert(pieces.deep_view().push(s@.subrange(0, 0)) =~= seq![Seq::<char>::empty()]);
    }
    while i < n
        invariant
            n == s@.len(),
            start <= i <= n,
            split_on(s@.take(i as int), sep) =~= pieces.deep_view().push(
                s@.subrange(start as int, i as int),
            ),
        decreases n - i,
    {
        let c = s.get_char(i);
        let ghost before = pieces.deep_view();
        proof {
            assert(s@.take(i + 1).drop_last() =~= s@.take(i as int));
            assert(s@.take(i + 1).last() == c);
        }
        if c == sep {
            let piece = s.substring_char(start, i).to_owned();
            let ghost piece_view = piece@;
            pieces.push(piece);
            start = i + 1;
            proof {
                assert(pieces.deep_view() =~= before.push(piece_view));
                assert(s@.subrange(start as int, i + 1) =~= Seq::<char>::empty());
            }
        } else {
            proof {
                assert(s@.subrange(start as int, i + 1) =~= s@.subrange(start as int, i as int).push(c));
            }
        }
        i = i + 1;
    }
    let last = s.substring_char(start, n).to_owned();
    pieces.push(last);
    proof {
        assert(s@.take(n as int) =~= s@);
    }
    pieces
}

/// `a` comes strictly before `b` in the lexicographic order of characters.
pub open spec fn lex_lt(a: Seq<char>, b: Seq<char>) -> bool
    decreases a.len(),
{
    if a.len() == 0 {
        b.len() > 0
    } else if b.len() == 0 {
        false
    } else if a[0] != b[0] {
        (a[0] as int) < (b[0] as int)
    } else {
        lex_lt(a.drop_first(), b.drop_first())
    }
}

/// The lexicographic order is irreflexive, asymmetric and total.
pub proof fn lemma_lex_total(a: Seq<char>, b: Seq<char>)
    ensures
        !lex_lt(a, a),
        lex_lt(a, b) ==> !lex_lt(b, a),
        a != b ==> lex_lt(a, b) || lex_lt(b, a),
    decreases a.len(),
{
    if a.len() == 0 {
        if b.len() == 0 {
            assert(a =~= b);
        }
    } else if b.len() > 0 {
        lemma_lex_total(a.drop_first(), b.drop_first());
        lemma_lex_total(a.drop_first(), a.drop_first());
        if a[0] == b[0] {
            if a.drop_first() =~= b.drop_first() {
                assert(a =~= seq![a[0]] + a.drop_first());
                assert(b =~= seq![b[0]] + b.drop_first());
            }
            assert(lex_lt(a, b) == lex_lt(a.drop_first(), b.drop_first()));
            assert(lex_lt(b, a) == lex_lt(b.drop_first(), a.drop_first()));
        } else {
            assert((a[0] as int) != (b[0] as int));
        }
    } else {
        lemma_lex_total(a.drop_first(), a.drop_first());
    }
}

/// The lexicographic order is transitive.
pub proof fn lemma_lex_transitive(a: Seq<char>, b: Seq<char>, c: Seq<char>)
    requires
        lex_lt(a, b),
        lex_lt(b, c),
    ensures
        lex_lt(a, c),
    decreases a.len(),
{
    if a.len() > 0 && b.len() > 0 && c.len() > 0 && a[0] == b[0] && b[0] == c[0] {
        lemma_lex_transitive(a.drop_first(), b.drop_first(), c.drop_first());
    }
}

/// Whether `a` comes strictly before `b` in the lexicographic order of characters.
pub fn lex_less(a: &str, b: &str) -> (res: bool)
    ensures
        res == lex_lt(a@, b@),
{
    let na = a.unicode_len();
    let nb = b.unicode_len();
    let mut i: usize = 0;
    proof {
        assert(a@.skip(0) =~= a@);
        assert(b@.skip(0) =~= b@);
    }
    while i < na && i < nb
        invariant
            na == a@.len(),
            nb == b@.len(),
            i <= na,
            i <= nb,
            lex_lt(a@, b@) == lex_lt(a@.skip(i as int), b@.skip(i as int)),
        decreases na - i,
    {
        let ca = a.get_char(i);
        let cb = b.get_char(i);
        if ca != cb {
            return (ca as u32) < (cb as u32);
        }
        proof {
            assert(a@.skip(i as int).drop_first() =~= a@.skip(i + 1));
            assert(b@.skip(i as int).drop_first() =~= b@.skip(i + 1));
        }
        i = i + 1;
    }
    i < nb
}

} // verus!
