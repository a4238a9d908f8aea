//! Decimal rendering of integers, as `Display` writes them.
use vstd::prelude::*;
use vstd::string::*;

verus! {

/// The ASCII digit for `d`, which is below ten.
pub open spec fn digit_char(d: nat) -> char {
    if d == 0 {
        '0'
    } else if d == 1 {
        '1'
    } else if d == 2 {
        '2'
    } else if d == 3 {
        '3'
    } else if d == 4 {
        '4'
    } else if d == 5 {
        '5'
    } else if d == 6 {
        '6'
    } else if d == 7 {
        '7'
    } else if d == 8 {
        '8'
    } else {
        '9'
    }
}

/// `n` in decimal, without sign or leading zeros.
pub open spec fn decimal_text(n: nat) -> Seq<char>
    decreases n,
{
    if n < 10 {
        seq![digit_char(n)]
    } else {
        decimal_text(n / 10).push(digit_char(n % 10))
    }
}

fn digit_str(d: u64) -> (s: &'static str)
    requires
        d < 10,
    ensures
        s@ == seq![digit_char(d as nat)],
{
    proof {
        reveal_strlit("0");
        reveal_strlit("1");
        reveal_strlit("2");
        reveal_strlit("3");
        reveal_strlit("4");
        reveal_strlit("5");
        reveal_strlit("6");
        reveal_strlit("7");
        reveal_strlit("8");
        reveal_strlit("9");
    }
    if d == 0 {
        "0"
    } else if d == 1 {
        "1"
    } else if d == 2 {
        "2"
    } else if d == 3 {
        "3"
    } else if d == 4 {
        "4"
    } else if d == 5 {
        "5"
    } else if d == 6 {
        "6"
    } else if d == 7 {
        "7"
    } else if d == 8 {
        "8"
    } else {
        "9"
    }
}

/// Append the decimal digits of `n` to `s`.
pub fn append_decimal(s: &mut String, n: u64)
    ensures
        final(s)@ == old(s)@ + decimal_text(n as nat),
    decreases n,
{
    if n >= 10 {
        append_decimal(s, n / 10);
    }
    s.append(digit_str(n % 10));
    proof {
        if n >= 10 {
            assert(old(s)@ + decimal_text(n as nat) =~= old(s)@ + decimal_text((n / 10) as nat)
                + seq![digit_char((n % 10) as nat)]);
        } else {
            assert(decimal_text(n as nat) =~= seq![digit_char(n as nat)]);
        }
    }
}

/// `n` in decimal, as `n.to_string()` renders it.
pub fn decimal_string(n: u64) -> (s: String)
    ensures
        s@ == decimal_text(n as nat),
{
    let mut s = String::new();
    append_decimal(&mut s, n);
    proof {
        assert(s@ =~= decimal_text(n as nat));
    }
    s
}

/// The lines of `t`: the pieces between `'\n'` characters.
pub open spec fn split_lines(t: Seq<char>) -> Seq<Seq<char>>
    decreases t.len(),
{
    if t.len() == 0 {
        seq![Seq::empty()]
    } else {
        let ls = split_lines(t.drop_last());
        if t.last() == '\n' {
            ls.push(Seq::empty())
        } else {
            ls.update(ls.len() - 1, ls.last().push(t.last()))
        }
    }
}

/// `l` without one trailing carriage return.
pub open spec fn strip_cr(l: Seq<char>) -> Seq<char> {
    if l.len() > 0 && l.last() == '\r' {
        l.drop_last()
    } else {
        l
    }
}

/// The lines of `t` as `str::lines` gives them: split at each `'\n'`, a
/// `'\r'` just before it dropped, and no empty line after a final `'\n'`.
pub open spec fn lines_of(t: Seq<char>) -> Seq<Seq<char>> {
    let pieces = split_lines(t);
    let ended = pieces.drop_last().map_values(|l: Seq<char>| strip_cr(l));
    if pieces.last().len() == 0 {
        ended
    } else {
        ended.push(pieces.last())
    }
}

/// The texts of `v`.
pub open spec fn texts(v: Seq<String>) -> Seq<Seq<char>> {
    v.map_values(|s: String| s@)
}

fn without_cr(l: &str) -> (r: String)
    ensures
        r@ == strip_cr(l@),
{
    let n = l.unicode_len();
    if n > 0 && l.get_char(n - 1) == '\r' {
        String::from_str(l.substring_char(0, n - 1))
    } else {
        String::from_str(l)
    }
}

/// The lines of `t`, as `str::lines` gives them.
pub fn lines(t: &str) -> (r: Vec<String>)
    ensures
        texts(r@) == lines_of(t@),
{
    let n = t.unicode_len();
    let mut out: Vec<String> = Vec::new();
    let mut start: usize = 0;
    let mut i: usize = 0;
    let ghost mut done: Seq<Seq<char>> = Seq::empty();
    proof {
        assert(t@.take(0) =~= Seq::<char>::empty());
        assert(t@.subrange(0, 0) =~= Seq::<char>::empty());
        assert(split_lines(t@.take(0)) =~= done.push(t@.subrange(0, 0)));
        assert(texts(out@) =~= done.map_values(|l: Seq<char>| strip_cr(l)));
    }
    while i < n
        invariant
            n == t@.len(),
            start <= i <= n,
            split_lines(t@.take(i as int)) == done.push(t@.subrange(start as int, i as int)),
            texts(out@) == done.map_values(|l: Seq<char>| strip_cr(l)),
        decreases n - i,
    {
        proof {
            assert(t@.take(i + 1).drop_last() =~= t@.take(i as int));
        }
        if t.get_char(i) == '\n' {
            let line = t.substring_char(start, i);
            let ghost d2 = done.push(line@);
            let ghost old_out = out@;
            let l = without_cr(line);
            let ghost lv = l@;
            out.push(l);
            proof {
                assert(out@ == old_out.push(l));
                assert(texts(old_out).len() == done.len());
                assert(d2.drop_last() =~= done);
                assert(lv == strip_cr(line@));
                assert forall|k: int| 0 <= k < d2.len() implies #[trigger] texts(out@)[k]
                    == strip_cr(d2[k]) by {
                    if k < done.len() {
                        assert(texts(old_out)[k] == strip_cr(done[k]));
                    }
                }
                assert(texts(out@) =~= d2.map_values(|l: Seq<char>| strip_cr(l)));
                assert(t@.subrange((i + 1) as int, (i + 1) as int) =~= Seq::<char>::empty());
                done = d2;
            }
            start = i + 1;
        } else {
            proof {
                assert(t@.subrange(start as int, i + 1) =~= t@.subrange(start as int, i as int).push(
                    t@[i as int],
                ));
            }
        }
        i = i + 1;
    }
    let last = t.substring_char(start, n);
    proof {
        assert(t@.take(n as int) =~= t@);
        assert(done.push(last@).drop_last() =~= done);
    }
    if last.unicode_len() > 0 {
        out.push(String::from_str(last));
        proof {
            assert(texts(out@) =~= done.map_values(|l: Seq<char>| strip_cr(l)).push(last@));
        }
    }
    out
}

/// The number that the decimal digits `d` spell.
pub open spec fn digits_value(d: Seq<char>) -> int
    decreases d.len(),
{
    if d.len() == 0 {
        0
    } else {
        10 * digits_value(d.drop_last()) + (d.last() as int - '0' as int)
    }
}

/// Whether `d` is one or more ASCII decimal digits.
pub open spec fn all_digits(d: Seq<char>) -> bool {
    d.len() > 0 && forall|i: int| 0 <= i < d.len() ==> '0' <= #[trigger] d[i] <= '9'
}

/// What `str::parse::<usize>` makes of `s`: an optional `+`, then one or
/// more ASCII digits whose value fits a `usize`.
pub open spec fn usize_from_text(s: Seq<char>) -> Option<usize> {
    let digits = if s.len() > 0 && s[0] == '+' {
        s.drop_first()
    } else {
        s
    };
    if all_digits(digits) && digits_value(digits) <= usize::MAX {
        Some(digits_value(digits) as usize)
    } else {
        None
    }
}

pub(crate) proof fn lemma_digits_value_nonneg(d: Seq<char>)
    requires
        forall|i: int| 0 <= i < d.len() ==> '0' <= #[trigger] d[i] <= '9',
    ensures
        digits_value(d) >= 0,
    decreases d.len(),
{
    if d.len() > 0 {
        lemma_digits_value_nonneg(d.drop_last());
    }
}

/// `str::parse::<usize>`, with the error dropped.
pub fn parse_usize(s: &str) -> (r: Option<usize>)
    ensures
        r == usize_from_text(s@),
{
    let n = s.unicode_len();
    let first: usize = if n > 0 && s.get_char(0) == '+' {
        1
    } else {
        0
    };
    let ghost digits = if s@.len() > 0 && s@[0] == '+' {
        s@.drop_first()
    } else {
        s@
    };
    proof {
        assert(digits =~= s@.subrange(first as int, n as int));
    }
    if first == n {
        return None;
    }
    let mut value: usize = 0;
    let mut i: usize = first;
    proof {
        assert(s@.subrange(first as int, first as int) =~= Seq::<char>::empty());
    }
    while i < n
        invariant
            n == s@.len(),
            first <= i <= n,
            digits =~= s@.subrange(first as int, n as int),
            digits == (if s@.len() > 0 && s@[0] == '+' {
                s@.drop_first()
            } else {
                s@
            }),
            value == digits_value(s@.subrange(first as int, i as int)),
            forall|j: int| first <= j < i ==> '0' <= #[trigger] s@[j] <= '9',
        decreases n - i,
    {
        let c = s.get_char(i);
        proof {
            assert(s@.subrange(first as int, i + 1).drop_last() =~= s@.subrange(
                first as int,
                i as int,
            ));
        }
        if c < '0' || c > '9' {
            proof {
                assert(digits[i - first] == c);
                assert(!all_digits(digits));
            }
            return None;
        }
        let d = (c as u32 - '0' as u32) as usize;
        proof {
            assert(digits.take(i + 1 - first) =~= s@.subrange(first as int, i + 1));
            assert(digits_value(s@.subrange(first as int, i + 1)) == 10 * value + d);
        }
        match value.checked_mul(10) {
            None => {
                proof {
                    lemma_overflow(digits, (i - first) as nat);
                    assert(!(all_digits(digits) && digits_value(digits) <= usize::MAX));
                }
                return None;
            },
            Some(v10) => match v10.checked_add(d) {
                None => {
                    proof {
                        lemma_overflow(digits, (i - first) as nat);
                    }
                    return None;
                },
                Some(v) => {
                    value = v;
                },
            },
        }
        i = i + 1;
    }
    proof {
        assert(s@.subrange(first as int, n as int) =~= digits);
    }
    Some(value)
}

/// Digits whose first `k + 1` are already worth more than a `usize` holds
/// do not parse.
proof fn lemma_overflow(d: Seq<char>, k: nat)
    requires
        k < d.len(),
        digits_value(d.take(k + 1 as int)) > usize::MAX,
    ensures
        !(all_digits(d) && digits_value(d) <= usize::MAX),
{
    if all_digits(d) {
        lemma_prefix_value_le(d, k + 1);
    }
}

/// A number's digits are worth at least what any prefix of them is.
pub(crate) proof fn lemma_prefix_value_le(d: Seq<char>, k: nat)
    requires
        k <= d.len(),
        forall|i: int| 0 <= i < d.len() ==> '0' <= #[trigger] d[i] <= '9',
    ensures
        digits_value(d) >= digits_value(d.take(k as int)),
    decreases d.len() - k,
{
    if k < d.len() {
        lemma_prefix_value_le(d, k + 1);
        assert(d.take(k + 1 as int).drop_last() =~= d.take(k as int));
        lemma_digits_value_nonneg(d.take(k as int));
        assert('0' <= d.take(k + 1 as int).last() <= '9');
    } else {
        assert(d.take(k as int) =~= d);
    }
}

/// `ls` written out, each line followed by `'\n'`.
pub open spec fn joined(ls: Seq<Seq<char>>) -> Seq<char>
    decreases ls.len(),
{
    if ls.len() == 0 {
        Seq::empty()
    } else {
        joined(ls.drop_last()) + ls.last().push('\n')
    }
}

/// Whether `l` holds no `'\n'`.
pub open spec fn one_line(l: Seq<char>) -> bool {
    forall|i: int| 0 <= i < l.len() ==> l[i] != '\n'
}

proof fn lemma_split_lines_len(t: Seq<char>)
    ensures
        split_lines(t).len() >= 1,
    decreases t.len(),
{
    if t.len() > 0 {
        lemma_split_lines_len(t.drop_last());
    }
}

/// Text after one that ends a line splits on its own.
proof fn lemma_split_lines_concat(a: Seq<char>, b: Seq<char>)
    requires
        split_lines(a).last().len() == 0,
    ensures
        split_lines(a + b) == split_lines(a).drop_last() + split_lines(b),
    decreases b.len(),
{
    lemma_split_lines_len(a);
    lemma_split_lines_len(b);
    if b.len() == 0 {
        assert(a + b =~= a);
        assert(split_lines(a).last() =~= Seq::<char>::empty());
        assert(split_lines(a).drop_last() + split_lines(b) =~= split_lines(a));
    } else {
        let b1 = b.drop_last();
        lemma_split_lines_concat(a, b1);
        lemma_split_lines_len(b1);
        assert((a + b).drop_last() =~= a + b1);
        assert((a + b).last() == b.last());
        let p = split_lines(a).drop_last();
        if b.last() == '\n' {
            assert(split_lines(a + b) =~= p + split_lines(b));
        } else {
            let s1 = split_lines(b1);
            assert((p + s1).last() == s1.last());
            assert(split_lines(a + b) =~= p + split_lines(b));
        }
    }
}

/// A text without line breaks is one line.
proof fn lemma_split_one_line(l: Seq<char>)
    requires
        one_line(l),
    ensures
        split_lines(l) == seq![l],
    decreases l.len(),
{
    if l.len() > 0 {
        lemma_split_one_line(l.drop_last());
        assert(l.drop_last().push(l.last()) =~= l);
        assert(seq![l.drop_last()].update(0, l.drop_last().push(l.last())) =~= seq![l]);
    } else {
        assert(l =~= Seq::<char>::empty());
    }
}

/// Lines written out and read back with `str::lines` come back, each
/// without a trailing carriage return.
pub proof fn lemma_lines_of_joined(ls: Seq<Seq<char>>)
    requires
        forall|i: int| 0 <= i < ls.len() ==> one_line(#[trigger] ls[i]),
    ensures
        lines_of(joined(ls)) == ls.map_values(|l: Seq<char>| strip_cr(l)),
{
    lemma_split_joined(ls);
    let pieces = split_lines(joined(ls));
    assert(pieces.drop_last() =~= ls);
}

proof fn lemma_split_joined(ls: Seq<Seq<char>>)
    requires
        forall|i: int| 0 <= i < ls.len() ==> one_line(#[trigger] ls[i]),
    ensures
        split_lines(joined(ls)) == ls.push(Seq::<char>::empty()),
    decreases ls.len(),
{
    if ls.len() == 0 {
    } else {
        let prev = ls.drop_last();
        let l = ls.last();
        assert forall|i: int| 0 <= i < prev.len() implies one_line(#[trigger] prev[i]) by {
            assert(prev[i] == ls[i]);
        }
        lemma_split_joined(prev);
        assert(one_line(ls[ls.len() - 1]));
        lemma_split_one_line(l);
        assert(l.push('\n').drop_last() =~= l);
        assert(split_lines(l.push('\n')) =~= seq![l, Seq::<char>::empty()]);
        lemma_split_lines_concat(joined(prev), l.push('\n'));
        assert(split_lines(joined(ls)) =~= ls.push(Seq::<char>::empty()));
    }
}

/// Writing one more line adds it at the end.
pub proof fn lemma_joined_push(ls: Seq<Seq<char>>, l: Seq<char>)
    ensures
        joined(ls.push(l)) == joined(ls) + l.push('\n'),
{
    assert(ls.push(l).drop_last() =~= ls);
}

proof fn lemma_digit_char(d: nat)
    requires
        d < 10,
    ensures
        '0' <= digit_char(d) <= '9',
        digit_char(d) as int - '0' as int == d,
{
}

/// A number written in decimal is one or more digits, worth the number.
pub proof fn lemma_decimal_digits(n: nat)
    ensures
        all_digits(decimal_text(n)),
        digits_value(decimal_text(n)) == n,
    decreases n,
{
    lemma_digit_char(n % 10);
    if n >= 10 {
        lemma_decimal_digits(n / 10);
        let d = decimal_text(n);
        assert(d.drop_last() =~= decimal_text(n / 10));
        assert forall|i: int| 0 <= i < d.len() implies '0' <= #[trigger] d[i] <= '9' by {
            if i < d.len() - 1 {
                assert(d[i] == decimal_text(n / 10)[i]);
            }
        }
        assert(d.last() == digit_char(n % 10));
        assert(digits_value(d.drop_last()) == n / 10);
        assert(d.last() as int - '0' as int == n % 10);
        assert(digits_value(d) == 10 * digits_value(d.drop_last()) + (d.last() as int - '0' as int));
        assert(n == 10 * (n / 10) + n % 10);
    } else {
        assert(decimal_text(n).drop_last() =~= Seq::<char>::empty());
        assert(digits_value(decimal_text(n).drop_last()) == 0);
        assert(decimal_text(n).last() == digit_char(n));
    }
}

/// A `usize` written in decimal parses back to itself.
pub proof fn lemma_parse_decimal(n: usize)
    ensures
        usize_from_text(decimal_text(n as nat)) == Some(n),
{
    lemma_decimal_digits(n as nat);
    let d = decimal_text(n as nat);
    assert('0' <= d[0] <= '9');
}

} // verus!
