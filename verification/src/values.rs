//! Parsing of CSS declaration value text into plain scalar values.
//!
//! Values reach the engine as raw text (for example `10px`, `.5px`, `red`,
//! `#ff0000`, `rgb(255, 0, 0)`, `var(--name)`). The functions here turn that
//! text into integers and colors; every function is specified exactly by a
//! companion `spec` function over the character sequence.

use vstd::prelude::*;

use crate::properties::Color;

verus! {

/// CSS whitespace.
pub open spec fn is_ws(c: char) -> bool {
    c == ' ' || c == '\t' || c == '\n' || c == '\r' || c == '\u{c}'
}

/// Whether `c` is an ASCII decimal digit.
pub open spec fn is_digit(c: char) -> bool {
    '0' as int <= c as int && c as int <= '9' as int
}

/// Numeric value of a decimal digit.
pub open spec fn digit_val(c: char) -> int {
    c as int - '0' as int
}

/// Whether `c` is an ASCII hexadecimal digit.
pub open spec fn is_hex_digit(c: char) -> bool {
    is_digit(c) || ('a' as int <= c as int && c as int <= 'f' as int) || ('A' as int <= c as int
        && c as int <= 'F' as int)
}

/// Numeric value of a hexadecimal digit.
pub open spec fn hex_val(c: char) -> int {
    if is_digit(c) {
        c as int - '0' as int
    } else if 'a' as int <= c as int && c as int <= 'f' as int {
        c as int - 'a' as int + 10
    } else {
        c as int - 'A' as int + 10
    }
}

/// Characters that may appear in a CSS identifier (ASCII subset).
pub open spec fn is_ident_char(c: char) -> bool {
    is_digit(c) || ('a' as int <= c as int && c as int <= 'z' as int) || ('A' as int <= c as int
        && c as int <= 'Z' as int) || c == '_' || c == '-'
}

/// Length of the longest prefix of `s` made of non-whitespace characters.
pub open spec fn token_len(s: Seq<char>) -> nat
    decreases s.len(),
{
    if s.len() == 0 || is_ws(s[0]) {
        0
    } else {
        1 + token_len(s.drop_first())
    }
}

/// Length of the longest prefix of `s` made of decimal digits.
pub open spec fn digit_run(s: Seq<char>) -> nat
    decreases s.len(),
{
    if s.len() == 0 || !is_digit(s[0]) {
        0
    } else {
        1 + digit_run(s.drop_first())
    }
}

/// Length of the longest prefix of `s` made of identifier characters.
pub open spec fn ident_run(s: Seq<char>) -> nat
    decreases s.len(),
{
    if s.len() == 0 || !is_ident_char(s[0]) {
        0
    } else {
        1 + ident_run(s.drop_first())
    }
}

/// `s` split on runs of whitespace, empty pieces dropped.
pub open spec fn split_ws(s: Seq<char>) -> Seq<Seq<char>>
    decreases s.len(),
{
    if s.len() == 0 {
        Seq::empty()
    } else if is_ws(s[0]) {
        split_ws(s.drop_first())
    } else {
        proof {
            lemma_token_len(s);
            assert(token_len(s) >= 1);
        }
        seq![s.take(token_len(s) as int)] + split_ws(s.skip(token_len(s) as int))
    }
}

/// Value of a sequence of decimal digits, most significant first.
pub open spec fn digits_val(s: Seq<char>) -> int
    decreases s.len(),
{
    if s.len() == 0 {
        0
    } else {
        digits_val(s.drop_last()) * 10 + digit_val(s.last())
    }
}

/// `token_len` is never longer than the sequence, and runs are what they
/// claim: every character inside the run is a non-whitespace character.
pub proof fn lemma_token_len(s: Seq<char>)
    ensures
        token_len(s) <= s.len(),
        forall|i: int| 0 <= i < token_len(s) ==> !is_ws(#[trigger] s[i]),
        token_len(s) < s.len() ==> is_ws(s[token_len(s) as int]),
    decreases s.len(),
{
    if s.len() == 0 || is_ws(s[0]) {
    } else {
        lemma_token_len(s.drop_first());
        assert forall|i: int| 0 <= i < token_len(s) implies !is_ws(#[trigger] s[i]) by {
            if i > 0 {
                assert(s.drop_first()[i - 1] == s[i]);
            }
        }
        if token_len(s) < s.len() {
            assert(s.drop_first()[token_len(s) - 1] == s[token_len(s) as int]);
        }
    }
}

/// Counterpart of `lemma_token_len` for digit runs.
pub proof fn lemma_digit_run(s: Seq<char>)
    ensures
        digit_run(s) <= s.len(),
        forall|i: int| 0 <= i < digit_run(s) ==> is_digit(#[trigger] s[i]),
        digit_run(s) < s.len() ==> !is_digit(s[digit_run(s) as int]),
    decreases s.len(),
{
    if s.len() == 0 || !is_digit(s[0]) {
    } else {
        lemma_digit_run(s.drop_first());
        assert forall|i: int| 0 <= i < digit_run(s) implies is_digit(#[trigger] s[i]) by {
            if i > 0 {
                assert(s.drop_first()[i - 1] == s[i]);
            }
        }
        if digit_run(s) < s.len() {
            assert(s.drop_first()[digit_run(s) - 1] == s[digit_run(s) as int]);
        }
    }
}

/// Counterpart of `lemma_token_len` for identifier runs.
pub proof fn lemma_ident_run(s: Seq<char>)
    ensures
        ident_run(s) <= s.len(),
        forall|i: int| 0 <= i < ident_run(s) ==> is_ident_char(#[trigger] s[i]),
        ident_run(s) < s.len() ==> !is_ident_char(s[ident_run(s) as int]),
    decreases s.len(),
{
    if s.len() == 0 || !is_ident_char(s[0]) {
    } else {
        lemma_ident_run(s.drop_first());
        assert forall|i: int| 0 <= i < ident_run(s) implies is_ident_char(#[trigger] s[i]) by {
            if i > 0 {
                assert(s.drop_first()[i - 1] == s[i]);
            }
        }
        if ident_run(s) < s.len() {
            assert(s.drop_first()[ident_run(s) - 1] == s[ident_run(s) as int]);
        }
    }
}

/// A run function applied where the first characters are known gives the
/// count that an index scan finds.
pub proof fn lemma_token_len_is(s: Seq<char>, n: int)
    requires
        0 <= n <= s.len(),
        forall|i: int| 0 <= i < n ==> !is_ws(#[trigger] s[i]),
        n < s.len() ==> is_ws(s[n]),
    ensures
        token_len(s) == n,
    decreases n,
{
    if n == 0 {
    } else {
        assert(!is_ws(s[0]));
        assert forall|i: int| 0 <= i < n - 1 implies !is_ws(#[trigger] s.drop_first()[i]) by {
            assert(s.drop_first()[i] == s[i + 1]);
        }
        if n - 1 < s.drop_first().len() {
            assert(s.drop_first()[n - 1] == s[n]);
        }
        lemma_token_len_is(s.drop_first(), n - 1);
    }
}

/// Counterpart of `lemma_token_len_is` for digit runs.
pub proof fn lemma_digit_run_is(s: Seq<char>, n: int)
    requires
        0 <= n <= s.len(),
        forall|i: int| 0 <= i < n ==> is_digit(#[trigger] s[i]),
        n < s.len() ==> !is_digit(s[n]),
    ensures
        digit_run(s) == n,
    decreases n,
{
    if n == 0 {
    } else {
        assert(is_digit(s[0]));
        assert forall|i: int| 0 <= i < n - 1 implies is_digit(#[trigger] s.drop_first()[i]) by {
            assert(s.drop_first()[i] == s[i + 1]);
        }
        if n - 1 < s.drop_first().len() {
            assert(s.drop_first()[n - 1] == s[n]);
        }
        lemma_digit_run_is(s.drop_first(), n - 1);
    }
}

/// Counterpart of `lemma_token_len_is` for identifier runs.
pub proof fn lemma_ident_run_is(s: Seq<char>, n: int)
    requires
        0 <= n <= s.len(),
        forall|i: int| 0 <= i < n ==> is_ident_char(#[trigger] s[i]),
        n < s.len() ==> !is_ident_char(s[n]),
    ensures
        ident_run(s) == n,
    decreases n,
{
    if n == 0 {
    } else {
        assert(is_ident_char(s[0]));
        assert forall|i: int| 0 <= i < n - 1 implies is_ident_char(#[trigger] s.drop_first()[i]) by {
            assert(s.drop_first()[i] == s[i + 1]);
        }
        if n - 1 < s.drop_first().len() {
            assert(s.drop_first()[n - 1] == s[n]);
        }
        lemma_ident_run_is(s.drop_first(), n - 1);
    }
}

/// The characters of `s`, one by one.
pub fn chars_of(s: &str) -> (v: Vec<char>)
    ensures
        v@ == s@,
{
    let n = s.unicode_len();
    let mut v: Vec<char> = Vec::new();
    let mut i: usize = 0;
    while i < n
        invariant
            n == s@.len(),
            i <= n,
            v@ == s@.take(i as int),
        decreases n - i,
    {
        let c = s.get_char(i);
        v.push(c);
        i = i + 1;
        proof {
            assert(v@ =~= s@.take(i as int));
        }
    }
    proof {
        assert(v@ =~= s@);
    }
    v
}

/// Whether two character vectors hold the same characters.
pub fn chars_eq(a: &Vec<char>, b: &Vec<char>) -> (r: bool)
    ensures
        r == (a@ == b@),
{
    if a.len() != b.len() {
        proof {
            assert(a@ != b@);
        }
        return false;
    }
    let n = a.len();
    let mut i: usize = 0;
    while i < n
        invariant
            n == a.len() == b.len(),
            i <= n,
            forall|j: int| 0 <= j < i ==> a@[j] == b@[j],
        decreases n - i,
    {
        if a[i] != b[i] {
            return false;
        }
        i = i + 1;
    }
    proof {
        assert(a@ =~= b@);
    }
    true
}

/// Whether a character vector spells a given string.
pub fn chars_eq_str(a: &Vec<char>, s: &str) -> (r: bool)
    ensures
        r == (a@ == s@),
{
    let b = chars_of(s);
    chars_eq(a, &b)
}

/// Whether two string slices hold the same characters.
pub fn str_eq(a: &str, b: &str) -> (r: bool)
    ensures
        r == (a@ == b@),
{
    let x: String = a.to_owned();
    let y: String = b.to_owned();
    x == y
}

/// Splits `v` on whitespace runs; no returned piece is empty.
pub fn split_tokens(v: &Vec<char>) -> (out: Vec<Vec<char>>)
    ensures
        out.deep_view() == split_ws(v@),
{
    let n = v.len();
    let mut out: Vec<Vec<char>> = Vec::new();
    let mut i: usize = 0;
    proof {
        assert(v@.skip(0) =~= v@);
        assert(out.deep_view() =~= Seq::<Seq<char>>::empty());
        assert(out.deep_view() + split_ws(v@) =~= split_ws(v@));
    }
    while i < n
        invariant
            n == v.len(),
            i <= n,
            split_ws(v@) == out.deep_view() + split_ws(v@.skip(i as int)),
        decreases n - i,
    {
        let c = v[i];
        if c == ' ' || c == '\t' || c == '\n' || c == '\r' || c == '\u{c}' {
            proof {
                let rest = v@.skip(i as int);
                assert(rest[0] == v@[i as int]);
                assert(is_ws(rest[0]));
                assert(rest.drop_first() =~= v@.skip(i + 1));
                assert(split_ws(rest) == split_ws(v@.skip(i + 1)));
            }
            i = i + 1;
        } else {
            let start = i;
            let mut j = i;
            while j < n
                invariant_except_break
                    n == v.len(),
                    start <= j <= n,
                    forall|k: int| start <= k < j ==> !is_ws(#[trigger] v@[k]),
                ensures
                    n == v.len(),
                    start <= j <= n,
                    forall|k: int| start <= k < j ==> !is_ws(#[trigger] v@[k]),
                    j < n ==> is_ws(v@[j as int]),
                decreases n - j,
            {
                let c2 = v[j];
                if c2 == ' ' || c2 == '\t' || c2 == '\n' || c2 == '\r' || c2 == '\u{c}' {
                    break;
                }
                j = j + 1;
            }
            let mut tok: Vec<char> = Vec::new();
            let mut k = start;
            while k < j
                invariant
                    start <= k <= j <= n,
                    n == v.len(),
                    tok@ == v@.subrange(start as int, k as int),
                decreases j - k,
            {
                tok.push(v[k]);
                k = k + 1;
                proof {
                    assert(tok@ =~= v@.subrange(start as int, k as int));
                }
            }
            proof {
                let rest = v@.skip(start as int);
                assert forall|p: int| 0 <= p < j - start implies !is_ws(#[trigger] rest[p]) by {
                    assert(rest[p] == v@[start + p]);
                }
                if j - start < rest.len() {
                    assert(rest[j - start] == v@[j as int]);
                }
                lemma_token_len_is(rest, j - start);
                assert(rest[0] == v@[start as int]);
                assert(!is_ws(rest[0]));
                assert(rest.take(j - start) =~= v@.subrange(start as int, j as int));
                assert(rest.skip(j - start) =~= v@.skip(j as int));
                assert(tok@ =~= v@.subrange(start as int, j as int));
                assert(split_ws(rest) == seq![tok@] + split_ws(v@.skip(j as int)));
                let prev = out.deep_view();
                assert(prev + (seq![tok@] + split_ws(v@.skip(j as int))) =~= (prev + seq![tok@])
                    + split_ws(v@.skip(j as int)));
                assert(prev.push(tok@) =~= prev + seq![tok@]);
            }
            let ghost prev_view = out.deep_view();
            let ghost tok_view = tok@;
            proof {
                assert(tok.deep_view() =~= tok_view);
            }
            out.push(tok);
            proof {
                assert(out.deep_view() =~= prev_view.push(tok_view));
            }
            i = j;
        }
    }
    proof {
        assert(v@.skip(n as int) =~= Seq::<char>::empty());
        assert(split_ws(v@.skip(n as int)) =~= Seq::<Seq<char>>::empty());
        assert(out.deep_view() + Seq::<Seq<char>>::empty() =~= out.deep_view());
    }
    out
}

/// Ten to the `n`.
pub open spec fn pow10(n: nat) -> int
    decreases n,
{
    if n == 0 {
        1
    } else {
        10 * pow10((n - 1) as nat)
    }
}

/// Digit sequences are bounded by a power of ten.
pub proof fn lemma_digits_val_bounds(s: Seq<char>)
    requires
        forall|i: int| 0 <= i < s.len() ==> is_digit(#[trigger] s[i]),
    ensures
        0 <= digits_val(s) < pow10(s.len()),
    decreases s.len(),
{
    if s.len() == 0 {
    } else {
        lemma_digits_val_bounds(s.drop_last());
        assert(is_digit(s.last()));
        assert(0 <= digit_val(s.last()) <= 9);
    }
}

/// Length of the digit run of `t` starting at `from`.
fn digit_run_from(t: &Vec<char>, from: usize) -> (n: usize)
    requires
        from <= t.len(),
    ensures
        from + n <= t@.len(),
        n == digit_run(t@.skip(from as int)),
{
    let len = t.len();
    let mut j = from;
    while j < len
        invariant_except_break
            from <= j <= len,
            len == t@.len(),
            forall|k: int| from <= k < j ==> is_digit(#[trigger] t@[k]),
        ensures
            from <= j <= len,
            len == t@.len(),
            forall|k: int| from <= k < j ==> is_digit(#[trigger] t@[k]),
            j < len ==> !is_digit(t@[j as int]),
        decreases len - j,
    {
        let c = t[j];
        if c < '0' || c > '9' {
            proof {
                assert(!is_digit(t@[j as int]));
            }
            break;
        }
        proof {
            assert(is_digit(t@[j as int]));
        }
        j = j + 1;
    }
    proof {
        let rest = t@.skip(from as int);
        assert forall|p: int| 0 <= p < j - from implies is_digit(#[trigger] rest[p]) by {
            assert(rest[p] == t@[from + p]);
        }
        if j - from < rest.len() {
            assert(rest[j - from] == t@[j as int]);
        }
        lemma_digit_run_is(rest, j - from);
    }
    j - from
}

/// Value of the digit characters of `t` between `from` and `to`.
fn digits_value(t: &Vec<char>, from: usize, to: usize) -> (v: i64)
    requires
        from <= to <= t.len(),
        to - from <= 12,
        forall|k: int| from <= k < to ==> is_digit(#[trigger] t@[k]),
    ensures
        v == digits_val(t@.subrange(from as int, to as int)),
        0 <= v < 1000000000000,
{
    let mut acc: i64 = 0;
    let mut k = from;
    proof {
        assert(t@.subrange(from as int, from as int) =~= Seq::<char>::empty());
    }
    while k < to
        invariant
            from <= k <= to <= t@.len(),
            to - from <= 12,
            forall|q: int| from <= q < to ==> is_digit(#[trigger] t@[q]),
            acc == digits_val(t@.subrange(from as int, k as int)),
            0 <= acc < pow10((k - from) as nat),
        decreases to - k,
    {
        let c = t[k] as u32;
        proof {
            assert(is_digit(t@[k as int]));
            assert(pow10(((k + 1) - from) as nat) == 10 * pow10((k - from) as nat));
            reveal_with_fuel(pow10, 13);
            assert(pow10(12) == 1000000000000);
            vstd::arithmetic::power::lemma_pow_increases(10, (k + 1 - from) as nat, 12);
        }
        let d = (c - 48) as i64;
        proof {
            let sub = t@.subrange(from as int, (k + 1) as int);
            assert(sub.drop_last() =~= t@.subrange(from as int, k as int));
            assert(sub.last() == t@[k as int]);
        }
        acc = acc * 10 + d;
        k = k + 1;
    }
    proof {
        reveal_with_fuel(pow10, 13);
        lemma_pow10_monotonic((k - from) as nat);
    }
    acc
}

/// `pow10` grows with its argument, up to the twelve digits used here.
proof fn lemma_pow10_monotonic(n: nat)
    requires
        n <= 12,
    ensures
        pow10(n) <= pow10(12),
    decreases 12 - n,
{
    if n < 12 {
        lemma_pow10_monotonic(n + 1);
        assert(pow10(n + 1) == 10 * pow10(n));
        lemma_digits_nonneg_pow(n);
    }
}

/// `pow10` is positive.
proof fn lemma_digits_nonneg_pow(n: nat)
    ensures
        pow10(n) >= 1,
    decreases n,
{
    if n > 0 {
        lemma_digits_nonneg_pow((n - 1) as nat);
    }
}

/// The fractional digits of a length, scaled to thousandths: the first
/// three fractional digits are kept, further ones are truncated.
pub open spec fn frac_milli(fp: Seq<char>) -> int {
    digits_val((fp + seq!['0', '0', '0']).take(3))
}

/// A pixel length written as text: optional minus sign, decimal digits with
/// an optional fraction, and the unit `px` (a bare `0` needs no unit).
/// The result counts thousandths of a pixel.
pub open spec fn parse_px_spec(t: Seq<char>) -> Option<i64> {
    let neg = t.len() > 0 && t[0] == '-';
    let u = if neg {
        t.drop_first()
    } else {
        t
    };
    let d1 = digit_run(u) as int;
    let ip = u.take(d1);
    let rest = u.skip(d1);
    let has_dot = rest.len() > 0 && rest[0] == '.';
    let fstart = if has_dot {
        rest.drop_first()
    } else {
        rest
    };
    let d2 = if has_dot {
        digit_run(fstart) as int
    } else {
        0
    };
    let fp = fstart.take(d2);
    let unit = fstart.skip(d2);
    if d1 + d2 == 0 || d1 > 12 {
        None
    } else {
        let mag = digits_val(ip) * 1000 + frac_milli(fp);
        let val = if neg {
            -mag
        } else {
            mag
        };
        if unit.len() == 2 && unit[0] == 'p' && unit[1] == 'x' {
            Some(val as i64)
        } else if unit.len() == 0 && mag == 0 {
            Some(0)
        } else {
            None
        }
    }
}

/// Parses one pixel-length token; exactly [`parse_px_spec`].
#[verifier::rlimit(100)]
pub fn parse_px(t: &Vec<char>) -> (r: Option<i64>)
    ensures
        r == parse_px_spec(t@),
{
    let len = t.len();
    let neg = len > 0 && t[0] == '-';
    let base: usize = if neg { 1 } else { 0 };
    let ghost u = if neg { t@.drop_first() } else { t@ };
    proof {
        assert(u =~= t@.skip(base as int));
    }
    let d1 = digit_run_from(t, base);
    proof {
        assert(digit_run(u) == d1);
    }
    let ip_end = base + d1;
    let has_dot = ip_end < len && t[ip_end] == '.';
    let fbase: usize = if has_dot { ip_end + 1 } else { ip_end };
    let ghost rest = u.skip(d1 as int);
    let ghost fstart = if has_dot { rest.drop_first() } else { rest };
    proof {
        assert(rest =~= t@.skip(ip_end as int));
        if rest.len() > 0 {
            assert(rest[0] == t@[ip_end as int]);
        }
        assert(has_dot == (rest.len() > 0 && rest[0] == '.'));
        assert(fstart =~= t@.skip(fbase as int));
    }
    let d2: usize = if has_dot { digit_run_from(t, fbase) } else { 0 };
    proof {
        if has_dot {
            assert(digit_run(fstart) == d2);
        }
    }
    let f_end = fbase + d2;
    let ghost fp = fstart.take(d2 as int);
    let ghost unit = fstart.skip(d2 as int);
    proof {
        assert(fp =~= t@.subrange(fbase as int, f_end as int));
        assert(unit =~= t@.skip(f_end as int));
    }
    if d1 + d2 == 0 || d1 > 12 {
        return None;
    }
    proof {
        lemma_digit_run(u);
        assert forall|k: int| base <= k < ip_end implies is_digit(#[trigger] t@[k]) by {
            assert(u[k - base] == t@[k]);
        }
        if has_dot {
            lemma_digit_run(fstart);
            assert forall|k: int| fbase <= k < f_end implies is_digit(#[trigger] t@[k]) by {
                assert(fstart[k - fbase] == t@[k]);
            }
        }
    }
    let int_part = digits_value(t, base, ip_end);
    proof {
        assert(t@.subrange(base as int, ip_end as int) =~= u.take(d1 as int));
    }
    let frac_part = frac_value(t, fbase, f_end);
    let mag = int_part * 1000 + frac_part;
    let val = if neg { -mag } else { mag };
    let unit_len = len - f_end;
    if unit_len == 2 && t[f_end] == 'p' && t[f_end + 1] == 'x' {
        proof {
            assert(unit.len() == 2);
            assert(unit[0] == t@[f_end as int]);
            assert(unit[1] == t@[f_end + 1]);
        }
        Some(val)
    } else if unit_len == 0 && mag == 0 {
        proof {
            assert(unit.len() == 0);
        }
        Some(0)
    } else {
        proof {
            if unit.len() == 2 {
                assert(unit[0] == t@[f_end as int]);
                assert(unit[1] == t@[f_end + 1]);
            }
        }
        None
    }
}

/// The first three fractional digits of `t` between `from` and `to`,
/// scaled to thousandths.
fn frac_value(t: &Vec<char>, from: usize, to: usize) -> (v: i64)
    requires
        from <= to <= t.len(),
        forall|k: int| from <= k < to ==> is_digit(#[trigger] t@[k]),
    ensures
        v == frac_milli(t@.subrange(from as int, to as int)),
        0 <= v < 1000,
{
    let ghost fp = t@.subrange(from as int, to as int);
    let ghost padded = (fp + seq!['0', '0', '0']).take(3);
    let d0: i64 = if to - from >= 1 { (t[from] as u32 - 48) as i64 } else { 0 };
    let d1: i64 = if to - from >= 2 { (t[from + 1] as u32 - 48) as i64 } else { 0 };
    let d2: i64 = if to - from >= 3 { (t[from + 2] as u32 - 48) as i64 } else { 0 };
    proof {
        if to - from >= 3 {
            assert(padded =~= seq![t@[from as int], t@[from + 1], t@[from + 2]]);
        } else if to - from == 2 {
            assert(padded =~= seq![t@[from as int], t@[from + 1], '0']);
        } else if to - from == 1 {
            assert(padded =~= seq![t@[from as int], '0', '0']);
        } else {
            assert(padded =~= seq!['0', '0', '0']);
        }
        assert(padded.len() == 3);
        assert(padded.drop_last() =~= seq![padded[0], padded[1]]);
        assert(seq![padded[0], padded[1]].drop_last() =~= seq![padded[0]]);
        assert(seq![padded[0]].drop_last() =~= Seq::<char>::empty());
        assert(digits_val(Seq::<char>::empty()) == 0);
        assert(digits_val(seq![padded[0]]) == digit_val(padded[0]));
        assert(digits_val(seq![padded[0], padded[1]]) == digit_val(padded[0]) * 10 + digit_val(
            padded[1],
        ));
        assert(digits_val(padded) == digit_val(padded[0]) * 100 + digit_val(padded[1]) * 10
            + digit_val(padded[2]));
    }
    d0 * 100 + d1 * 10 + d2
}

/// Length of the whitespace prefix of `s`.
pub open spec fn ws_run(s: Seq<char>) -> nat
    decreases s.len(),
{
    if s.len() == 0 || !is_ws(s[0]) {
        0
    } else {
        1 + ws_run(s.drop_first())
    }
}

/// Length of the whitespace suffix of `s`.
pub open spec fn ws_run_back(s: Seq<char>) -> nat
    decreases s.len(),
{
    if s.len() == 0 || !is_ws(s.last()) {
        0
    } else {
        1 + ws_run_back(s.drop_last())
    }
}

/// `s` with surrounding whitespace removed.
pub open spec fn trim(s: Seq<char>) -> Seq<char> {
    let e = s.take(s.len() - ws_run_back(s));
    e.skip(ws_run(e) as int)
}

/// An index scan that stops at the first non-whitespace character finds
/// `ws_run`.
pub proof fn lemma_ws_run_is(s: Seq<char>, n: int)
    requires
        0 <= n <= s.len(),
        forall|i: int| 0 <= i < n ==> is_ws(#[trigger] s[i]),
        n < s.len() ==> !is_ws(s[n]),
    ensures
        ws_run(s) == n,
    decreases n,
{
    if n == 0 {
    } else {
        assert(is_ws(s[0]));
        assert forall|i: int| 0 <= i < n - 1 implies is_ws(#[trigger] s.drop_first()[i]) by {
            assert(s.drop_first()[i] == s[i + 1]);
        }
        if n - 1 < s.drop_first().len() {
            assert(s.drop_first()[n - 1] == s[n]);
        }
        lemma_ws_run_is(s.drop_first(), n - 1);
    }
}

/// An index scan from the right finds `ws_run_back`.
pub proof fn lemma_ws_run_back_is(s: Seq<char>, n: int)
    requires
        0 <= n <= s.len(),
        forall|i: int| s.len() - n <= i < s.len() ==> is_ws(#[trigger] s[i]),
        n < s.len() ==> !is_ws(s[s.len() - n - 1]),
    ensures
        ws_run_back(s) == n,
    decreases n,
{
    if n == 0 {
    } else {
        assert(is_ws(s.last()));
        assert forall|i: int|
            s.drop_last().len() - (n - 1) <= i < s.drop_last().len() implies is_ws(
            #[trigger] s.drop_last()[i],
        ) by {
            assert(s.drop_last()[i] == s[i]);
        }
        if n - 1 < s.drop_last().len() {
            assert(s.drop_last()[s.drop_last().len() - (n - 1) - 1] == s[s.len() - n - 1]);
        }
        lemma_ws_run_back_is(s.drop_last(), n - 1);
    }
}

/// `v` with surrounding whitespace removed; exactly [`trim`].
pub fn trim_chars(v: &Vec<char>) -> (out: Vec<char>)
    ensures
        out@ == trim(v@),
{
    let n = v.len();
    let mut end = n;
    while end > 0
        invariant_except_break
            end <= n,
            n == v.len(),
            forall|i: int| end <= i < n ==> is_ws(#[trigger] v@[i]),
        ensures
            end <= n,
            n == v.len(),
            forall|i: int| end <= i < n ==> is_ws(#[trigger] v@[i]),
            end > 0 ==> !is_ws(v@[end - 1]),
        decreases end,
    {
        let c = v[end - 1];
        if !(c == ' ' || c == '\t' || c == '\n' || c == '\r' || c == '\u{c}') {
            break;
        }
        end = end - 1;
    }
    proof {
        lemma_ws_run_back_is(v@, n - end);
    }
    let ghost e = v@.take(end as int);
    let mut st: usize = 0;
    while st < end
        invariant_except_break
            st <= end <= n,
            n == v.len(),
            forall|i: int| 0 <= i < st ==> is_ws(#[trigger] v@[i]),
        ensures
            st <= end <= n,
            n == v.len(),
            forall|i: int| 0 <= i < st ==> is_ws(#[trigger] v@[i]),
            st < end ==> !is_ws(v@[st as int]),
        decreases end - st,
    {
        let c = v[st];
        if !(c == ' ' || c == '\t' || c == '\n' || c == '\r' || c == '\u{c}') {
            break;
        }
        st = st + 1;
    }
    proof {
        assert forall|i: int| 0 <= i < st implies is_ws(#[trigger] e[i]) by {
            assert(e[i] == v@[i]);
        }
        if st < e.len() {
            assert(e[st as int] == v@[st as int]);
        }
        lemma_ws_run_is(e, st as int);
    }
    let mut out: Vec<char> = Vec::new();
    let mut k = st;
    while k < end
        invariant
            st <= k <= end <= n,
            n == v.len(),
            out@ == v@.subrange(st as int, k as int),
        decreases end - k,
    {
        out.push(v[k]);
        k = k + 1;
        proof {
            assert(out@ =~= v@.subrange(st as int, k as int));
        }
    }
    proof {
        assert(out@ =~= e.skip(st as int));
    }
    out
}

/// Length of the prefix of `s` free of commas.
pub open spec fn comma_run(s: Seq<char>) -> nat
    decreases s.len(),
{
    if s.len() == 0 || s[0] == ',' {
        0
    } else {
        1 + comma_run(s.drop_first())
    }
}

/// Characterization of `comma_run`.
pub proof fn lemma_comma_run(s: Seq<char>)
    ensures
        comma_run(s) <= s.len(),
        forall|i: int| 0 <= i < comma_run(s) ==> #[trigger] s[i] != ',',
        comma_run(s) < s.len() ==> s[comma_run(s) as int] == ',',
    decreases s.len(),
{
    if s.len() == 0 || s[0] == ',' {
    } else {
        lemma_comma_run(s.drop_first());
        assert forall|i: int| 0 <= i < comma_run(s) implies #[trigger] s[i] != ',' by {
            if i > 0 {
                assert(s.drop_first()[i - 1] == s[i]);
            }
        }
        if comma_run(s) < s.len() {
            assert(s.drop_first()[comma_run(s) - 1] == s[comma_run(s) as int]);
        }
    }
}

/// An index scan finds `comma_run`.
pub proof fn lemma_comma_run_is(s: Seq<char>, n: int)
    requires
        0 <= n <= s.len(),
        forall|i: int| 0 <= i < n ==> #[trigger] s[i] != ',',
        n < s.len() ==> s[n] == ',',
    ensures
        comma_run(s) == n,
    decreases n,
{
    if n == 0 {
    } else {
        assert(s[0] != ',');
        assert forall|i: int| 0 <= i < n - 1 implies #[trigger] s.drop_first()[i] != ',' by {
            assert(s.drop_first()[i] == s[i + 1]);
        }
        if n - 1 < s.drop_first().len() {
            assert(s.drop_first()[n - 1] == s[n]);
        }
        lemma_comma_run_is(s.drop_first(), n - 1);
    }
}

/// `s` split on commas; pieces keep their surrounding whitespace and may be
/// empty, and there is always at least one piece.
pub open spec fn split_commas(s: Seq<char>) -> Seq<Seq<char>>
    decreases s.len(),
{
    proof {
        lemma_comma_run(s);
    }
    let c = comma_run(s) as int;
    if c == s.len() {
        seq![s]
    } else {
        seq![s.take(c)] + split_commas(s.skip(c + 1))
    }
}

/// Splits `v` on commas; exactly [`split_commas`].
pub fn split_on_commas(v: &Vec<char>) -> (out: Vec<Vec<char>>)
    ensures
        out.deep_view() == split_commas(v@),
{
    let n = v.len();
    let mut out: Vec<Vec<char>> = Vec::new();
    let mut i: usize = 0;
    proof {
        assert(v@.skip(0) =~= v@);
        assert(out.deep_view() =~= Seq::<Seq<char>>::empty());
        assert(out.deep_view() + split_commas(v@) =~= split_commas(v@));
    }
    loop
        invariant_except_break
            i <= n,
            n == v.len(),
            split_commas(v@) == out.deep_view() + split_commas(v@.skip(i as int)),
        ensures
            out.deep_view() == split_commas(v@),
        decreases n - i,
    {
        let start = i;
        let mut j = i;
        while j < n
            invariant_except_break
                start <= j <= n,
                n == v.len(),
                forall|k: int| start <= k < j ==> #[trigger] v@[k] != ',',
            ensures
                start <= j <= n,
                n == v.len(),
                forall|k: int| start <= k < j ==> #[trigger] v@[k] != ',',
                j < n ==> v@[j as int] == ',',
            decreases n - j,
        {
            if v[j] == ',' {
                break;
            }
            j = j + 1;
        }
        let mut piece: Vec<char> = Vec::new();
        let mut k = start;
        while k < j
            invariant
                start <= k <= j <= n,
                n == v.len(),
                piece@ == v@.subrange(start as int, k as int),
            decreases j - k,
        {
            piece.push(v[k]);
            k = k + 1;
            proof {
                assert(piece@ =~= v@.subrange(start as int, k as int));
            }
        }
        proof {
            let rest = v@.skip(start as int);
            assert forall|p: int| 0 <= p < j - start implies #[trigger] rest[p] != ',' by {
                assert(rest[p] == v@[start + p]);
            }
            if j - start < rest.len() {
                assert(rest[j - start] == v@[j as int]);
            }
            lemma_comma_run_is(rest, j - start);
            assert(rest.take(j - start) =~= v@.subrange(start as int, j as int));
            assert(piece@ =~= v@.subrange(start as int, j as int));
        }
        let ghost prev_view = out.deep_view();
        let ghost piece_view = piece@;
        proof {
            assert(piece.deep_view() =~= piece_view);
        }
        out.push(piece);
        proof {
            assert(out.deep_view() =~= prev_view.push(piece_view));
            assert(prev_view.push(piece_view) =~= prev_view + seq![piece_view]);
        }
        if j < n {
            proof {
                let rest = v@.skip(start as int);
                assert(rest.skip(j - start + 1) =~= v@.skip(j + 1));
                assert(split_commas(rest) == seq![piece_view] + split_commas(v@.skip(j + 1)));
                assert(prev_view + (seq![piece_view] + split_commas(v@.skip(j + 1))) =~= (prev_view
                    + seq![piece_view]) + split_commas(v@.skip(j + 1)));
            }
            i = j + 1;
        } else {
            proof {
                let rest = v@.skip(start as int);
                assert(rest =~= piece_view);
                assert(split_commas(rest) == seq![piece_view]);
                assert(prev_view + seq![piece_view] =~= out.deep_view());
            }
            break;
        }
    }
    out
}

/// The named colors this engine understands: the CSS basic colors plus the
/// names that compact color serialization produces.
pub open spec fn named_color_spec(s: Seq<char>) -> Option<Color> {
    if s == "transparent"@ {
        Some(Color { r: 0, g: 0, b: 0, a: 0 })
    } else if s == "black"@ {
        Some(Color { r: 0, g: 0, b: 0, a: 255 })
    } else if s == "silver"@ {
        Some(Color { r: 192, g: 192, b: 192, a: 255 })
    } else if s == "gray"@ {
        Some(Color { r: 128, g: 128, b: 128, a: 255 })
    } else if s == "grey"@ {
        Some(Color { r: 128, g: 128, b: 128, a: 255 })
    } else if s == "white"@ {
        Some(Color { r: 255, g: 255, b: 255, a: 255 })
    } else if s == "maroon"@ {
        Some(Color { r: 128, g: 0, b: 0, a: 255 })
    } else if s == "red"@ {
        Some(Color { r: 255, g: 0, b: 0, a: 255 })
    } else if s == "purple"@ {
        Some(Color { r: 128, g: 0, b: 128, a: 255 })
    } else if s == "fuchsia"@ {
        Some(Color { r: 255, g: 0, b: 255, a: 255 })
    } else if s == "magenta"@ {
        Some(Color { r: 255, g: 0, b: 255, a: 255 })
    } else if s == "green"@ {
        Some(Color { r: 0, g: 128, b: 0, a: 255 })
    } else if s == "lime"@ {
        Some(Color { r: 0, g: 255, b: 0, a: 255 })
    } else if s == "olive"@ {
        Some(Color { r: 128, g: 128, b: 0, a: 255 })
    } else if s == "yellow"@ {
        Some(Color { r: 255, g: 255, b: 0, a: 255 })
    } else if s == "navy"@ {
        Some(Color { r: 0, g: 0, b: 128, a: 255 })
    } else if s == "blue"@ {
        Some(Color { r: 0, g: 0, b: 255, a: 255 })
    } else if s == "teal"@ {
        Some(Color { r: 0, g: 128, b: 128, a: 255 })
    } else if s == "aqua"@ {
        Some(Color { r: 0, g: 255, b: 255, a: 255 })
    } else if s == "cyan"@ {
        Some(Color { r: 0, g: 255, b: 255, a: 255 })
    } else if s == "indigo"@ {
        Some(Color { r: 75, g: 0, b: 130, a: 255 })
    } else if s == "sienna"@ {
        Some(Color { r: 160, g: 82, b: 45, a: 255 })
    } else if s == "brown"@ {
        Some(Color { r: 165, g: 42, b: 42, a: 255 })
    } else if s == "peru"@ {
        Some(Color { r: 205, g: 133, b: 63, a: 255 })
    } else if s == "tan"@ {
        Some(Color { r: 210, g: 180, b: 140, a: 255 })
    } else if s == "orchid"@ {
        Some(Color { r: 218, g: 112, b: 214, a: 255 })
    } else if s == "plum"@ {
        Some(Color { r: 221, g: 160, b: 221, a: 255 })
    } else if s == "violet"@ {
        Some(Color { r: 238, g: 130, b: 238, a: 255 })
    } else if s == "khaki"@ {
        Some(Color { r: 240, g: 230, b: 140, a: 255 })
    } else if s == "azure"@ {
        Some(Color { r: 240, g: 255, b: 255, a: 255 })
    } else if s == "wheat"@ {
        Some(Color { r: 245, g: 222, b: 179, a: 255 })
    } else if s == "beige"@ {
        Some(Color { r: 245, g: 245, b: 220, a: 255 })
    } else if s == "salmon"@ {
        Some(Color { r: 250, g: 128, b: 114, a: 255 })
    } else if s == "linen"@ {
        Some(Color { r: 250, g: 240, b: 230, a: 255 })
    } else if s == "tomato"@ {
        Some(Color { r: 255, g: 99, b: 71, a: 255 })
    } else if s == "coral"@ {
        Some(Color { r: 255, g: 127, b: 80, a: 255 })
    } else if s == "orange"@ {
        Some(Color { r: 255, g: 165, b: 0, a: 255 })
    } else if s == "pink"@ {
        Some(Color { r: 255, g: 192, b: 203, a: 255 })
    } else if s == "gold"@ {
        Some(Color { r: 255, g: 215, b: 0, a: 255 })
    } else if s == "bisque"@ {
        Some(Color { r: 255, g: 228, b: 196, a: 255 })
    } else if s == "snow"@ {
        Some(Color { r: 255, g: 250, b: 250, a: 255 })
    } else if s == "ivory"@ {
        Some(Color { r: 255, g: 255, b: 240, a: 255 })
    } else {
        None
    }
}

/// Looks up a color name; exactly [`named_color_spec`].
pub fn named_color(t: &Vec<char>) -> (r: Option<Color>)
    ensures
        r == named_color_spec(t@),
{
    if chars_eq_str(t, "transparent") {
        Some(Color { r: 0, g: 0, b: 0, a: 0 })
    } else if chars_eq_str(t, "black") {
        Some(Color { r: 0, g: 0, b: 0, a: 255 })
    } else if chars_eq_str(t, "silver") {
        Some(Color { r: 192, g: 192, b: 192, a: 255 })
    } else if chars_eq_str(t, "gray") {
        Some(Color { r: 128, g: 128, b: 128, a: 255 })
    } else if chars_eq_str(t, "grey") {
        Some(Color { r: 128, g: 128, b: 128, a: 255 })
    } else if chars_eq_str(t, "white") {
        Some(Color { r: 255, g: 255, b: 255, a: 255 })
    } else if chars_eq_str(t, "maroon") {
        Some(Color { r: 128, g: 0, b: 0, a: 255 })
    } else if chars_eq_str(t, "red") {
        Some(Color { r: 255, g: 0, b: 0, a: 255 })
    } else if chars_eq_str(t, "purple") {
        Some(Color { r: 128, g: 0, b: 128, a: 255 })
    } else if chars_eq_str(t, "fuchsia") {
        Some(Color { r: 255, g: 0, b: 255, a: 255 })
    } else if chars_eq_str(t, "magenta") {
        Some(Color { r: 255, g: 0, b: 255, a: 255 })
    } else if chars_eq_str(t, "green") {
        Some(Color { r: 0, g: 128, b: 0, a: 255 })
    } else if chars_eq_str(t, "lime") {
        Some(Color { r: 0, g: 255, b: 0, a: 255 })
    } else if chars_eq_str(t, "olive") {
        Some(Color { r: 128, g: 128, b: 0, a: 255 })
    } else if chars_eq_str(t, "yellow") {
        Some(Color { r: 255, g: 255, b: 0, a: 255 })
    } else if chars_eq_str(t, "navy") {
        Some(Color { r: 0, g: 0, b: 128, a: 255 })
    } else if chars_eq_str(t, "blue") {
        Some(Color { r: 0, g: 0, b: 255, a: 255 })
    } else if chars_eq_str(t, "teal") {
        Some(Color { r: 0, g: 128, b: 128, a: 255 })
    } else if chars_eq_str(t, "aqua") {
        Some(Color { r: 0, g: 255, b: 255, a: 255 })
    } else if chars_eq_str(t, "cyan") {
        Some(Color { r: 0, g: 255, b: 255, a: 255 })
    } else if chars_eq_str(t, "indigo") {
        Some(Color { r: 75, g: 0, b: 130, a: 255 })
    } else if chars_eq_str(t, "sienna") {
        Some(Color { r: 160, g: 82, b: 45, a: 255 })
    } else if chars_eq_str(t, "brown") {
        Some(Color { r: 165, g: 42, b: 42, a: 255 })
    } else if chars_eq_str(t, "peru") {
        Some(Color { r: 205, g: 133, b: 63, a: 255 })
    } else if chars_eq_str(t, "tan") {
        Some(Color { r: 210, g: 180, b: 140, a: 255 })
    } else if chars_eq_str(t, "orchid") {
        Some(Color { r: 218, g: 112, b: 214, a: 255 })
    } else if chars_eq_str(t, "plum") {
        Some(Color { r: 221, g: 160, b: 221, a: 255 })
    } else if chars_eq_str(t, "violet") {
        Some(Color { r: 238, g: 130, b: 238, a: 255 })
    } else if chars_eq_str(t, "khaki") {
        Some(Color { r: 240, g: 230, b: 140, a: 255 })
    } else if chars_eq_str(t, "azure") {
        Some(Color { r: 240, g: 255, b: 255, a: 255 })
    } else if chars_eq_str(t, "wheat") {
        Some(Color { r: 245, g: 222, b: 179, a: 255 })
    } else if chars_eq_str(t, "beige") {
        Some(Color { r: 245, g: 245, b: 220, a: 255 })
    } else if chars_eq_str(t, "salmon") {
        Some(Color { r: 250, g: 128, b: 114, a: 255 })
    } else if chars_eq_str(t, "linen") {
        Some(Color { r: 250, g: 240, b: 230, a: 255 })
    } else if chars_eq_str(t, "tomato") {
        Some(Color { r: 255, g: 99, b: 71, a: 255 })
    } else if chars_eq_str(t, "coral") {
        Some(Color { r: 255, g: 127, b: 80, a: 255 })
    } else if chars_eq_str(t, "orange") {
        Some(Color { r: 255, g: 165, b: 0, a: 255 })
    } else if chars_eq_str(t, "pink") {
        Some(Color { r: 255, g: 192, b: 203, a: 255 })
    } else if chars_eq_str(t, "gold") {
        Some(Color { r: 255, g: 215, b: 0, a: 255 })
    } else if chars_eq_str(t, "bisque") {
        Some(Color { r: 255, g: 228, b: 196, a: 255 })
    } else if chars_eq_str(t, "snow") {
        Some(Color { r: 255, g: 250, b: 250, a: 255 })
    } else if chars_eq_str(t, "ivory") {
        Some(Color { r: 255, g: 255, b: 240, a: 255 })
    } else {
        None
    }
}

/// An unsigned decimal number scaled to thousandths, as used for alpha
/// channel values: digits with an optional fraction, nothing else.
pub open spec fn parse_milli_spec(t: Seq<char>) -> Option<i64> {
    let d1 = digit_run(t) as int;
    let ip = t.take(d1);
    let rest = t.skip(d1);
    let has_dot = rest.len() > 0 && rest[0] == '.';
    let fstart = if has_dot {
        rest.drop_first()
    } else {
        rest
    };
    let d2 = if has_dot {
        digit_run(fstart) as int
    } else {
        0
    };
    let fp = fstart.take(d2);
    let tail = fstart.skip(d2);
    if d1 + d2 == 0 || d1 > 12 || tail.len() != 0 {
        None
    } else {
        Some((digits_val(ip) * 1000 + frac_milli(fp)) as i64)
    }
}

/// Parses an unsigned decimal to thousandths; exactly [`parse_milli_spec`].
#[verifier::rlimit(50)]
pub fn parse_milli(t: &Vec<char>) -> (r: Option<i64>)
    ensures
        r == parse_milli_spec(t@),
        r is Some ==> 0 <= r.unwrap() < 1000000000000000,
{
    let len = t.len();
    let d1 = digit_run_from(t, 0);
    proof {
        assert(t@.skip(0) =~= t@);
    }
    let has_dot = d1 < len && t[d1] == '.';
    let fbase: usize = if has_dot { d1 + 1 } else { d1 };
    let ghost rest = t@.skip(d1 as int);
    let ghost fstart = if has_dot { rest.drop_first() } else { rest };
    proof {
        if rest.len() > 0 {
            assert(rest[0] == t@[d1 as int]);
        }
        assert(has_dot == (rest.len() > 0 && rest[0] == '.'));
        assert(fstart =~= t@.skip(fbase as int));
    }
    let d2: usize = if has_dot { digit_run_from(t, fbase) } else { 0 };
    proof {
        if has_dot {
            assert(digit_run(fstart) == d2);
        }
    }
    let f_end = fbase + d2;
    proof {
        assert(fstart.skip(d2 as int) =~= t@.skip(f_end as int));
    }
    if d1 + d2 == 0 || d1 > 12 || f_end != len {
        return None;
    }
    proof {
        lemma_digit_run(t@);
        if has_dot {
            lemma_digit_run(fstart);
            assert forall|k: int| fbase <= k < f_end implies is_digit(#[trigger] t@[k]) by {
                assert(fstart[k - fbase] == t@[k]);
            }
        }
    }
    let int_part = digits_value(t, 0, d1);
    proof {
        assert(t@.subrange(0, d1 as int) =~= t@.take(d1 as int));
        assert(fstart.take(d2 as int) =~= t@.subrange(fbase as int, f_end as int));
    }
    let frac_part = frac_value(t, fbase, f_end);
    Some(int_part * 1000 + frac_part)
}

/// A decimal integer between 0 and 255: one to three digits.
pub open spec fn parse_int255_spec(t: Seq<char>) -> Option<u8> {
    if 1 <= t.len() <= 3 && digit_run(t) == t.len() && digits_val(t) <= 255 {
        Some(digits_val(t) as u8)
    } else {
        None
    }
}

/// Parses a color channel integer; exactly [`parse_int255_spec`].
pub fn parse_int255(t: &Vec<char>) -> (r: Option<u8>)
    ensures
        r == parse_int255_spec(t@),
{
    let len = t.len();
    if len < 1 || len > 3 {
        return None;
    }
    let d = digit_run_from(t, 0);
    proof {
        assert(t@.skip(0) =~= t@);
    }
    if d != len {
        return None;
    }
    proof {
        lemma_digit_run(t@);
        assert(t@.subrange(0, len as int) =~= t@);
        lemma_digits_val_bounds(t@);
        reveal_with_fuel(pow10, 4);
    }
    let v = digits_value(t, 0, len);
    if v <= 255 {
        Some(v as u8)
    } else {
        None
    }
}

/// Numeric value of one hexadecimal digit character.
pub fn hex_digit_value(c: char) -> (r: u8)
    requires
        is_hex_digit(c),
    ensures
        r as int == hex_val(c),
{
    if c >= '0' && c <= '9' {
        (c as u32 - 48) as u8
    } else if c >= 'a' && c <= 'f' {
        (c as u32 - 97 + 10) as u8
    } else {
        (c as u32 - 65 + 10) as u8
    }
}

/// A hex color: `#rgb`, `#rgba`, `#rrggbb` or `#rrggbbaa`.
pub open spec fn parse_hex_spec(s: Seq<char>) -> Option<Color> {
    if s.len() > 0 && s[0] == '#' && (forall|i: int| 1 <= i < s.len() ==> is_hex_digit(
        #[trigger] s[i],
    )) {
        if s.len() == 4 {
            Some(
                Color {
                    r: (hex_val(s[1]) * 17) as u8,
                    g: (hex_val(s[2]) * 17) as u8,
                    b: (hex_val(s[3]) * 17) as u8,
                    a: 255,
                },
            )
        } else if s.len() == 5 {
            Some(
                Color {
                    r: (hex_val(s[1]) * 17) as u8,
                    g: (hex_val(s[2]) * 17) as u8,
                    b: (hex_val(s[3]) * 17) as u8,
                    a: (hex_val(s[4]) * 17) as u8,
                },
            )
        } else if s.len() == 7 {
            Some(
                Color {
                    r: (hex_val(s[1]) * 16 + hex_val(s[2])) as u8,
                    g: (hex_val(s[3]) * 16 + hex_val(s[4])) as u8,
                    b: (hex_val(s[5]) * 16 + hex_val(s[6])) as u8,
                    a: 255,
                },
            )
        } else if s.len() == 9 {
            Some(
                Color {
                    r: (hex_val(s[1]) * 16 + hex_val(s[2])) as u8,
                    g: (hex_val(s[3]) * 16 + hex_val(s[4])) as u8,
                    b: (hex_val(s[5]) * 16 + hex_val(s[6])) as u8,
                    a: (hex_val(s[7]) * 16 + hex_val(s[8])) as u8,
                },
            )
        } else {
            None
        }
    } else {
        None
    }
}

/// Parses a hex color; exactly [`parse_hex_spec`].
pub fn parse_hex(t: &Vec<char>) -> (r: Option<Color>)
    ensures
        r == parse_hex_spec(t@),
{
    let len = t.len();
    if len == 0 || t[0] != '#' {
        return None;
    }
    let mut i: usize = 1;
    while i < len
        invariant_except_break
            1 <= i <= len,
            len == t@.len(),
            forall|k: int| 1 <= k < i ==> is_hex_digit(#[trigger] t@[k]),
        ensures
            1 <= i <= len,
            len == t@.len(),
            forall|k: int| 1 <= k < i ==> is_hex_digit(#[trigger] t@[k]),
            i < len ==> !is_hex_digit(t@[i as int]),
        decreases len - i,
    {
        let c = t[i];
        let dig = (c >= '0' && c <= '9') || (c >= 'a' && c <= 'f') || (c >= 'A' && c <= 'F');
        if !dig {
            break;
        }
        i = i + 1;
    }
    if i < len {
        return None;
    }
    if len == 4 {
        let r = hex_digit_value(t[1]) * 17;
        let g = hex_digit_value(t[2]) * 17;
        let b = hex_digit_value(t[3]) * 17;
        Some(Color { r, g, b, a: 255 })
    } else if len == 5 {
        let r = hex_digit_value(t[1]) * 17;
        let g = hex_digit_value(t[2]) * 17;
        let b = hex_digit_value(t[3]) * 17;
        let a = hex_digit_value(t[4]) * 17;
        Some(Color { r, g, b, a })
    } else if len == 7 {
        let r = hex_digit_value(t[1]) * 16 + hex_digit_value(t[2]);
        let g = hex_digit_value(t[3]) * 16 + hex_digit_value(t[4]);
        let b = hex_digit_value(t[5]) * 16 + hex_digit_value(t[6]);
        Some(Color { r, g, b, a: 255 })
    } else if len == 9 {
        let r = hex_digit_value(t[1]) * 16 + hex_digit_value(t[2]);
        let g = hex_digit_value(t[3]) * 16 + hex_digit_value(t[4]);
        let b = hex_digit_value(t[5]) * 16 + hex_digit_value(t[6]);
        let a = hex_digit_value(t[7]) * 16 + hex_digit_value(t[8]);
        Some(Color { r, g, b, a })
    } else {
        None
    }
}

/// An `rgb(r, g, b)` or `rgba(r, g, b, a)` color with integer channels and
/// a decimal alpha between 0 and 1.
pub open spec fn parse_rgb_spec(s: Seq<char>) -> Option<Color> {
    let inner_start: int = if s.len() >= 4 && s[0] == 'r' && s[1] == 'g' && s[2] == 'b' && s[3]
        == '(' {
        4
    } else if s.len() >= 5 && s[0] == 'r' && s[1] == 'g' && s[2] == 'b' && s[3] == 'a' && s[4]
        == '(' {
        5
    } else {
        0
    };
    if inner_start == 0 || s.len() < inner_start + 1 || s.last() != ')' {
        None
    } else {
        let args = split_commas(s.subrange(inner_start, s.len() - 1));
        if args.len() == 3 {
            match (parse_int255_spec(trim(args[0])), parse_int255_spec(trim(args[1])),
            parse_int255_spec(trim(args[2]))) {
                (Some(r), Some(g), Some(b)) => Some(Color { r, g, b, a: 255 }),
                _ => None,
            }
        } else if args.len() == 4 {
            match (parse_int255_spec(trim(args[0])), parse_int255_spec(trim(args[1])),
            parse_int255_spec(trim(args[2])), parse_milli_spec(trim(args[3]))) {
                (Some(r), Some(g), Some(b), Some(m)) => if m <= 1000 {
                    Some(Color { r, g, b, a: ((m * 255 + 500) / 1000) as u8 })
                } else {
                    None
                },
                _ => None,
            }
        } else {
            None
        }
    }
}

/// Parses an `rgb()`/`rgba()` color; exactly [`parse_rgb_spec`].
#[verifier::rlimit(50)]
pub fn parse_rgb(t: &Vec<char>) -> (res: Option<Color>)
    ensures
        res == parse_rgb_spec(t@),
{
    let len = t.len();
    let inner_start: usize = if len >= 4 && t[0] == 'r' && t[1] == 'g' && t[2] == 'b' && t[3]
        == '(' {
        4
    } else if len >= 5 && t[0] == 'r' && t[1] == 'g' && t[2] == 'b' && t[3] == 'a' && t[4] == '(' {
        5
    } else {
        0
    };
    if inner_start == 0 || len < inner_start + 1 || t[len - 1] != ')' {
        return None;
    }
    let mut inner: Vec<char> = Vec::new();
    let mut k = inner_start;
    while k < len - 1
        invariant
            inner_start <= k <= len - 1,
            len == t@.len(),
            inner@ == t@.subrange(inner_start as int, k as int),
        decreases len - 1 - k,
    {
        inner.push(t[k]);
        k = k + 1;
        proof {
            assert(inner@ =~= t@.subrange(inner_start as int, k as int));
        }
    }
    let args = split_on_commas(&inner);
    proof {
        assert(args.deep_view() == split_commas(t@.subrange(inner_start as int, len - 1)));
    }
    if args.len() == 3 {
        let a0 = trim_chars(&args[0]);
        let a1 = trim_chars(&args[1]);
        let a2 = trim_chars(&args[2]);
        proof {
            assert(args.deep_view()[0] == args@[0].deep_view());
            assert(args@[0].deep_view() =~= args@[0]@);
            assert(args.deep_view()[1] == args@[1].deep_view());
            assert(args@[1].deep_view() =~= args@[1]@);
            assert(args.deep_view()[2] == args@[2].deep_view());
            assert(args@[2].deep_view() =~= args@[2]@);
        }
        let r = parse_int255(&a0);
        let g = parse_int255(&a1);
        let b = parse_int255(&a2);
        match (r, g, b) {
            (Some(r), Some(g), Some(b)) => Some(Color { r, g, b, a: 255 }),
            _ => None,
        }
    } else if args.len() == 4 {
        let a0 = trim_chars(&args[0]);
        let a1 = trim_chars(&args[1]);
        let a2 = trim_chars(&args[2]);
        let a3 = trim_chars(&args[3]);
        proof {
            assert(args.deep_view()[0] == args@[0].deep_view());
            assert(args@[0].deep_view() =~= args@[0]@);
            assert(args.deep_view()[1] == args@[1].deep_view());
            assert(args@[1].deep_view() =~= args@[1]@);
            assert(args.deep_view()[2] == args@[2].deep_view());
            assert(args@[2].deep_view() =~= args@[2]@);
            assert(args.deep_view()[3] == args@[3].deep_view());
            assert(args@[3].deep_view() =~= args@[3]@);
        }
        let r = parse_int255(&a0);
        let g = parse_int255(&a1);
        let b = parse_int255(&a2);
        let m = parse_milli(&a3);
        match (r, g, b, m) {
            (Some(r), Some(g), Some(b), Some(m)) => {
                if m <= 1000 {
                    proof {
                        assert(0 <= (m * 255 + 500) / 1000 <= 255);
                    }
                    Some(Color { r, g, b, a: ((m * 255 + 500) / 1000) as u8 })
                } else {
                    None
                }
            },
            _ => None,
        }
    } else {
        None
    }
}

/// A color value in any accepted written form: a name, a hex color, or an
/// `rgb()`/`rgba()` function.
pub open spec fn parse_color_spec(s: Seq<char>) -> Option<Color> {
    if named_color_spec(s) is Some {
        named_color_spec(s)
    } else if s.len() > 0 && s[0] == '#' {
        parse_hex_spec(s)
    } else {
        parse_rgb_spec(s)
    }
}

/// Parses a color value; exactly [`parse_color_spec`].
pub fn parse_color(t: &Vec<char>) -> (r: Option<Color>)
    ensures
        r == parse_color_spec(t@),
{
    let named = named_color(t);
    if named.is_some() {
        return named;
    }
    if t.len() > 0 && t[0] == '#' {
        return parse_hex(t);
    }
    parse_rgb(t)
}

/// The variable name referenced by a `var(--name)` value, dashes included;
/// anything after the name is ignored.
pub open spec fn var_name_of(s: Seq<char>) -> Option<Seq<char>> {
    let t = s.skip(ws_run(s) as int);
    if t.len() >= 4 && t[0] == 'v' && t[1] == 'a' && t[2] == 'r' && t[3] == '(' {
        let u = t.skip(4);
        let u2 = u.skip(ws_run(u) as int);
        if u2.len() >= 2 && u2[0] == '-' && u2[1] == '-' && ident_run(u2) > 2 {
            Some(u2.take(ident_run(u2) as int))
        } else {
            None
        }
    } else {
        None
    }
}

/// Length of the whitespace run of `t` starting at `from`.
fn ws_run_from(t: &Vec<char>, from: usize) -> (n: usize)
    requires
        from <= t.len(),
    ensures
        from + n <= t@.len(),
        n == ws_run(t@.skip(from as int)),
{
    let len = t.len();
    let mut j = from;
    while j < len
        invariant_except_break
            from <= j <= len,
            len == t@.len(),
            forall|k: int| from <= k < j ==> is_ws(#[trigger] t@[k]),
        ensures
            from <= j <= len,
            len == t@.len(),
            forall|k: int| from <= k < j ==> is_ws(#[trigger] t@[k]),
            j < len ==> !is_ws(t@[j as int]),
        decreases len - j,
    {
        let c = t[j];
        if !(c == ' ' || c == '\t' || c == '\n' || c == '\r' || c == '\u{c}') {
            break;
        }
        j = j + 1;
    }
    proof {
        let rest = t@.skip(from as int);
        assert forall|p: int| 0 <= p < j - from implies is_ws(#[trigger] rest[p]) by {
            assert(rest[p] == t@[from + p]);
        }
        if j - from < rest.len() {
            assert(rest[j - from] == t@[j as int]);
        }
        lemma_ws_run_is(rest, j - from);
    }
    j - from
}

/// Length of the identifier-character run of `t` starting at `from`.
pub(crate) fn ident_run_from(t: &Vec<char>, from: usize) -> (n: usize)
    requires
        from <= t.len(),
    ensures
        from + n <= t@.len(),
        n == ident_run(t@.skip(from as int)),
{
    let len = t.len();
    let mut j = from;
    while j < len
        invariant_except_break
            from <= j <= len,
            len == t@.len(),
            forall|k: int| from <= k < j ==> is_ident_char(#[trigger] t@[k]),
        ensures
            from <= j <= len,
            len == t@.len(),
            forall|k: int| from <= k < j ==> is_ident_char(#[trigger] t@[k]),
            j < len ==> !is_ident_char(t@[j as int]),
        decreases len - j,
    {
        let c = t[j];
        let ok = (c >= '0' && c <= '9') || (c >= 'a' && c <= 'z') || (c >= 'A' && c <= 'Z') || c
            == '_' || c == '-';
        if !ok {
            break;
        }
        j = j + 1;
    }
    proof {
        let rest = t@.skip(from as int);
        assert forall|p: int| 0 <= p < j - from implies is_ident_char(#[trigger] rest[p]) by {
            assert(rest[p] == t@[from + p]);
        }
        if j - from < rest.len() {
            assert(rest[j - from] == t@[j as int]);
        }
        lemma_ident_run_is(rest, j - from);
    }
    j - from
}

/// Finds a `var(--name)` reference; exactly [`var_name_of`].
#[verifier::rlimit(50)]
pub fn find_var_name(v: &Vec<char>) -> (r: Option<Vec<char>>)
    ensures
        r is Some <==> var_name_of(v@) is Some,
        r is Some ==> r.unwrap()@ == var_name_of(v@).unwrap(),
{
    let len = v.len();
    let w0 = ws_run_from(v, 0);
    proof {
        assert(v@.skip(0) =~= v@);
    }
    let ghost t = v@.skip(w0 as int);
    if !(len >= 4 && w0 <= len - 4 && v[w0] == 'v' && v[w0 + 1] == 'a' && v[w0 + 2] == 'r' && v[w0
        + 3] == '(') {
        proof {
            if t.len() >= 4 {
                assert(t[0] == v@[w0 as int]);
                assert(t[1] == v@[w0 + 1]);
                assert(t[2] == v@[w0 + 2]);
                assert(t[3] == v@[w0 + 3]);
            }
        }
        return None;
    }
    proof {
        assert(t[0] == v@[w0 as int]);
        assert(t[1] == v@[w0 + 1]);
        assert(t[2] == v@[w0 + 2]);
        assert(t[3] == v@[w0 + 3]);
    }
    let ubase = w0 + 4;
    let ghost u = t.skip(4);
    proof {
        assert(u =~= v@.skip(ubase as int));
    }
    let w1 = ws_run_from(v, ubase);
    let nbase = ubase + w1;
    let ghost u2 = u.skip(ws_run(u) as int);
    proof {
        assert(u2 =~= v@.skip(nbase as int));
    }
    if !(len >= 2 && nbase <= len - 2 && v[nbase] == '-' && v[nbase + 1] == '-') {
        proof {
            if u2.len() >= 2 {
                assert(u2[0] == v@[nbase as int]);
                assert(u2[1] == v@[nbase + 1]);
            }
        }
        return None;
    }
    proof {
        assert(u2[0] == v@[nbase as int]);
        assert(u2[1] == v@[nbase + 1]);
    }
    let n = ident_run_from(v, nbase);
    proof {
        assert(ident_run(u2) == n);
    }
    if n <= 2 {
        return None;
    }
    let nend = nbase + n;
    let mut name: Vec<char> = Vec::new();
    let mut k = nbase;
    while k < nend
        invariant
            nbase <= k <= nend,
            nend == nbase + n,
            nend <= v@.len(),
            name@ == v@.subrange(nbase as int, k as int),
        decreases nend - k,
    {
        name.push(v[k]);
        k = k + 1;
        proof {
            assert(name@ =~= v@.subrange(nbase as int, k as int));
        }
    }
    proof {
        assert(name@ =~= u2.take(ident_run(u2) as int));
    }
    Some(name)
}

/// Length of the prefix of `s` free of slashes.
pub open spec fn slash_run(s: Seq<char>) -> nat
    decreases s.len(),
{
    if s.len() == 0 || s[0] == '/' {
        0
    } else {
        1 + slash_run(s.drop_first())
    }
}

/// An index scan finds `slash_run`.
pub proof fn lemma_slash_run_is(s: Seq<char>, n: int)
    requires
        0 <= n <= s.len(),
        forall|i: int| 0 <= i < n ==> #[trigger] s[i] != '/',
        n < s.len() ==> s[n] == '/',
    ensures
        slash_run(s) == n,
    decreases n,
{
    if n == 0 {
    } else {
        assert(s[0] != '/');
        assert forall|i: int| 0 <= i < n - 1 implies #[trigger] s.drop_first()[i] != '/' by {
            assert(s.drop_first()[i] == s[i + 1]);
        }
        if n - 1 < s.drop_first().len() {
            assert(s.drop_first()[n - 1] == s[n]);
        }
        lemma_slash_run_is(s.drop_first(), n - 1);
    }
}

/// Length of the slash-free prefix of `v`; exactly [`slash_run`].
pub fn slash_run_of(v: &Vec<char>) -> (n: usize)
    ensures
        n <= v@.len(),
        n == slash_run(v@),
{
    let len = v.len();
    let mut j: usize = 0;
    while j < len
        invariant_except_break
            j <= len,
            len == v@.len(),
            forall|k: int| 0 <= k < j ==> #[trigger] v@[k] != '/',
        ensures
            j <= len,
            len == v@.len(),
            forall|k: int| 0 <= k < j ==> #[trigger] v@[k] != '/',
            j < len ==> v@[j as int] == '/',
        decreases len - j,
    {
        if v[j] == '/' {
            break;
        }
        j = j + 1;
    }
    proof {
        lemma_slash_run_is(v@, j as int);
    }
    j
}

/// The piece of `v` between `from` and `to`, as its own vector.
pub fn copy_range(v: &Vec<char>, from: usize, to: usize) -> (out: Vec<char>)
    requires
        from <= to <= v.len(),
    ensures
        out@ == v@.subrange(from as int, to as int),
{
    let mut out: Vec<char> = Vec::new();
    let mut k = from;
    proof {
        assert(out@ =~= v@.subrange(from as int, from as int));
    }
    while k < to
        invariant
            from <= k <= to <= v@.len(),
            out@ == v@.subrange(from as int, k as int),
        decreases to - k,
    {
        out.push(v[k]);
        k = k + 1;
        proof {
            assert(out@ =~= v@.subrange(from as int, k as int));
        }
    }
    out
}

/// Relies on `String`'s `FromIterator<char>`: collecting characters yields
/// the string of exactly those characters.
#[verifier::external_body]
pub fn string_from_chars(v: &Vec<char>) -> (r: String)
    ensures
        r@ == v@,
{
    v.iter().collect()
}

/// An ASCII letter.
pub open spec fn is_alpha(c: char) -> bool {
    ('a' as int <= c as int && c as int <= 'z' as int) || ('A' as int <= c as int && c as int
        <= 'Z' as int)
}

/// A word character: an ASCII letter, a digit, or an underscore.
pub open spec fn is_word_char(c: char) -> bool {
    is_alpha(c) || is_digit(c) || c == '_'
}

/// Length of the longest prefix of `s` made of word characters.
pub open spec fn word_run(s: Seq<char>) -> nat
    decreases s.len(),
{
    if s.len() == 0 || !is_word_char(s[0]) {
        0
    } else {
        1 + word_run(s.drop_first())
    }
}

/// Characterization of `word_run`.
pub proof fn lemma_word_run(s: Seq<char>)
    ensures
        word_run(s) <= s.len(),
        forall|i: int| 0 <= i < word_run(s) ==> is_word_char(#[trigger] s[i]),
        word_run(s) < s.len() ==> !is_word_char(s[word_run(s) as int]),
    decreases s.len(),
{
    if s.len() == 0 || !is_word_char(s[0]) {
    } else {
        lemma_word_run(s.drop_first());
        assert forall|i: int| 0 <= i < word_run(s) implies is_word_char(#[trigger] s[i]) by {
            if i > 0 {
                assert(s.drop_first()[i - 1] == s[i]);
            }
        }
        if word_run(s) < s.len() {
            assert(s.drop_first()[word_run(s) - 1] == s[word_run(s) as int]);
        }
    }
}

/// An index scan finds `word_run`.
pub proof fn lemma_word_run_is(s: Seq<char>, n: int)
    requires
        0 <= n <= s.len(),
        forall|i: int| 0 <= i < n ==> is_word_char(#[trigger] s[i]),
        n < s.len() ==> !is_word_char(s[n]),
    ensures
        word_run(s) == n,
    decreases n,
{
    if n == 0 {
    } else {
        assert(is_word_char(s[0]));
        assert forall|i: int| 0 <= i < n - 1 implies is_word_char(#[trigger] s.drop_first()[i]) by {
            assert(s.drop_first()[i] == s[i + 1]);
        }
        if n - 1 < s.drop_first().len() {
            assert(s.drop_first()[n - 1] == s[n]);
        }
        lemma_word_run_is(s.drop_first(), n - 1);
    }
}

/// Length of the word-character run of `t` starting at `from`.
pub(crate) fn word_run_from(t: &Vec<char>, from: usize) -> (n: usize)
    requires
        from <= t.len(),
    ensures
        from + n <= t@.len(),
        n == word_run(t@.skip(from as int)),
{
    let len = t.len();
    let mut j = from;
    while j < len
        invariant_except_break
            from <= j <= len,
            len == t@.len(),
            forall|k: int| from <= k < j ==> is_word_char(#[trigger] t@[k]),
        ensures
            from <= j <= len,
            len == t@.len(),
            forall|k: int| from <= k < j ==> is_word_char(#[trigger] t@[k]),
            j < len ==> !is_word_char(t@[j as int]),
        decreases len - j,
    {
        let c = t[j];
        let ok = (c >= '0' && c <= '9') || (c >= 'a' && c <= 'z') || (c >= 'A' && c <= 'Z') || c
            == '_';
        if !ok {
            break;
        }
        j = j + 1;
    }
    proof {
        let rest = t@.skip(from as int);
        assert forall|p: int| 0 <= p < j - from implies is_word_char(#[trigger] rest[p]) by {
            assert(rest[p] == t@[from + p]);
        }
        if j - from < rest.len() {
            assert(rest[j - from] == t@[j as int]);
        }
        lemma_word_run_is(rest, j - from);
    }
    j - from
}

} // verus!
