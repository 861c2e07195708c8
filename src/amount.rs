use vstd::prelude::*;
use vstd::arithmetic::div_mod::{lemma_mod_breakdown, lemma_fundamental_div_mod};
use crate::text::{digit_char, decimal_text, padded_decimal_text, push_decimal, push_padded_decimal};

verus! {

/// Number of fixed-point ticks in one whole unit: quantities and prices are
/// stored in hundred-millionths.
pub const SCALE: i64 = 100_000_000;

/// `x` clamped into the range of a `usize`.
pub open spec fn clamp_usize(x: int) -> int {
    if x < 0 {
        0
    } else if x > usize::MAX {
        usize::MAX as int
    } else {
        x
    }
}

/// Division rounding down, for a positive divisor.
pub open spec fn floor_div(a: int, d: int) -> int
    recommends
        d > 0,
{
    a / d
}

/// Division rounding up, for a positive divisor.
pub open spec fn ceil_div(a: int, d: int) -> int
    recommends
        d > 0,
{
    -((-a) / d)
}

/// Digits after the decimal point that a quantity or price can carry.
pub const FRACTION_DIGITS: u32 = 8;

/// `10` to the power `e`.
pub open spec fn pow10(e: nat) -> int
    decreases e,
{
    if e == 0 {
        1
    } else {
        10 * pow10((e - 1) as nat)
    }
}

/// ASCII whitespace: space, tab, line feed, form feed, carriage return.
pub open spec fn is_space(c: char) -> bool {
    c == ' ' || c == '\t' || c == '\n' || c == '\x0C' || c == '\r'
}

/// `s` without its leading ASCII whitespace.
pub open spec fn trim_start(s: Seq<char>) -> Seq<char>
    decreases s.len(),
{
    if s.len() > 0 && is_space(s[0]) {
        trim_start(s.drop_first())
    } else {
        s
    }
}

/// `s` without its trailing ASCII whitespace.
pub open spec fn trim_end(s: Seq<char>) -> Seq<char>
    decreases s.len(),
{
    if s.len() > 0 && is_space(s.last()) {
        trim_end(s.drop_last())
    } else {
        s
    }
}

/// `s` without its surrounding ASCII whitespace.
pub open spec fn trim(s: Seq<char>) -> Seq<char> {
    trim_end(trim_start(s))
}

/// An ASCII decimal digit.
pub open spec fn is_digit(c: char) -> bool {
    '0' <= c && c <= '9'
}

/// Every character of `s` is a decimal digit.
pub open spec fn all_digits(s: Seq<char>) -> bool {
    forall|i: int| 0 <= i < s.len() ==> is_digit(#[trigger] s[i])
}

/// Value of a string of decimal digits (zero for the empty string).
pub open spec fn digits_value(s: Seq<char>) -> int
    decreases s.len(),
{
    if s.len() == 0 {
        0
    } else {
        digits_value(s.drop_last()) * 10 + (s.last() as int - '0' as int)
    }
}

/// Index of the first `.` of `s`, or its length when it has none.
pub open spec fn dot_index(s: Seq<char>) -> int
    decreases s.len(),
{
    if s.len() == 0 || s[0] == '.' {
        0
    } else {
        1 + dot_index(s.drop_first())
    }
}

/// Value in ticks of an unsigned decimal: digits, optionally a `.` and at
/// most eight more digits, with at least one digit in all.
pub open spec fn unsigned_ticks(s: Seq<char>) -> Option<int> {
    let d = dot_index(s);
    let whole = s.take(d);
    let fraction = if d < s.len() {
        s.skip(d + 1)
    } else {
        Seq::empty()
    };
    if all_digits(whole) && all_digits(fraction) && whole.len() + fraction.len() > 0
        && fraction.len() <= FRACTION_DIGITS {
        Some(
            digits_value(whole) * pow10(FRACTION_DIGITS as nat) + digits_value(fraction) * pow10(
                (FRACTION_DIGITS - fraction.len()) as nat,
            ),
        )
    } else {
        None
    }
}

/// Value in ticks of a decimal field: surrounding ASCII whitespace, an
/// optional sign, then an unsigned decimal.
pub open spec fn decimal_ticks(s: Seq<char>) -> Option<int> {
    let t = trim(s);
    if t.len() > 0 && t[0] == '-' {
        match unsigned_ticks(t.drop_first()) {
            Some(v) => Some(-v),
            None => None,
        }
    } else if t.len() > 0 && t[0] == '+' {
        unsigned_ticks(t.drop_first())
    } else {
        unsigned_ticks(t)
    }
}

/// Value of a whole-number field: surrounding ASCII whitespace, an optional
/// `+`, then at least one digit.
pub open spec fn count_value(s: Seq<char>) -> Option<int> {
    let t = trim(s);
    let u = if t.len() > 0 && t[0] == '+' {
        t.drop_first()
    } else {
        t
    };
    if u.len() > 0 && all_digits(u) {
        Some(digits_value(u))
    } else {
        None
    }
}

/// Text of a quantity of `q` ticks: an optional `-`, the whole units, and
/// when there is a fractional part, a `.` and its eight digits.
pub open spec fn quantity_text(q: int) -> Seq<char> {
    let m = if q < 0 {
        -q
    } else {
        q
    };
    let sign = if q < 0 {
        seq!['-']
    } else {
        Seq::empty()
    };
    let whole = decimal_text((m / SCALE as int) as nat);
    if m % (SCALE as int) == 0 {
        sign + whole
    } else {
        sign + whole + seq!['.'] + padded_decimal_text(
            (m % (SCALE as int)) as nat,
            FRACTION_DIGITS as nat,
        )
    }
}

/// The characters of `s`.
pub fn chars_of(s: &str) -> (r: Vec<char>)
    ensures
        r@ == s@,
{
    let n = s.unicode_len();
    let mut r: Vec<char> = Vec::new();
    let mut i: usize = 0;
    while i < n
        invariant
            n == s@.len(),
            i <= n,
            r@ == s@.take(i as int),
        decreases n - i,
    {
        r.push(s.get_char(i));
        assert(s@.take(i + 1) =~= s@.take(i as int).push(s@[i as int]));
        i = i + 1;
    }
    assert(s@.take(n as int) =~= s@);
    r
}

fn is_space_char(c: char) -> (r: bool)
    ensures
        r == is_space(c),
{
    c == ' ' || c == '\t' || c == '\n' || c == '\x0C' || c == '\r'
}

/// Bounds `lo..hi` of `trim(cs)` inside `cs`.
pub(crate) fn trim_bounds(cs: &Vec<char>) -> (r: (usize, usize))
    ensures
        r.0 <= r.1 <= cs.len(),
        cs@.subrange(r.0 as int, r.1 as int) == trim(cs@),
{
    let n = cs.len();
    let mut lo: usize = 0;
    assert(cs@.skip(0) =~= cs@);
    while lo < n && is_space_char(cs[lo])
        invariant
            n == cs.len(),
            lo <= n,
            trim_start(cs@) == trim_start(cs@.skip(lo as int)),
        decreases n - lo,
    {
        assert(cs@.skip(lo as int).drop_first() =~= cs@.skip(lo + 1));
        lo = lo + 1;
    }
    let ghost front = cs@.skip(lo as int);
    assert(trim_start(cs@) == front);
    let mut hi: usize = n;
    assert(front.take(front.len() as int) =~= front);
    while hi > lo && is_space_char(cs[hi - 1])
        invariant
            n == cs.len(),
            lo <= hi <= n,
            front == cs@.skip(lo as int),
            trim_end(front) == trim_end(cs@.subrange(lo as int, hi as int)),
        decreases hi,
    {
        assert(cs@.subrange(lo as int, hi as int).drop_last() =~= cs@.subrange(
            lo as int,
            hi - 1,
        ));
        hi = hi - 1;
    }
    (lo, hi)
}

proof fn lemma_digits_value_prefix(s: Seq<char>, j: int)
    requires
        all_digits(s),
        0 <= j <= s.len(),
    ensures
        0 <= digits_value(s.take(j)) <= digits_value(s),
    decreases s.len(),
{
    if s.len() > 0 {
        let p = s.drop_last();
        assert(all_digits(p)) by {
            assert forall|i: int| 0 <= i < p.len() implies is_digit(#[trigger] p[i]) by {
                assert(p[i] == s[i]);
            }
        }
        assert(is_digit(s[s.len() - 1]));
        if j == s.len() {
            assert(s.take(j) =~= s);
            lemma_digits_value_prefix(p, p.len() as int);
            assert(p.take(p.len() as int) =~= p);
        } else {
            assert(s.take(j) =~= p.take(j));
            lemma_digits_value_prefix(p, j);
            lemma_digits_value_prefix(p, p.len() as int);
            assert(p.take(p.len() as int) =~= p);
        }
    }
}

proof fn lemma_dot_index(s: Seq<char>, k: int)
    requires
        0 <= k <= s.len(),
        forall|i: int| 0 <= i < k ==> s[i] != '.',
        k == s.len() || s[k] == '.',
    ensures
        dot_index(s) == k,
    decreases s.len(),
{
    if s.len() > 0 && s[0] != '.' {
        lemma_dot_index(s.drop_first(), k - 1);
    }
}

proof fn lemma_pow10_positive(e: nat)
    ensures
        pow10(e) >= 1,
    decreases e,
{
    if e > 0 {
        lemma_pow10_positive((e - 1) as nat);
    }
}

/// Reads a run of digits `cs[from..to]`, giving up once the value passes
/// `limit`.
fn read_digits(cs: &Vec<char>, from: usize, to: usize, limit: u128) -> (r: Option<u128>)
    requires
        from <= to <= cs.len(),
        limit <= u64::MAX,
    ensures
        match r {
            Some(v) => all_digits(cs@.subrange(from as int, to as int)) && v == digits_value(
                cs@.subrange(from as int, to as int),
            ) && v <= limit,
            None => !all_digits(cs@.subrange(from as int, to as int)) || digits_value(
                cs@.subrange(from as int, to as int),
            ) > limit,
        },
{
    let mut v: u128 = 0;
    let mut i: usize = from;
    while i < to
        invariant
            from <= i <= to <= cs.len(),
            limit <= u64::MAX,
            v <= limit,
            all_digits(cs@.subrange(from as int, i as int)),
            v == digits_value(cs@.subrange(from as int, i as int)),
        decreases to - i,
    {
        let c = cs[i];
        let ghost run = cs@.subrange(from as int, i + 1);
        assert(run.drop_last() =~= cs@.subrange(from as int, i as int));
        if !('0' <= c && c <= '9') {
            proof {
                assert(!is_digit(cs@.subrange(from as int, to as int)[i - from]));
            }
            return None;
        }
        let d = (c as u32 - '0' as u32) as u128;
        let next = v * 10 + d;
        proof {
            assert(all_digits(run)) by {
                assert forall|k: int| 0 <= k < run.len() implies is_digit(#[trigger] run[k]) by {
                    if k < run.len() - 1 {
                        assert(run[k] == cs@.subrange(from as int, i as int)[k]);
                    }
                }
            }
        }
        if next > limit {
            proof {
                let whole = cs@.subrange(from as int, to as int);
                if all_digits(whole) {
                    assert(whole.take(i + 1 - from) =~= run);
                    lemma_digits_value_prefix(whole, i + 1 - from);
                }
            }
            return None;
        }
        v = next;
        i = i + 1;
    }
    Some(v)
}

/// `10` to the power `e`, for `e <= 8`.
fn pow10_small(e: u32) -> (r: u128)
    requires
        e <= FRACTION_DIGITS,
    ensures
        r == pow10(e as nat),
        r <= 100_000_000,
    decreases e,
{
    if e == 0 {
        1
    } else {
        let x = pow10_small(e - 1);
        proof {
            lemma_pow10_monotone(e as nat, FRACTION_DIGITS as nat);
            reveal_with_fuel(pow10, 9);
        }
        10 * x
    }
}

/// A value that fits an `i64`, as one.
pub open spec fn as_i64(v: Option<int>) -> Option<i64> {
    match v {
        Some(x) => if i64::MIN <= x <= i64::MAX {
            Some(x as i64)
        } else {
            None
        },
        None => None,
    }
}

/// A value that fits a `usize`, as one.
pub open spec fn as_usize(v: Option<int>) -> Option<usize> {
    match v {
        Some(x) => if 0 <= x <= usize::MAX {
            Some(x as usize)
        } else {
            None
        },
        None => None,
    }
}

/// Reads the unsigned decimal `cs[p..hi]`, in ticks, giving up on values of
/// more than `10^19` ticks.
fn read_unsigned(cs: &Vec<char>, p: usize, hi: usize) -> (r: Option<u128>)
    requires
        p <= hi <= cs.len(),
    ensures
        match r {
            Some(v) => unsigned_ticks(cs@.subrange(p as int, hi as int)) == Some(v as int) && v
                <= 20_000_000_000_000_000_000,
            None => unsigned_ticks(cs@.subrange(p as int, hi as int)) is None || unsigned_ticks(
                cs@.subrange(p as int, hi as int),
            )->0 > 10_000_000_000_000_000_000,
        },
{
    let ghost body = cs@.subrange(p as int, hi as int);
    let mut d = p;
    while d < hi && cs[d] != '.'
        invariant
            p <= d <= hi <= cs.len(),
            forall|j: int| p <= j < d ==> cs@[j] != '.',
        decreases hi - d,
    {
        d = d + 1;
    }
    proof {
        lemma_dot_index(body, d - p);
        assert(body.take(d - p) =~= cs@.subrange(p as int, d as int));
    }
    let frac_start = if d < hi {
        d + 1
    } else {
        hi
    };
    let ghost whole = body.take(d - p);
    let ghost fraction = if d < hi {
        body.skip(d - p + 1)
    } else {
        Seq::<char>::empty()
    };
    assert(fraction =~= cs@.subrange(frac_start as int, hi as int));
    proof {
        reveal_with_fuel(pow10, 9);
        assert(pow10(FRACTION_DIGITS as nat) == 100_000_000);
    }
    if hi - frac_start > 8 || (d - p) + (hi - frac_start) == 0 {
        return None;
    }
    let whole_value = match read_digits(cs, p, d, 100_000_000_000) {
        Some(v) => v,
        None => {
            proof {
                if all_digits(whole) && all_digits(fraction) {
                    lemma_pow10_positive((FRACTION_DIGITS - fraction.len()) as nat);
                    lemma_digits_value_bound(fraction);
                    let a = digits_value(whole);
                    let b = digits_value(fraction) * pow10((FRACTION_DIGITS - fraction.len()) as nat);
                    assert(b >= 0) by (nonlinear_arith)
                        requires
                            digits_value(fraction) >= 0,
                            pow10((FRACTION_DIGITS - fraction.len()) as nat) >= 1,
                            b == digits_value(fraction) * pow10((FRACTION_DIGITS - fraction.len()) as nat),
                    ;
                    assert(a * 100_000_000 > 10_000_000_000_000_000_000) by (nonlinear_arith)
                        requires
                            a > 100_000_000_000,
                    ;
                }
            }
            return None;
        },
    };
    let fraction_value = match read_digits(cs, frac_start, hi, 100_000_000) {
        Some(v) => v,
        None => {
            proof {
                if all_digits(fraction) {
                    lemma_digits_value_bound(fraction);
                    lemma_pow10_monotone(fraction.len(), FRACTION_DIGITS as nat);
                }
            }
            return None;
        },
    };
    let flen = (hi - frac_start) as u32;
    let factor = pow10_small(8 - flen);
    assert(whole_value * 100_000_000 <= 10_000_000_000_000_000_000) by (nonlinear_arith)
        requires
            whole_value <= 100_000_000_000,
    ;
    assert(fraction_value * factor <= 10_000_000_000_000_000) by (nonlinear_arith)
        requires
            fraction_value <= 100_000_000,
            factor <= 100_000_000,
    ;
    Some(whole_value * 100_000_000 + fraction_value * factor)
}

/// Reads a quantity or price in ticks from decimal text such as `-12.5`:
/// optional surrounding ASCII whitespace and sign, at most eight fractional
/// digits. `None` when the text is not such a decimal or its value does not
/// fit an `i64`.
pub fn parse_quantity(s: &str) -> (r: Option<i64>)
    ensures
        r == as_i64(decimal_ticks(s@)),
{
    let cs = chars_of(s);
    let (lo, hi) = trim_bounds(&cs);
    let ghost t = cs@.subrange(lo as int, hi as int);
    let mut p = lo;
    let mut negative = false;
    if p < hi && cs[p] == '-' {
        negative = true;
        p = p + 1;
    } else if p < hi && cs[p] == '+' {
        p = p + 1;
    }
    assert(cs@.subrange(p as int, hi as int) == if t.len() > 0 && (t[0] == '-' || t[0] == '+') {
        t.drop_first()
    } else {
        t
    });
    assert(t == trim(s@));
    let magnitude = match read_unsigned(&cs, p, hi) {
        Some(v) => v as i128,
        None => {
            return None;
        },
    };
    let value = if negative {
        -magnitude
    } else {
        magnitude
    };
    if value < i64::MIN as i128 || value > i64::MAX as i128 {
        return None;
    }
    Some(value as i64)
}

proof fn lemma_digits_value_bound(s: Seq<char>)
    requires
        all_digits(s),
    ensures
        0 <= digits_value(s) < pow10(s.len()),
    decreases s.len(),
{
    if s.len() > 0 {
        let p = s.drop_last();
        assert(all_digits(p)) by {
            assert forall|i: int| 0 <= i < p.len() implies is_digit(#[trigger] p[i]) by {
                assert(p[i] == s[i]);
            }
        }
        assert(is_digit(s[s.len() - 1]));
        lemma_digits_value_bound(p);
    }
}

proof fn lemma_pow10_monotone(a: nat, b: nat)
    requires
        a <= b,
    ensures
        pow10(a) <= pow10(b),
    decreases b,
{
    lemma_pow10_positive(a);
    if a < b {
        lemma_pow10_monotone(a, (b - 1) as nat);
    }
}

/// Reads a whole number such as `120690000`: optional surrounding ASCII
/// whitespace and `+`, then digits. `None` when the text is not such a number
/// or its value does not fit a `usize`.
pub fn parse_count(s: &str) -> (r: Option<usize>)
    ensures
        r == as_usize(count_value(s@)),
{
    let cs = chars_of(s);
    let (lo, hi) = trim_bounds(&cs);
    let mut p = lo;
    if p < hi && cs[p] == '+' {
        p = p + 1;
    }
    assert(cs@.subrange(p as int, hi as int) == if cs@.subrange(lo as int, hi as int).len() > 0
        && cs@.subrange(lo as int, hi as int)[0] == '+' {
        cs@.subrange(lo as int, hi as int).drop_first()
    } else {
        cs@.subrange(lo as int, hi as int)
    });
    if p == hi {
        return None;
    }
    match read_digits(&cs, p, hi, usize::MAX as u128) {
        Some(v) => Some(v as usize),
        None => None,
    }
}

/// Writes a quantity or price of `q` ticks as decimal text, the form that
/// [`parse_quantity`] reads back.
pub fn format_quantity(q: i64) -> (r: String)
    ensures
        r@ == quantity_text(q as int),
{
    let m: i128 = if q < 0 {
        -(q as i128)
    } else {
        q as i128
    };
    let mut out = String::new();
    if q < 0 {
        out.append("-");
        proof {
            reveal_strlit("-");
        }
    }
    let whole = (m / (SCALE as i128)) as u128;
    let fraction = (m % (SCALE as i128)) as u128;
    push_decimal(&mut out, whole);
    if fraction != 0 {
        out.append(".");
        proof {
            reveal_strlit(".");
        }
        push_padded_decimal(&mut out, fraction, FRACTION_DIGITS);
    }
    proof {
        let sign = if q < 0 {
            seq!['-']
        } else {
            Seq::empty()
        };
        assert(out@ =~= quantity_text(q as int));
    }
    out
}

proof fn lemma_digit_char(d: int)
    requires
        0 <= d < 10,
    ensures
        is_digit(digit_char(d)),
        digit_char(d) as int - '0' as int == d,
        !is_space(digit_char(d)),
        digit_char(d) != '.',
        digit_char(d) != '-',
        digit_char(d) != '+',
{
}

proof fn lemma_decimal_text(n: nat)
    ensures
        decimal_text(n).len() > 0,
        all_digits(decimal_text(n)),
        digits_value(decimal_text(n)) == n,
    decreases n,
{
    lemma_digit_char((n % 10) as int);
    if n >= 10 {
        lemma_decimal_text(n / 10);
        lemma_fundamental_div_mod(n as int, 10);
        let p = decimal_text(n / 10);
        let t = decimal_text(n);
        assert(t.drop_last() == p);
        assert(t.last() == digit_char((n % 10) as int));
        assert forall|i: int| 0 <= i < t.len() implies is_digit(#[trigger] t[i]) by {
            if i < p.len() {
                assert(t[i] == p[i]);
            }
        }
    } else {
        assert(decimal_text(n).drop_last() =~= Seq::<char>::empty());
        assert(decimal_text(n).last() == digit_char(n as int));
        lemma_digit_char(n as int);
        assert(digits_value(Seq::<char>::empty()) == 0);
    }
}

proof fn lemma_padded_decimal_text(n: nat, w: nat)
    ensures
        padded_decimal_text(n, w).len() == w,
        all_digits(padded_decimal_text(n, w)),
        digits_value(padded_decimal_text(n, w)) == (n as int) % pow10(w),
    decreases w,
{
    lemma_pow10_positive(w);
    if w > 0 {
        lemma_digit_char((n % 10) as int);
        lemma_padded_decimal_text(n / 10, (w - 1) as nat);
        let p = padded_decimal_text(n / 10, (w - 1) as nat);
        let t = padded_decimal_text(n, w);
        assert(t.drop_last() == p);
        assert forall|i: int| 0 <= i < t.len() implies is_digit(#[trigger] t[i]) by {
            if i < p.len() {
                assert(t[i] == p[i]);
            }
        }
        lemma_pow10_positive((w - 1) as nat);
        lemma_mod_breakdown(n as int, 10, pow10((w - 1) as nat));
    } else {
        assert(n % 1 == 0);
    }
}

proof fn lemma_trim_plain(s: Seq<char>)
    requires
        s.len() > 0,
        !is_space(s[0]),
        !is_space(s.last()),
    ensures
        trim(s) == s,
{
}

#[verifier::spinoff_prover]
proof fn lemma_unsigned_text(m: int)
    requires
        0 <= m <= 0x8000_0000_0000_0000,
    ensures
        ({
            let whole = decimal_text((m / SCALE as int) as nat);
            let t = if m % (SCALE as int) == 0 {
                whole
            } else {
                whole + seq!['.'] + padded_decimal_text(
                    (m % (SCALE as int)) as nat,
                    FRACTION_DIGITS as nat,
                )
            };
            &&& t.len() > 0
            &&& is_digit(t[0])
            &&& is_digit(t.last())
            &&& unsigned_ticks(t) == Some(m as int)
        }),
{
    let q = (m / SCALE as int) as nat;
    let f = (m % (SCALE as int)) as nat;
    let whole = decimal_text(q);
    lemma_decimal_text(q);
    reveal_with_fuel(pow10, 9);
    assert(pow10(FRACTION_DIGITS as nat) == 100_000_000);
    lemma_fundamental_div_mod(m, SCALE as int);
    assert(is_digit(whole[0]));
    assert(is_digit(whole[whole.len() - 1]));
    if f == 0 {
        lemma_dot_index(whole, whole.len() as int);
        assert(whole.take(whole.len() as int) =~= whole);
        assert(digits_value(Seq::<char>::empty()) == 0);
        assert(all_digits(Seq::<char>::empty()));
        assert(q * 100_000_000 == m);
        assert(unsigned_ticks(whole) == Some(m));
    } else {
        let frac = padded_decimal_text(f, FRACTION_DIGITS as nat);
        lemma_padded_decimal_text(f, FRACTION_DIGITS as nat);
        let t = whole + seq!['.'] + frac;
        assert forall|i: int| 0 <= i < whole.len() implies t[i] != '.' by {
            assert(t[i] == whole[i]);
            assert(is_digit(whole[i]));
        }
        assert(t[whole.len() as int] == '.');
        lemma_dot_index(t, whole.len() as int);
        let d = dot_index(t);
        assert(d == whole.len());
        assert(t.take(d) =~= whole);
        assert(t.skip(d + 1) =~= frac);
        assert(d < t.len());
        assert(t.last() == frac.last());
        assert(is_digit(frac[frac.len() - 1]));
        assert(frac.len() == FRACTION_DIGITS);
        assert(pow10((FRACTION_DIGITS - frac.len()) as nat) == 1);
        assert(f % 100_000_000 == f);
        assert(digits_value(frac) == f);
        assert(digits_value(whole) == q);
        assert(q * 100_000_000 + f == m);
        assert(digits_value(whole) * pow10(FRACTION_DIGITS as nat) + digits_value(frac) * pow10(
            (FRACTION_DIGITS - frac.len()) as nat,
        ) == m);
        assert(unsigned_ticks(t) == Some(m));
    }
}

/// Writing a quantity as text and reading the text back gives the quantity:
/// quantity and price columns survive a round trip through their text.
pub proof fn lemma_quantity_text_round_trip(q: i64)
    ensures
        decimal_ticks(quantity_text(q as int)) == Some(q as int),
{
    let m: int = if q < 0 {
        -q
    } else {
        q as int
    };
    lemma_unsigned_text(m);
    let body = if m % (SCALE as int) == 0 {
        decimal_text((m / SCALE as int) as nat)
    } else {
        decimal_text((m / SCALE as int) as nat) + seq!['.'] + padded_decimal_text(
            (m % (SCALE as int)) as nat,
            FRACTION_DIGITS as nat,
        )
    };
    let text = quantity_text(q as int);
    lemma_digit_char(0);
    if q < 0 {
        assert(text =~= seq!['-'] + body);
        assert(text.last() == body.last());
        lemma_trim_plain(text);
        assert(text.drop_first() =~= body);
    } else {
        assert(text =~= body);
        lemma_trim_plain(text);
    }
}

/// Writing a whole number in decimal and reading it back gives the number:
/// supply columns survive a round trip through their text.
pub proof fn lemma_count_text_round_trip(n: nat)
    ensures
        count_value(decimal_text(n)) == Some(n as int),
{
    let t = decimal_text(n);
    lemma_decimal_text(n);
    assert(is_digit(t[0]));
    assert(is_digit(t[t.len() - 1]));
    lemma_trim_plain(t);
}

} // verus!
