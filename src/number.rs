//! Decimal numbers as they appear in values (`-12.5px`) and in value
//! ranges, kept exact: a mantissa and a count of fraction digits.
use vstd::prelude::*;

use crate::text::{chars_of, is_white_space, lemma_trim_end_cut, slice_string, trim,
    trim_end, trim_string, white_space};

verus! {

/// A decimal number: `mantissa / 10^scale`, negated when `negative`.
#[derive(Clone, Copy, Debug, PartialEq, Eq)]
pub struct Number {
    pub negative: bool,
    pub mantissa: u64,
    pub scale: usize,
}

/// Ten to the power `n`.
pub open spec fn pow10(n: nat) -> nat
    decreases n,
{
    if n == 0 {
        1
    } else {
        10 * pow10((n - 1) as nat)
    }
}

impl Number {
    /// The numerator over `10^scale`, with its sign.
    pub open spec fn signed(self) -> int {
        if self.negative {
            -(self.mantissa as int)
        } else {
            self.mantissa as int
        }
    }

    /// `self <= other` as rational numbers.
    pub open spec fn spec_le(self, other: Number) -> bool {
        self.signed() * pow10(other.scale as nat) <= other.signed() * pow10(self.scale as nat)
    }
}

/// An ASCII decimal digit.
pub open spec fn is_digit(c: char) -> bool {
    '0' <= c <= '9'
}

/// Whether `s` holds digits only.
pub open spec fn all_digits(s: Seq<char>) -> bool {
    forall|i: int| 0 <= i < s.len() ==> is_digit(#[trigger] s[i])
}

/// The value of the digit `c`.
pub open spec fn digit_value(c: char) -> nat {
    ((c as u32) - ('0' as u32)) as nat
}

/// The number that a string of decimal digits writes.
pub open spec fn digits_value(s: Seq<char>) -> nat
    decreases s.len(),
{
    if s.len() == 0 {
        0
    } else {
        digits_value(s.drop_last()) * 10 + digit_value(s.last())
    }
}

/// How many digits `s` starts with.
pub open spec fn digit_run(s: Seq<char>) -> nat
    decreases s.len(),
{
    if s.len() > 0 && is_digit(s[0]) {
        1 + digit_run(s.drop_first())
    } else {
        0
    }
}

/// A number as `-?[0-9]*\.?[0-9]+` reads it: its sign, the digits before
/// the point and the digits after it.
pub open spec fn number_parts(t: Seq<char>) -> Option<(bool, Seq<char>, Seq<char>)> {
    let negative = t.len() > 0 && t[0] == '-';
    let body = if negative {
        t.drop_first()
    } else {
        t
    };
    let k = digit_run(body) as int;
    if k == body.len() {
        if k > 0 {
            Some((negative, body, Seq::empty()))
        } else {
            None
        }
    } else if body[k] == '.' && k + 1 < body.len() && all_digits(body.skip(k + 1)) {
        Some((negative, body.take(k), body.skip(k + 1)))
    } else {
        None
    }
}

/// The number that `t` writes, where its digits fit a `u64` mantissa.
pub open spec fn number_of(t: Seq<char>) -> Option<Number> {
    match number_parts(t) {
        Some((negative, whole, fraction)) => if digits_value(whole + fraction) <= u64::MAX {
            Some(
                Number {
                    negative,
                    mantissa: digits_value(whole + fraction) as u64,
                    scale: fraction.len() as usize,
                },
            )
        } else {
            None
        },
        None => None,
    }
}

proof fn lemma_digit_run_skip(s: Seq<char>, i: int)
    requires
        0 <= i <= s.len(),
        forall|k: int| 0 <= k < i ==> is_digit(s[k]),
    ensures
        digit_run(s) == i + digit_run(s.skip(i)),
    decreases i,
{
    if i > 0 {
        assert(s.drop_first().skip(i - 1) =~= s.skip(i));
        lemma_digit_run_skip(s.drop_first(), i - 1);
    } else {
        assert(s.skip(0) =~= s);
    }
}

proof fn lemma_digits_value_prefix(s: Seq<char>, j: int)
    requires
        0 <= j <= s.len(),
    ensures
        digits_value(s.take(j)) <= digits_value(s),
    decreases s.len() - j,
{
    if j < s.len() {
        assert(s.drop_last().take(j) =~= s.take(j));
        lemma_digits_value_prefix(s.drop_last(), j);
    } else {
        assert(s.take(j) =~= s);
    }
}

proof fn lemma_pow10_positive(n: nat)
    ensures
        pow10(n) > 0,
    decreases n,
{
    if n > 0 {
        lemma_pow10_positive((n - 1) as nat);
    }
}

proof fn lemma_pow10_add(a: nat, b: nat)
    ensures
        pow10(a + b) == pow10(a) * pow10(b),
    decreases a,
{
    if a == 0 {
        assert(pow10(0) == 1);
        assert(a + b == b);
    } else {
        let x = pow10((a - 1) as nat);
        let y = pow10(b);
        lemma_pow10_add((a - 1) as nat, b);
        assert((a + b - 1) as nat == (a - 1 + b) as nat);
        assert(pow10(a + b) == 10 * pow10((a - 1 + b) as nat));
        assert(pow10(a) == 10 * x);
        assert(10 * (x * y) == (10 * x) * y) by (nonlinear_arith);
    }
}

proof fn lemma_pow10_monotone(a: nat, b: nat)
    requires
        a <= b,
    ensures
        pow10(a) <= pow10(b),
    decreases b,
{
    if a < b {
        lemma_pow10_monotone(a, (b - 1) as nat);
        lemma_pow10_positive((b - 1) as nat);
    }
}

proof fn lemma_cancel(a: int, b: int, p: int)
    requires
        p > 0,
    ensures
        (a * p <= b * p) == (a <= b),
{
    if a <= b {
        assert(a * p <= b * p) by (nonlinear_arith)
            requires
                a <= b,
                p > 0,
        ;
    } else {
        assert(a * p > b * p) by (nonlinear_arith)
            requires
                a > b,
                p > 0,
        ;
    }
}

/// `10^n` for the exponents that fit a `u64`.
fn pow10_u64(n: usize) -> (r: u64)
    requires
        n <= 19,
    ensures
        r == pow10(n as nat),
{
    proof {
        lemma_pow10_monotone(n as nat, 19);
        reveal_with_fuel(pow10, 20);
        assert(pow10(19) == 10000000000000000000);
    }
    let mut r: u64 = 1;
    let mut i: usize = 0;
    while i < n
        invariant
            i <= n <= 19,
            r == pow10(i as nat),
            pow10(n as nat) <= 10000000000000000000,
        decreases n - i,
    {
        proof {
            lemma_pow10_monotone((i + 1) as nat, n as nat);
        }
        r = r * 10;
        i = i + 1;
    }
    r
}

/// Whether `m1 / 10^s1 <= m2 / 10^s2`.
fn magnitude_le(m1: u64, s1: usize, m2: u64, s2: usize) -> (r: bool)
    ensures
        r == (m1 * pow10(s2 as nat) <= m2 * pow10(s1 as nat)),
{
    proof {
        lemma_pow10_positive(s1 as nat);
        lemma_pow10_positive(s2 as nat);
        reveal_with_fuel(pow10, 21);
        assert(pow10(20) == 100000000000000000000);
    }
    if s1 >= s2 {
        let d = s1 - s2;
        proof {
            lemma_pow10_add(d as nat, s2 as nat);
            lemma_pow10_positive(d as nat);
            assert(m2 * pow10(s1 as nat) == (m2 * pow10(d as nat)) * pow10(s2 as nat))
                by (nonlinear_arith)
                requires
                    pow10(s1 as nat) == pow10(d as nat) * pow10(s2 as nat),
            ;
            lemma_cancel(m1 as int, m2 * pow10(d as nat), pow10(s2 as nat) as int);
        }
        if d <= 19 {
            let p = pow10_u64(d);
            proof {
                assert((m2 as u128) * (p as u128) <= u64::MAX * u64::MAX) by (nonlinear_arith)
                    requires
                        m2 <= u64::MAX,
                        p <= u64::MAX,
                ;
            }
            (m1 as u128) <= (m2 as u128) * (p as u128)
        } else {
            proof {
                lemma_pow10_monotone(20, d as nat);
                if m2 > 0 {
                    assert(m2 * pow10(d as nat) >= pow10(d as nat)) by (nonlinear_arith)
                        requires
                            m2 >= 1,
                    ;
                }
            }
            m2 > 0 || m1 == 0
        }
    } else {
        let d = s2 - s1;
        proof {
            lemma_pow10_add(d as nat, s1 as nat);
            lemma_pow10_positive(d as nat);
            assert(m1 * pow10(s2 as nat) == (m1 * pow10(d as nat)) * pow10(s1 as nat))
                by (nonlinear_arith)
                requires
                    pow10(s2 as nat) == pow10(d as nat) * pow10(s1 as nat),
            ;
            lemma_cancel(m1 * pow10(d as nat), m2 as int, pow10(s1 as nat) as int);
        }
        if d <= 19 {
            let p = pow10_u64(d);
            proof {
                assert((m1 as u128) * (p as u128) <= u64::MAX * u64::MAX) by (nonlinear_arith)
                    requires
                        m1 <= u64::MAX,
                        p <= u64::MAX,
                ;
            }
            (m1 as u128) * (p as u128) <= (m2 as u128)
        } else {
            proof {
                lemma_pow10_monotone(20, d as nat);
                if m1 > 0 {
                    assert(m1 * pow10(d as nat) >= pow10(d as nat)) by (nonlinear_arith)
                        requires
                            m1 >= 1,
                    ;
                }
            }
            m1 == 0
        }
    }
}

impl Number {
    /// Whether `self <= other` as rational numbers.
    pub fn le(&self, other: &Number) -> (r: bool)
        ensures
            r == self.spec_le(*other),
    {
        let ghost p = pow10(other.scale as nat) as int;
        let ghost q = pow10(self.scale as nat) as int;
        proof {
            lemma_pow10_positive(other.scale as nat);
            lemma_pow10_positive(self.scale as nat);
        }
        let a = self.mantissa;
        let b = other.mantissa;
        if !self.negative && !other.negative {
            magnitude_le(a, self.scale, b, other.scale)
        } else if self.negative && other.negative {
            proof {
                assert((-(a as int)) * p <= (-(b as int)) * q <==> b * q <= a * p)
                    by (nonlinear_arith);
            }
            magnitude_le(b, other.scale, a, self.scale)
        } else if self.negative {
            proof {
                assert((-(a as int)) * p <= (b as int) * q) by (nonlinear_arith)
                    requires
                        p > 0,
                        q > 0,
                        a >= 0,
                        b >= 0,
                ;
            }
            true
        } else {
            proof {
                assert((a as int) * p <= (-(b as int)) * q <==> (a == 0 && b == 0))
                    by (nonlinear_arith)
                    requires
                        p > 0,
                        q > 0,
                        a >= 0,
                        b >= 0,
                ;
            }
            a == 0 && b == 0
        }
    }
}

/// Whether `c` is an ASCII decimal digit.
pub fn is_digit_char(c: char) -> (r: bool)
    ensures
        r == is_digit(c),
{
    '0' <= c && c <= '9'
}

/// Reads `t` as a number (`-?[0-9]*\.?[0-9]+`); `None` where `t` is not
/// one, or where its digits do not fit a `u64`.
pub fn parse_number(t: &Vec<char>) -> (r: Option<Number>)
    ensures
        r == number_of(t@),
{
    let n = t.len();
    let negative = n > 0 && t[0] == '-';
    let start: usize = if negative {
        1
    } else {
        0
    };
    let ghost body = if negative {
        t@.drop_first()
    } else {
        t@
    };
    proof {
        assert(body =~= t@.skip(start as int));
    }
    // The digits before the point.
    let mut i: usize = start;
    let mut m: u64 = 0;
    while i < n && is_digit_char(t[i])
        invariant
            start <= i <= n == t@.len(),
            body == t@.skip(start as int),
            start == (if t@.len() > 0 && t@[0] == '-' {
                1int
            } else {
                0int
            }),
            body == (if t@.len() > 0 && t@[0] == '-' {
                t@.drop_first()
            } else {
                t@
            }),
            forall|k: int| start <= k < i ==> is_digit(t@[k]),
            m == digits_value(t@.subrange(start as int, i as int)),
        decreases n - i,
    {
        let v = (m as u128) * 10 + ((t[i] as u32 - '0' as u32) as u128);
        let ghost prefix = t@.subrange(start as int, i + 1);
        proof {
            assert(prefix.drop_last() =~= t@.subrange(start as int, i as int));
        }
        if v > u64::MAX as u128 {
            proof {
                lemma_digit_run_skip(body, i + 1 - start);
                lemma_too_long(t@, body, start as int, i + 1 - start);
            }
            return None;
        }
        m = v as u64;
        i = i + 1;
    }
    let k = i - start;
    proof {
        lemma_digit_run_skip(body, k as int);
        assert(body.skip(k as int) =~= t@.skip(i as int));
        assert(body.take(k as int) =~= t@.subrange(start as int, i as int));
    }
    if i == n {
        if k > 0 {
            proof {
                assert(body + Seq::<char>::empty() =~= body);
                assert(body =~= t@.subrange(start as int, i as int));
            }
            return Some(Number { negative, mantissa: m, scale: 0 });
        } else {
            return None;
        }
    }
    if t[i] != '.' || i + 1 >= n {
        return None;
    }
    // The digits after the point.
    let ghost whole = body.take(k as int);
    let mut j: usize = i + 1;
    while j < n
        invariant
            start <= i < j <= n == t@.len(),
            k == i - start,
            body == t@.skip(start as int),
            start == (if t@.len() > 0 && t@[0] == '-' {
                1int
            } else {
                0int
            }),
            body == (if t@.len() > 0 && t@[0] == '-' {
                t@.drop_first()
            } else {
                t@
            }),
            whole == t@.subrange(start as int, i as int),
            digit_run(body) == k,
            body[k as int] == '.',
            forall|x: int| i + 1 <= x < j ==> is_digit(t@[x]),
            m == digits_value(whole + t@.subrange(i + 1, j as int)),
        decreases n - j,
    {
        if !is_digit_char(t[j]) {
            proof {
                assert(body.skip(k + 1)[j - i - 1] == t@[j as int]);
            }
            return None;
        }
        let v = (m as u128) * 10 + ((t[j] as u32 - '0' as u32) as u128);
        let ghost prefix = whole + t@.subrange(i + 1, j + 1);
        proof {
            assert(prefix.drop_last() =~= whole + t@.subrange(i + 1, j as int));
        }
        if v > u64::MAX as u128 {
            proof {
                lemma_fraction_too_long(t@, body, whole, i as int, k as int, j as int);
            }
            return None;
        }
        m = v as u64;
        j = j + 1;
    }
    proof {
        assert(body.skip(k + 1) =~= t@.subrange(i + 1, n as int));
    }
    Some(Number { negative, mantissa: m, scale: n - i - 1 })
}

/// A run of leading digits too large for a `u64` makes the whole number
/// too large.
proof fn lemma_too_long(t: Seq<char>, body: Seq<char>, start: int, len: int)
    requires
        0 <= start <= 1,
        start == (if t.len() > 0 && t[0] == '-' {
            1int
        } else {
            0int
        }),
        body == t.skip(start),
        0 < len <= body.len(),
        digit_run(body) >= len,
        digits_value(t.subrange(start, start + len)) > u64::MAX,
    ensures
        number_of(t) is None,
{
    assert(body == (if t.len() > 0 && t[0] == '-' {
        t.drop_first()
    } else {
        t
    })) by {
        if start == 1 {
            assert(t.drop_first() =~= t.skip(1));
        } else {
            assert(t =~= t.skip(0));
        }
    }
    if let Some((negative, whole, fraction)) = number_parts(t) {
        let all = whole + fraction;
        assert(all.take(len) =~= t.subrange(start, start + len));
        lemma_digits_value_prefix(all, len);
    }
}

/// Digits up to some point of the fraction too large for a `u64` make the
/// whole number too large.
proof fn lemma_fraction_too_long(
    t: Seq<char>,
    body: Seq<char>,
    whole: Seq<char>,
    i: int,
    k: int,
    j: int,
)
    requires
        0 <= i - k <= 1,
        (i - k) == (if t.len() > 0 && t[0] == '-' {
            1int
        } else {
            0int
        }),
        body == t.skip(i - k),
        whole == t.subrange(i - k, i),
        i < j < t.len(),
        digit_run(body) == k,
        body[k] == '.',
        digits_value(whole + t.subrange(i + 1, j + 1)) > u64::MAX,
    ensures
        number_of(t) is None,
{
    let start = i - k;
    assert(body == (if t.len() > 0 && t[0] == '-' {
        t.drop_first()
    } else {
        t
    })) by {
        if start == 1 {
            assert(t.drop_first() =~= t.skip(1));
        } else {
            assert(t =~= t.skip(0));
        }
    }
    if let Some((negative, w, fraction)) = number_parts(t) {
        assert(w =~= whole);
        assert(fraction =~= t.subrange(i + 1, t.len() as int));
        let all = w + fraction;
        assert(all.take(k + (j + 1 - (i + 1))) =~= whole + t.subrange(i + 1, j + 1));
        lemma_digits_value_prefix(all, k + (j + 1 - (i + 1)));
    }
}

/// A character that a unit may hold: an ASCII letter or `%`.
pub open spec fn is_unit_char(c: char) -> bool {
    ('a' <= c <= 'z') || ('A' <= c <= 'Z') || c == '%'
}

/// Where the unit that ends `s` (`[a-zA-Z%]*`) starts.
pub open spec fn unit_start(s: Seq<char>) -> nat
    decreases s.len(),
{
    if s.len() > 0 && is_unit_char(s.last()) {
        unit_start(s.drop_last())
    } else {
        s.len()
    }
}

/// A value written `<number><unit>`, as `-?[0-9]*\.?[0-9]+[a-zA-Z%]+`
/// reads it: the number and the unit.
pub open spec fn quantity_of(v: Seq<char>) -> Option<(Number, Seq<char>)> {
    let k = unit_start(v) as int;
    if k < v.len() {
        match number_of(v.take(k)) {
            Some(n) => Some((n, v.skip(k))),
            None => None,
        }
    } else {
        None
    }
}

/// The unit of a value written `<number> <unit>` once its ends are
/// trimmed, where whitespace may stand between the two.
pub open spec fn unit_of(v: Seq<char>) -> Option<Seq<char>> {
    let s = trim(v);
    let k = unit_start(s) as int;
    if k < s.len() && number_parts(trim_end(s.take(k))) is Some {
        Some(s.skip(k))
    } else {
        None
    }
}

/// Whether `c` may stand in a unit.
pub fn is_unit_char_exec(c: char) -> (r: bool)
    ensures
        r == is_unit_char(c),
{
    ('a' <= c && c <= 'z') || ('A' <= c && c <= 'Z') || c == '%'
}

proof fn lemma_unit_start_cut(s: Seq<char>, j: int)
    requires
        0 <= j <= s.len(),
        forall|k: int| j <= k < s.len() ==> is_unit_char(s[k]),
    ensures
        unit_start(s) == unit_start(s.take(j)),
    decreases s.len() - j,
{
    if j < s.len() {
        assert(s.drop_last().take(j) =~= s.take(j));
        lemma_unit_start_cut(s.drop_last(), j);
    } else {
        assert(s.take(j) =~= s);
    }
}

/// Where the unit that ends `cs[..end]` starts.
fn unit_start_index(cs: &Vec<char>, end: usize) -> (r: usize)
    requires
        end <= cs@.len(),
    ensures
        r <= end,
        r == unit_start(cs@.take(end as int)),
{
    let mut j = end;
    while j > 0 && is_unit_char_exec(cs[j - 1])
        invariant
            j <= end <= cs@.len(),
            forall|k: int| j <= k < end ==> is_unit_char(cs@[k]),
        decreases j,
    {
        j = j - 1;
    }
    proof {
        lemma_unit_start_cut(cs@.take(end as int), j as int);
        assert(cs@.take(end as int).take(j as int) =~= cs@.take(j as int));
    }
    j
}

/// A new vector that holds `cs[from..to]`.
pub fn sub_chars(cs: &Vec<char>, from: usize, to: usize) -> (r: Vec<char>)
    requires
        from <= to <= cs@.len(),
    ensures
        r@ == cs@.subrange(from as int, to as int),
{
    let mut r: Vec<char> = Vec::new();
    let mut i = from;
    while i < to
        invariant
            from <= i <= to <= cs@.len(),
            r@ == cs@.subrange(from as int, i as int),
        decreases to - i,
    {
        r.push(cs[i]);
        proof {
            assert(r@ =~= cs@.subrange(from as int, i + 1));
        }
        i = i + 1;
    }
    r
}

/// Reads `v` as `<number><unit>`.
pub fn parse_quantity(v: &str) -> (r: Option<(Number, String)>)
    ensures
        match (r, quantity_of(v@)) {
            (Some((n, u)), Some((m, w))) => n == m && u@ == w,
            (None, None) => true,
            _ => false,
        },
{
    let cs = chars_of(v);
    let n = cs.len();
    let k = unit_start_index(&cs, n);
    proof {
        assert(cs@.take(n as int) =~= cs@);
    }
    if k == n {
        return None;
    }
    let number = sub_chars(&cs, 0, k);
    proof {
        assert(cs@.subrange(0, k as int) =~= v@.take(k as int));
    }
    match parse_number(&number) {
        Some(num) => {
            let unit = slice_string(v, k, n);
            proof {
                assert(v@.subrange(k as int, n as int) =~= v@.skip(k as int));
            }
            Some((num, unit))
        },
        None => None,
    }
}

/// Whether `t` is written as a number (`-?[0-9]*\.?[0-9]+`), whatever its size.
pub fn is_number_text(t: &Vec<char>) -> (r: bool)
    ensures
        r == (number_parts(t@) is Some),
{
    let n = t.len();
    let negative = n > 0 && t[0] == '-';
    let start: usize = if negative {
        1
    } else {
        0
    };
    let ghost body = if negative {
        t@.drop_first()
    } else {
        t@
    };
    proof {
        assert(body =~= t@.skip(start as int));
    }
    let mut i: usize = start;
    while i < n && is_digit_char(t[i])
        invariant
            start <= i <= n == t@.len(),
            body == t@.skip(start as int),
            forall|k: int| start <= k < i ==> is_digit(t@[k]),
        decreases n - i,
    {
        i = i + 1;
    }
    let k = i - start;
    proof {
        lemma_digit_run_skip(body, k as int);
        assert(body.skip(k as int) =~= t@.skip(i as int));
    }
    if i == n {
        return k > 0;
    }
    if t[i] != '.' || i + 1 >= n {
        return false;
    }
    let mut j: usize = i + 1;
    while j < n
        invariant
            start <= i < j <= n == t@.len(),
            k == i - start,
            body == t@.skip(start as int),
            body == (if t@.len() > 0 && t@[0] == '-' {
                t@.drop_first()
            } else {
                t@
            }),
            digit_run(body) == k,
            body[k as int] == '.',
            forall|x: int| i + 1 <= x < j ==> is_digit(t@[x]),
        decreases n - j,
    {
        if !is_digit_char(t[j]) {
            proof {
                assert(body.skip(k + 1)[j - i - 1] == t@[j as int]);
            }
            return false;
        }
        j = j + 1;
    }
    proof {
        assert forall|x: int| 0 <= x < body.skip(k + 1).len() implies is_digit(
            #[trigger] body.skip(k + 1)[x],
        ) by {
            assert(body.skip(k + 1)[x] == t@[i + 1 + x]);
        }
    }
    true
}

/// The unit of `v` as `unit_of` reads it.
pub fn extract_unit(v: &str) -> (r: Option<String>)
    ensures
        match (r, unit_of(v@)) {
            (Some(u), Some(w)) => u@ == w,
            (None, None) => true,
            _ => false,
        },
{
    let t = trim_string(v);
    let cs = chars_of(t.as_str());
    let n = cs.len();
    let k = unit_start_index(&cs, n);
    proof {
        assert(cs@.take(n as int) =~= cs@);
    }
    if k == n {
        return None;
    }
    let mut w = k;
    while w > 0 && white_space(cs[w - 1])
        invariant
            w <= k <= cs@.len(),
            forall|x: int| w <= x < k ==> is_white_space(cs@[x]),
        decreases w,
    {
        w = w - 1;
    }
    let ghost head = cs@.take(k as int);
    proof {
        lemma_trim_end_cut(head, w as int);
        assert(head.subrange(0, w as int) =~= cs@.take(w as int));
    }
    let number = sub_chars(&cs, 0, w);
    proof {
        assert(number@ =~= cs@.take(w as int));
    }
    if is_number_text(&number) {
        let unit = slice_string(t.as_str(), k, n);
        proof {
            assert(t@.subrange(k as int, n as int) =~= t@.skip(k as int));
        }
        Some(unit)
    } else {
        None
    }
}

impl Number {
    /// Reads `text` as a number (`-?[0-9]*\.?[0-9]+`); `None` where it is
    /// not one, or where its digits do not fit a `u64`.
    pub fn parse(text: &str) -> (r: Option<Number>)
        ensures
            r == number_of(text@),
    {
        let cs = chars_of(text);
        parse_number(&cs)
    }
}

} // verus!
