//! A span of time counted in nanoseconds.

use vstd::prelude::*;
use crate::text::{
    lemma_digits_value_mono, all_digits, digits_u64, digits_value, find_char, find_char_idx, is_digit, lemma_find_char_range,
    slice_chars, unsigned_digits,
};

verus! {

/// A span of time, counted in whole nanoseconds.
#[derive(Clone, Copy, Debug, PartialEq, Eq, Structural)]
pub struct Duration {
    nanos: u128,
}

impl Duration {
    /// A span never exceeds `u64::MAX` seconds and 999999999 nanoseconds.
    #[verifier::type_invariant]
    closed spec fn in_range(self) -> bool {
        self.nanos < (u64::MAX as u128 + 1) * 1_000_000_000
    }

    /// The number of nanoseconds in this span.
    pub closed spec fn spec_nanos(self) -> nat {
        self.nanos as nat
    }

    /// The span of `nanos` nanoseconds.
    pub fn from_nanos(nanos: u64) -> (d: Duration)
        ensures
            d.spec_nanos() == nanos,
    {
        Duration { nanos: nanos as u128 }
    }

    /// The span of `millis` milliseconds.
    pub fn from_millis(millis: u64) -> (d: Duration)
        ensures
            d.spec_nanos() == millis * 1_000_000,
    {
        Duration { nanos: millis as u128 * 1_000_000 }
    }

    /// The span of `secs` seconds.
    pub fn from_secs(secs: u64) -> (d: Duration)
        ensures
            d.spec_nanos() == secs * 1_000_000_000,
    {
        Duration { nanos: secs as u128 * 1_000_000_000 }
    }

    /// The span of `secs` seconds and `nanos` further nanoseconds.
    pub fn new(secs: u64, nanos: u32) -> (d: Duration)
        requires
            secs * 1_000_000_000 + nanos < (u64::MAX + 1) * 1_000_000_000,
        ensures
            d.spec_nanos() == secs * 1_000_000_000 + nanos,
    {
        Duration { nanos: secs as u128 * 1_000_000_000 + nanos as u128 }
    }

    /// Total nanoseconds.
    pub fn as_nanos(&self) -> (n: u128)
        ensures
            n == self.spec_nanos(),
    {
        self.nanos
    }

    /// Whole milliseconds (rounded down).
    pub fn as_millis(&self) -> (n: u128)
        ensures
            n == self.spec_nanos() / 1_000_000,
    {
        self.nanos / 1_000_000
    }

    /// Whole seconds (rounded down).
    pub fn as_secs(&self) -> (n: u64)
        ensures
            n == self.spec_nanos() / 1_000_000_000,
    {
        proof {
            use_type_invariant(self);
            assert(self.nanos / 1_000_000_000 <= u64::MAX) by (nonlinear_arith)
                requires
                    self.nanos < (u64::MAX as u128 + 1) * 1_000_000_000,
            ;
        }
        (self.nanos / 1_000_000_000) as u64
    }

    /// The span is empty.
    pub fn is_zero(&self) -> (b: bool)
        ensures
            b == (self.spec_nanos() == 0),
    {
        self.nanos == 0
    }
}

/// A point in time: whole seconds since the Unix epoch and the nanoseconds
/// past them.
#[derive(Clone, Copy, Debug, PartialEq, Eq, Structural)]
pub struct Timestamp {
    pub secs: i64,
    pub nanos: u32,
}

/// `10^n`.
pub open spec fn pow10(n: nat) -> nat
    decreases n,
{
    if n == 0 {
        1
    } else {
        10 * pow10((n - 1) as nat)
    }
}

/// The integer and fraction digits of a decimal number of seconds as
/// `f64::from_str` reads its plain form: an optional `'+'`, digits, and an
/// optional `'.'` followed by digits.
pub open spec fn secs_parts(s: Seq<char>) -> (Seq<char>, Seq<char>) {
    let t = unsigned_digits(s);
    match find_char(t, '.') {
        Some(i) => (t.take(i), t.skip(i + 1)),
        None => (t, Seq::empty()),
    }
}

/// The first exponent marker (`'e'` or `'E'`) of `s`.
pub open spec fn exp_marker(s: Seq<char>) -> Option<int> {
    match (find_char(s, 'e'), find_char(s, 'E')) {
        (Some(i), Some(j)) => Some(if i < j { i } else { j }),
        (Some(i), None) => Some(i),
        (None, Some(j)) => Some(j),
        (None, None) => None,
    }
}

/// The value of an exponent as `f64::from_str` reads it: an optional `'+'`
/// or `'-'` and at least one digit.
pub open spec fn exp_value(x: Seq<char>) -> Option<int> {
    let signed = x.len() > 0 && (x[0] == '+' || x[0] == '-');
    let d = if signed { x.drop_first() } else { x };
    if d.len() > 0 && all_digits(d) {
        Some(if signed && x[0] == '-' { -(digits_value(d) as int) } else { digits_value(d) as int })
    } else {
        None
    }
}

/// The digits `d` read as a whole number after the decimal point was moved
/// `k` places to the right, rounded to the nearest whole number (a half
/// rounds up).
pub open spec fn shifted_value(d: Seq<char>, k: int) -> nat {
    if k >= 0 {
        digits_value(d) * pow10(k as nat)
    } else {
        let keep = d.len() + k;
        let head: nat = if keep > 0 { digits_value(d.take(keep)) } else { 0 };
        if 0 <= keep && keep < d.len() && d[keep] >= '5' {
            head + 1
        } else {
            head
        }
    }
}

/// The number of nanoseconds that a span can hold: less than `u64::MAX + 1`
/// whole seconds.
pub open spec fn nanos_limit() -> nat {
    ((u64::MAX + 1) * 1_000_000_000) as nat
}

/// The nanoseconds of the number of seconds whose plain part is `m` and
/// whose exponent is `e`, rounded to the nearest nanosecond; `None` where `m`
/// is not a plain number or the span reaches `u64::MAX + 1` whole seconds.
pub open spec fn secs_nanos_of(m: Seq<char>, e: int) -> Option<nat> {
    let (int_part, frac) = secs_parts(m);
    if int_part.len() + frac.len() > 0 && all_digits(int_part) && all_digits(frac) {
        let n = shifted_value(int_part + frac, e + 9 - frac.len());
        if n < nanos_limit() {
            Some(n)
        } else {
            None
        }
    } else {
        None
    }
}

/// The nanoseconds of the number of seconds `s` as `f64::from_str` writes
/// it, in plain form or with an exponent (`"1.5e-7"`), rounded to the
/// nearest nanosecond; `None` where `s` is not such a number or the span
/// reaches `u64::MAX + 1` whole seconds.
pub open spec fn parse_secs_nanos(s: Seq<char>) -> Option<nat> {
    match exp_marker(s) {
        None => secs_nanos_of(s, 0),
        Some(i) => match exp_value(s.skip(i + 1)) {
            Some(e) => secs_nanos_of(s.take(i), e),
            None => None,
        },
    }
}

proof fn lemma_pow10_step(n: nat)
    ensures
        pow10(n + 1) == 10 * pow10(n),
{
}

/// Every character of `s` is a digit.
pub fn all_digits_exec(s: &[char]) -> (b: bool)
    ensures
        b == all_digits(s@),
{
    let mut i: usize = 0;
    while i < s.len()
        invariant
            i <= s.len(),
            forall|j: int| 0 <= j < i ==> is_digit(#[trigger] s@[j]),
        decreases s.len() - i,
    {
        if !('0' <= s[i] && s[i] <= '9') {
            proof {
                assert(!is_digit(s@[i as int]));
            }
            return false;
        }
        i = i + 1;
    }
    true
}

/// The integer and fraction digits of the plain number `m` (see `secs_parts`).
fn mantissa_parts(m: &[char]) -> (r: (Vec<char>, Vec<char>))
    ensures
        (r.0@, r.1@) == secs_parts(m@),
{
    let mut start: usize = 0;
    if m.len() > 0 && m[0] == '+' {
        start = 1;
    }
    let t = slice_chars(m, start, m.len());
    proof {
        assert(t@ =~= unsigned_digits(m@));
        lemma_find_char_range(t@, '.');
        assert(t@.take(t@.len() as int) =~= t@);
    }
    match find_char_idx(&t, '.') {
        Some(i) => (slice_chars(&t, 0, i), slice_chars(&t, i + 1, t.len())),
        None => (slice_chars(&t, 0, t.len()), Vec::new()),
    }
}

/// The value of the digit string `s` where it is at most `cap`.
fn digits_below(s: &[char], cap: u128) -> (r: Option<u128>)
    requires
        all_digits(s@),
        cap < 1_000_000_000_000_000_000_000_000_000_000,
    ensures
        match r {
            Some(v) => v == digits_value(s@) && v <= cap,
            None => digits_value(s@) > cap,
        },
{
    let mut acc: u128 = 0;
    let mut j: usize = 0;
    while j < s.len()
        invariant
            j <= s.len(),
            all_digits(s@),
            cap < 1_000_000_000_000_000_000_000_000_000_000,
            acc == digits_value(s@.take(j as int)),
            acc <= cap,
        decreases s.len() - j,
    {
        proof {
            assert(s@.take(j + 1).drop_last() =~= s@.take(j as int));
            assert(s@.take(j + 1).last() == s@[j as int]);
            assert(is_digit(s@[j as int]));
        }
        let d = (s[j] as u32 - '0' as u32) as u128;
        let next = acc * 10 + d;
        if next > cap {
            proof {
                lemma_digits_value_mono(s@, j + 1);
            }
            return None;
        }
        acc = next;
        j = j + 1;
    }
    proof {
        assert(s@.take(s.len() as int) =~= s@);
    }
    Some(acc)
}

proof fn lemma_pow10_pos(n: nat)
    ensures
        pow10(n) >= 1,
    decreases n,
{
    if n > 0 {
        lemma_pow10_pos((n - 1) as nat);
    }
}

proof fn lemma_pow10_mono(a: nat, b: nat)
    requires
        a <= b,
    ensures
        pow10(a) <= pow10(b),
    decreases b,
{
    if a < b {
        lemma_pow10_mono(a, (b - 1) as nat);
        lemma_pow10_pos((b - 1) as nat);
    }
}

proof fn lemma_pow10_29()
    ensures
        pow10(29) > nanos_limit(),
{
    reveal_with_fuel(pow10, 30);
}

proof fn lemma_scaled_mono(v: nat, a: nat, b: nat)
    requires
        a <= b,
    ensures
        v * pow10(a) <= v * pow10(b),
{
    lemma_pow10_mono(a, b);
    assert(v * pow10(a) <= v * pow10(b)) by (nonlinear_arith)
        requires
            pow10(a) <= pow10(b),
    ;
}

/// The span of `n` nanoseconds.
fn span_of(n: u128) -> (d: Duration)
    requires
        n < nanos_limit(),
    ensures
        d.spec_nanos() == n,
{
    let secs = n / 1_000_000_000;
    let sub = n % 1_000_000_000;
    assert(secs <= u64::MAX) by (nonlinear_arith)
        requires
            n < (u64::MAX + 1) * 1_000_000_000,
            secs == n / 1_000_000_000,
    ;
    assert(secs * 1_000_000_000 + sub == n) by (nonlinear_arith)
        requires
            secs == n / 1_000_000_000,
            sub == n % 1_000_000_000,
    ;
    Duration::new(secs as u64, sub as u32)
}

/// The nanosecond limit of a span, `(u64::MAX + 1) * 10^9`.
const NANOS_LIMIT: u128 = 18_446_744_073_709_551_616_000_000_000;

/// The span of the number of seconds with the plain part `m` and the
/// exponent of digits `d`, negative where `neg`.
fn secs_from_parts(m: &[char], neg: bool, d: &[char]) -> (r: Option<Duration>)
    requires
        d@.len() > 0,
        all_digits(d@),
    ensures
        match secs_nanos_of(m@, if neg { -(digits_value(d@) as int) } else { digits_value(d@) as int }) {
            Some(n) => r matches Some(x) && x.spec_nanos() == n,
            None => r is None,
        },
{
    let (int_part, frac) = mantissa_parts(m);
    if (int_part.len() == 0 && frac.len() == 0) || !all_digits_exec(&int_part) || !all_digits_exec(&frac) {
        return None;
    }
    let mut digits = int_part.clone();
    let mut j: usize = 0;
    while j < frac.len()
        invariant
            j <= frac.len(),
            digits@ == int_part@ + frac@.take(j as int),
        decreases frac.len() - j,
    {
        digits.push(frac[j]);
        proof {
            assert(frac@.take(j + 1) =~= frac@.take(j as int).push(frac@[j as int]));
        }
        j = j + 1;
    }
    proof {
        assert(frac@.take(frac.len() as int) =~= frac@);
        assert(all_digits(digits@));
    }
    let ghost dg = digits@;
    let ghost e: int = if neg { -(digits_value(d@) as int) } else { digits_value(d@) as int };
    let ghost k: int = e + 9 - frac@.len();
    assert(secs_nanos_of(m@, e) == if shifted_value(dg, k) < nanos_limit() {
        Some(shifted_value(dg, k))
    } else {
        None::<nat>
    });
    let exp_cap: u128 = 1_000_000_000_000_000_000_000;
    let mag = digits_below(d, exp_cap);
    if neg {
        let keep: i128 = match mag {
            Some(v) => digits.len() as i128 + 9 - frac.len() as i128 - v as i128,
            None => -1,
        };
        proof {
            if mag is None {
                assert(dg.len() + k < 0);
            } else {
                assert(keep == dg.len() + k);
            }
        }
        if keep >= digits.len() as i128 {
            // The point moves right: no digit is dropped.
            let shift = keep - digits.len() as i128;
            return scale_up(&digits, shift as u128, false, Ghost(k));
        }
        proof {
            assert(k < 0);
        }
        round_dropped(&digits, keep, Ghost(k))
    } else {
        match mag {
            Some(v) => {
                let kk: i128 = v as i128 + 9 - frac.len() as i128;
                proof {
                    assert(kk == k);
                }
                if kk >= 0 {
                    scale_up(&digits, kk as u128, false, Ghost(k))
                } else {
                    let keep = digits.len() as i128 + kk;
                    round_dropped(&digits, keep, Ghost(k))
                }
            },
            None => {
                proof {
                    assert(k >= 29);
                }
                scale_up(&digits, 29, true, Ghost(k))
            },
        }
    }
}

/// The span of `digits` moved `k < 0` places, with `keep` digits kept and
/// the rest rounded away (see `shifted_value`); `keep < 0` stands for any
/// number of places below zero.
fn round_dropped(digits: &Vec<char>, keep: i128, Ghost(k): Ghost<int>) -> (r: Option<Duration>)
    requires
        all_digits(digits@),
        k < 0,
        keep < digits@.len(),
        keep >= 0 ==> keep == digits@.len() + k,
        keep < 0 ==> digits@.len() + k < 0,
    ensures
        match r {
            Some(x) => shifted_value(digits@, k) < nanos_limit() && x.spec_nanos() == shifted_value(digits@, k),
            None => shifted_value(digits@, k) >= nanos_limit(),
        },
{
    if keep < 0 {
        return Some(span_of(0));
    }
    assert(0 <= keep < digits.len());
    let kept = keep as usize;
    assert(kept as int == keep as int);
    let head: u128 = if kept == 0 {
        0
    } else {
        let h = slice_chars(digits.as_slice(), 0, kept);
        proof {
            assert(h@ =~= digits@.take(keep as int));
            assert(all_digits(h@));
        }
        match digits_below(&h, NANOS_LIMIT) {
            Some(v) => v,
            None => return None,
        }
    };
    let up = digits[kept] >= '5';
    assert(head == (if keep > 0 { digits_value(digits@.take(keep as int)) } else { 0nat }));
    assert(up == (digits@[keep as int] >= '5'));
    let n = if up { head + 1 } else { head };
    if n >= NANOS_LIMIT {
        return None;
    }
    Some(span_of(n))
}

/// The span of `digits * 10^shift` nanoseconds, or `None` where that is not
/// below the limit; a shift of 29 stands for any larger one.
fn scale_up(digits: &Vec<char>, shift: u128, capped: bool, Ghost(k): Ghost<int>) -> (r: Option<Duration>)
    requires
        all_digits(digits@),
        k >= 0,
        if capped { shift == 29 && k >= 29 } else { shift == k },
    ensures
        match r {
            Some(d) => shifted_value(digits@, k) < nanos_limit() && d.spec_nanos() == shifted_value(digits@, k),
            None => shifted_value(digits@, k) >= nanos_limit(),
        },
{
    let ghost dv = digits_value(digits@);
    let mut acc = match digits_below(digits.as_slice(), NANOS_LIMIT) {
        Some(v) => v,
        None => {
            proof {
                lemma_pow10_pos(k as nat);
                assert(dv * pow10(k as nat) >= dv) by (nonlinear_arith)
                    requires
                        pow10(k as nat) >= 1,
                ;
            }
            return None;
        },
    };
    if acc == 0 {
        assert(dv * pow10(k as nat) == 0) by (nonlinear_arith)
            requires
                dv == 0,
        ;
        return Some(span_of(0));
    }
    if acc == NANOS_LIMIT {
        proof {
            lemma_scaled_mono(dv, 0, k as nat);
        }
        return None;
    }
    let mut j: u128 = 0;
    assert(pow10(0) == 1);
    assert(acc == dv * pow10(0));
    while j < shift
        invariant
            j <= shift,
            if capped { shift == 29 && k >= 29 } else { shift == k },
            k >= 0,
            dv == digits_value(digits@),
            dv >= 1,
            acc == dv * pow10(j as nat),
            acc < NANOS_LIMIT,
        decreases shift - j,
    {
        let next = acc * 10;
        proof {
            lemma_pow10_step(j as nat);
            assert(next == dv * pow10((j + 1) as nat)) by (nonlinear_arith)
                requires
                    next == acc * 10,
                    acc == dv * pow10(j as nat),
                    pow10((j + 1) as nat) == 10 * pow10(j as nat),
            ;
        }
        if next >= NANOS_LIMIT {
            proof {
                lemma_scaled_mono(dv, (j + 1) as nat, k as nat);
            }
            return None;
        }
        acc = next;
        j = j + 1;
    }
    if capped {
        proof {
            lemma_pow10_29();
            lemma_pow10_pos(29);
            assert(acc >= pow10(29)) by (nonlinear_arith)
                requires
                    acc == dv * pow10(29),
                    dv >= 1,
            ;
        }
        return None;
    }
    Some(span_of(acc))
}

/// Reads a number of seconds as `f64::from_str` writes it (see
/// `parse_secs_nanos`).
pub fn parse_decimal_secs(s: &[char]) -> (r: Option<Duration>)
    ensures
        match parse_secs_nanos(s@) {
            Some(n) => r matches Some(d) && d.spec_nanos() == n,
            None => r is None,
        },
{
    let fe = find_char_idx(s, 'e');
    let fu = find_char_idx(s, 'E');
    let mark = match (fe, fu) {
        (Some(i), Some(j)) => Some(if i < j { i } else { j }),
        (Some(i), None) => Some(i),
        (None, Some(j)) => Some(j),
        (None, None) => None,
    };
    match mark {
        None => {
            let zero: Vec<char> = vec!['0'];
            proof {
                reveal_with_fuel(digits_value, 2);
                assert(all_digits(zero@));
                assert(zero@.drop_last() =~= Seq::<char>::empty());
            }
            secs_from_parts(s, false, zero.as_slice())
        },
        Some(i) => {
            assert(i < s.len());
            assert(exp_marker(s@) == Some(i as int));
            let m = slice_chars(s, 0, i);
            let x = slice_chars(s, i + 1, s.len());
            proof {
                assert(m@ =~= s@.take(i as int));
                assert(x@ =~= s@.skip(i + 1));
            }
            let signed = x.len() > 0 && (x[0] == '+' || x[0] == '-');
            let neg = signed && x[0] == '-';
            let d = if signed { slice_chars(&x, 1, x.len()) } else { slice_chars(&x, 0, x.len()) };
            proof {
                if signed {
                    assert(d@ =~= x@.drop_first());
                } else {
                    assert(d@ =~= x@);
                }
            }
            if d.len() == 0 || !all_digits_exec(&d) {
                return None;
            }
            secs_from_parts(&m, neg, &d)
        },
    }
}

} // verus!
