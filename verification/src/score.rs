//! Reading a score from the decimal text of a number.
use vstd::prelude::*;

verus! {

pub open spec fn is_digit(c: char) -> bool {
    '0' <= c <= '9'
}

pub open spec fn digit_value(c: char) -> int {
    (c as int) - ('0' as int)
}

/// The value of a run of decimal digits.
pub open spec fn digits_value(s: Seq<char>) -> int
    decreases s.len(),
{
    if s.len() == 0 {
        0
    } else {
        digits_value(s.drop_last()) * 10 + digit_value(s.last())
    }
}

pub open spec fn all_digits(s: Seq<char>) -> bool {
    forall|i: int| 0 <= i < s.len() ==> is_digit(#[trigger] s[i])
}

/// The `j`-th digit of `f`, or 0 past the end.
pub open spec fn fraction_digit(f: Seq<char>, j: int) -> int {
    if 0 <= j < f.len() {
        digit_value(f[j])
    } else {
        0
    }
}

/// The value of the first `n` digits of `f`, padded with zeros.
pub open spec fn fraction_prefix(f: Seq<char>, n: nat) -> int
    decreases n,
{
    if n == 0 {
        0
    } else {
        fraction_prefix(f, (n - 1) as nat) * 10 + fraction_digit(f, n - 1)
    }
}

/// The digits `d`, with the decimal point after the first `n` of them, in
/// whole units: their value up to the point, plus one when the digit after
/// the point is 5 or more.
pub open spec fn scaled_magnitude(d: Seq<char>, n: int) -> int {
    (if n > 0 { fraction_prefix(d, n as nat) } else { 0 }) + if n >= 0 && fraction_digit(d, n) >= 5 {
        1int
    } else {
        0int
    }
}

/// The position of the first `.` in `s`, if any.
pub open spec fn dot_index(s: Seq<char>) -> Option<int> {
    if exists|k: int| 0 <= k < s.len() && s[k] == '.' && forall|j: int| 0 <= j < k ==> s[j] != '.' {
        Some(choose|k: int| 0 <= k < s.len() && s[k] == '.' && forall|j: int| 0 <= j < k ==> s[j] != '.')
    } else {
        None
    }
}

pub open spec fn is_exponent_mark(c: char) -> bool {
    c == 'e' || c == 'E'
}

/// The position of the first `e` or `E` in `s`, if any.
pub open spec fn mark_index(s: Seq<char>) -> Option<int> {
    if exists|k: int|
        0 <= k < s.len() && is_exponent_mark(s[k]) && forall|j: int|
            0 <= j < k ==> !is_exponent_mark(s[j]) {
        Some(
            choose|k: int|
                0 <= k < s.len() && is_exponent_mark(s[k]) && forall|j: int|
                    0 <= j < k ==> !is_exponent_mark(s[j]),
        )
    } else {
        None
    }
}

/// The digits of an exponent, after its optional sign.
pub open spec fn exponent_digits(x: Seq<char>) -> Seq<char> {
    if x.len() > 0 && (x[0] == '-' || x[0] == '+') {
        x.skip(1)
    } else {
        x
    }
}

/// `x` is an optional sign followed by one or more digits.
pub open spec fn exponent_ok(x: Seq<char>) -> bool {
    exponent_digits(x).len() > 0 && all_digits(exponent_digits(x))
}

pub open spec fn exponent_value(x: Seq<char>) -> int {
    if x.len() > 0 && x[0] == '-' {
        -digits_value(exponent_digits(x))
    } else {
        digits_value(exponent_digits(x))
    }
}

/// The score in millionths written by `s`: an optional `-`, one or more
/// digits, optionally a `.` followed by one or more digits, and optionally an
/// exponent (`e` or `E`, an optional sign, one or more digits). The number
/// times a million is rounded half up on the first digit it drops; a
/// magnitude beyond `i64::MAX` has no score.
pub open spec fn score_of_text(s: Seq<char>) -> Option<int> {
    let negative = s.len() > 0 && s[0] == '-';
    let body = if negative { s.skip(1) } else { s };
    let mantissa = match mark_index(body) {
        Some(k) => body.take(k),
        None => body,
    };
    let exponent_text = match mark_index(body) {
        Some(k) => body.skip(k + 1),
        None => seq!['0'],
    };
    let int_part = match dot_index(mantissa) {
        Some(k) => mantissa.take(k),
        None => mantissa,
    };
    let frac = match dot_index(mantissa) {
        Some(k) => mantissa.skip(k + 1),
        None => Seq::<char>::empty(),
    };
    let magnitude = scaled_magnitude(
        int_part + frac,
        int_part.len() + exponent_value(exponent_text) + 6,
    );
    if int_part.len() > 0 && all_digits(int_part) && all_digits(frac) && (dot_index(mantissa) is Some
        ==> frac.len() > 0) && exponent_ok(exponent_text) && magnitude <= i64::MAX {
        Some(if negative { -magnitude } else { magnitude })
    } else {
        None
    }
}

// ---------------------------------------------------------------------------
// Facts about digit prefixes
// ---------------------------------------------------------------------------

spec fn pow10_small(n: nat) -> int
    decreases n,
{
    if n == 0 {
        1
    } else {
        10 * pow10_small((n - 1) as nat)
    }
}

/// Values of a prefix are capped here: past it, no score fits in an `i64`.
const PREFIX_CAP: u128 = 10000000000000000000;

proof fn lemma_pow10_at_least(m: nat)
    requires
        m >= 19,
    ensures
        pow10_small(m) >= PREFIX_CAP,
    decreases m,
{
    if m == 19 {
        reveal_with_fuel(pow10_small, 20);
    } else {
        lemma_pow10_at_least((m - 1) as nat);
    }
}

proof fn lemma_prefix_nonneg(d: Seq<char>, n: nat)
    requires
        all_digits(d),
    ensures
        fraction_prefix(d, n) >= 0,
    decreases n,
{
    if n > 0 {
        lemma_prefix_nonneg(d, (n - 1) as nat);
        if 0 <= n - 1 < d.len() {
            assert(is_digit(d[n - 1]));
        }
    }
}

proof fn lemma_prefix_zero(d: Seq<char>, n: nat)
    requires
        forall|i: int| 0 <= i < d.len() ==> digit_value(#[trigger] d[i]) == 0,
    ensures
        fraction_prefix(d, n) == 0,
    decreases n,
{
    if n > 0 {
        lemma_prefix_zero(d, (n - 1) as nat);
        if 0 <= n - 1 < d.len() {
            assert(digit_value(d[n - 1]) == 0);
        }
    }
}

proof fn lemma_prefix_grows(d: Seq<char>, k: nat, m: nat)
    requires
        all_digits(d),
        fraction_prefix(d, k) >= 1,
    ensures
        fraction_prefix(d, k + m) >= pow10_small(m),
    decreases m,
{
    if m > 0 {
        lemma_prefix_grows(d, k, (m - 1) as nat);
        let j = k + m - 1;
        if 0 <= j < d.len() {
            assert(is_digit(d[j]));
        }
        assert(fraction_prefix(d, (k + m) as nat) == fraction_prefix(d, (k + m - 1) as nat) * 10
            + fraction_digit(d, j));
    }
}

/// Far enough past the digits, a prefix is zero, or too large for a score,
/// whatever its length.
proof fn lemma_prefix_far(d: Seq<char>, n1: nat, n2: nat)
    requires
        all_digits(d),
        d.len() + 20 <= n1 <= n2,
    ensures
        (fraction_prefix(d, n1) == 0 && fraction_prefix(d, n2) == 0) || (fraction_prefix(d, n1)
            >= PREFIX_CAP && fraction_prefix(d, n2) >= PREFIX_CAP),
{
    if exists|i: int| 0 <= i < d.len() && digit_value(d[i]) != 0 {
        let i = choose|i: int| 0 <= i < d.len() && digit_value(d[i]) != 0;
        assert(is_digit(d[i]));
        lemma_prefix_nonneg(d, i as nat);
        assert(fraction_prefix(d, (i + 1) as nat) == fraction_prefix(d, i as nat) * 10
            + fraction_digit(d, i));
        lemma_prefix_grows(d, (i + 1) as nat, (n1 - i - 1) as nat);
        lemma_prefix_grows(d, (i + 1) as nat, (n2 - i - 1) as nat);
        lemma_pow10_at_least((n1 - i - 1) as nat);
        lemma_pow10_at_least((n2 - i - 1) as nat);
    } else {
        lemma_prefix_zero(d, n1);
        lemma_prefix_zero(d, n2);
    }
}

// ---------------------------------------------------------------------------
// Reading
// ---------------------------------------------------------------------------

/// Whether every character of `d` is a digit, and their value capped at `cap + 1`.
fn digits_capped(d: &str, cap: u128) -> (r: (bool, u128))
    requires
        cap < 1000000000000000000000000000000,
    ensures
        r.0 == all_digits(d@),
        r.0 ==> r.1 == (if digits_value(d@) <= cap { digits_value(d@) } else { cap + 1 }),
{
    let n = d.unicode_len();
    let mut acc: u128 = 0;
    let mut j: usize = 0;
    while j < n
        invariant
            cap < 1000000000000000000000000000000,
            n == d@.len(),
            j <= n,
            all_digits(d@.take(j as int)),
            acc == (if digits_value(d@.take(j as int)) <= cap {
                digits_value(d@.take(j as int))
            } else {
                cap + 1
            }),
        decreases n - j,
    {
        let c = d.get_char(j);
        if !('0' <= c && c <= '9') {
            assert(d@.take(j as int + 1)[j as int] == c);
            assert(!all_digits(d@));
            return (false, 0);
        }
        let v = (c as u32 - '0' as u32) as u128;
        let ghost prev = d@.take(j as int);
        let ghost next = d@.take(j as int + 1);
        assert(next.drop_last() =~= prev);
        assert(next.last() == c);
        assert(digits_value(next) == digits_value(prev) * 10 + v);
        assert(digits_value(prev) >= 0) by {
            lemma_digits_value_nonneg(prev);
        }
        acc = if acc * 10 + v <= cap {
            acc * 10 + v
        } else {
            cap + 1
        };
        assert forall|i: int| 0 <= i < next.len() implies is_digit(#[trigger] next[i]) by {
            if i < j {
                assert(next[i] == prev[i]);
            }
        }
        j = j + 1;
    }
    assert(d@.take(n as int) =~= d@);
    (true, acc)
}

proof fn lemma_digits_value_nonneg(s: Seq<char>)
    requires
        all_digits(s),
    ensures
        digits_value(s) >= 0,
    decreases s.len(),
{
    if s.len() > 0 {
        assert(all_digits(s.drop_last())) by {
            assert forall|i: int| 0 <= i < s.drop_last().len() implies is_digit(
                #[trigger] s.drop_last()[i],
            ) by {
                assert(s.drop_last()[i] == s[i]);
            }
        }
        lemma_digits_value_nonneg(s.drop_last());
        assert(is_digit(s[s.len() - 1]));
    }
}

/// Whether every character of `f` is a digit.
fn all_digits_exec(f: &str) -> (r: bool)
    ensures
        r == all_digits(f@),
{
    let n = f.unicode_len();
    let mut j: usize = 0;
    while j < n
        invariant
            n == f@.len(),
            j <= n,
            forall|i: int| 0 <= i < j ==> is_digit(#[trigger] f@[i]),
        decreases n - j,
    {
        let c = f.get_char(j);
        if !('0' <= c && c <= '9') {
            return false;
        }
        j = j + 1;
    }
    true
}

proof fn lemma_prefix_past(d: Seq<char>, j: nat, k: nat)
    requires
        all_digits(d),
        d.len() <= j <= k,
    ensures
        fraction_prefix(d, j) == 0 ==> fraction_prefix(d, k) == 0,
        fraction_prefix(d, j) >= PREFIX_CAP ==> fraction_prefix(d, k) >= PREFIX_CAP,
    decreases k - j,
{
    if j < k {
        lemma_prefix_past(d, j, (k - 1) as nat);
        lemma_prefix_nonneg(d, (k - 1) as nat);
    }
}

/// The value of the first `count` digits of `d`, padded with zeros, capped at `PREFIX_CAP`.
fn prefix_capped(d: &str, count: u128) -> (r: u128)
    requires
        all_digits(d@),
    ensures
        r == (if fraction_prefix(d@, count as nat) < PREFIX_CAP {
            fraction_prefix(d@, count as nat)
        } else {
            PREFIX_CAP as int
        }),
{
    let n = d.unicode_len();
    let mut acc: u128 = 0;
    let mut j: u128 = 0;
    while j < count
        invariant
            n == d@.len(),
            all_digits(d@),
            j <= count,
            acc == (if fraction_prefix(d@, j as nat) < PREFIX_CAP {
                fraction_prefix(d@, j as nat)
            } else {
                PREFIX_CAP as int
            }),
        decreases count - j,
    {
        if j >= n as u128 && (acc == 0 || acc == PREFIX_CAP) {
            proof {
                lemma_prefix_nonneg(d@, j as nat);
                lemma_prefix_past(d@, j as nat, count as nat);
            }
            return acc;
        }
        let v: u128 = if j < n as u128 {
            assert(is_digit(d@[j as int]));
            (d.get_char(j as usize) as u32 - '0' as u32) as u128
        } else {
            0
        };
        assert(v == fraction_digit(d@, j as int));
        proof {
            lemma_prefix_nonneg(d@, j as nat);
        }
        assert(fraction_prefix(d@, (j + 1) as nat) == fraction_prefix(d@, j as nat) * 10 + v);
        acc = if acc * 10 + v < PREFIX_CAP {
            acc * 10 + v
        } else {
            PREFIX_CAP
        };
        j = j + 1;
    }
    acc
}

/// The position in `s` of the first character that `e`, `E` (when `mark`) or
/// `.` (otherwise) is, or the length of `s`.
fn first_mark(s: &str, mark: bool) -> (k: usize)
    ensures
        k <= s@.len(),
        forall|j: int| 0 <= j < k ==> (if mark { !is_exponent_mark(s@[j]) } else { s@[j] != '.' }),
        k < s@.len() ==> (if mark { is_exponent_mark(s@[k as int]) } else { s@[k as int] == '.' }),
{
    let m = s.unicode_len();
    let mut k: usize = 0;
    while k < m
        invariant
            m == s@.len(),
            k <= m,
            forall|j: int|
                0 <= j < k ==> (if mark { !is_exponent_mark(s@[j]) } else { s@[j] != '.' }),
        decreases m - k,
    {
        let c = s.get_char(k);
        if (mark && (c == 'e' || c == 'E')) || (!mark && c == '.') {
            return k;
        }
        k = k + 1;
    }
    k
}

/// `body` split at its first exponent mark: the mantissa, and the exponent
/// text (`0` when there is no mark).
fn split_exponent(body: &str) -> (r: (&str, &str))
    ensures
        r.0@ == match mark_index(body@) {
            Some(k) => body@.take(k),
            None => body@,
        },
        r.1@ == match mark_index(body@) {
            Some(k) => body@.skip(k + 1),
            None => seq!['0'],
        },
{
    let m = body.unicode_len();
    let k = first_mark(body, true);
    proof {
        let b = body@;
        if k < m {
            let c = choose|c: int|
                0 <= c < b.len() && is_exponent_mark(b[c]) && forall|j: int|
                    0 <= j < c ==> !is_exponent_mark(b[j]);
            assert(0 <= k < b.len() && is_exponent_mark(b[k as int]) && forall|j: int|
                0 <= j < k ==> !is_exponent_mark(b[j]));
            if c < k {
                assert(!is_exponent_mark(b[c]));
            } else if k < c {
                assert(!is_exponent_mark(b[k as int]));
            }
            assert(mark_index(b) == Some(k as int));
        } else {
            assert(mark_index(b) is None);
        }
        reveal_strlit("0");
    }
    let mantissa = body.substring_char(0, k);
    assert(mantissa@ =~= body@.take(k as int));
    assert(k == m ==> body@.take(k as int) =~= body@);
    if k < m {
        let e = body.substring_char(k + 1, m);
        assert(e@ =~= body@.skip(k + 1));
        (mantissa, e)
    } else {
        assert("0"@ =~= seq!['0']);
        (mantissa, "0")
    }
}

/// `mantissa` split at its first point: the whole part and the fraction
/// digits, and whether there was a point.
fn split_point(mantissa: &str) -> (r: (&str, &str, bool))
    ensures
        r.2 == dot_index(mantissa@) is Some,
        r.0@ == match dot_index(mantissa@) {
            Some(k) => mantissa@.take(k),
            None => mantissa@,
        },
        r.1@ == match dot_index(mantissa@) {
            Some(k) => mantissa@.skip(k + 1),
            None => Seq::<char>::empty(),
        },
{
    let mm = mantissa.unicode_len();
    let p = first_mark(mantissa, false);
    proof {
        let b = mantissa@;
        if p < mm {
            let c = choose|c: int| 0 <= c < b.len() && b[c] == '.' && forall|j: int| 0 <= j < c ==> b[j] != '.';
            assert(0 <= p < b.len() && b[p as int] == '.' && forall|j: int| 0 <= j < p ==> b[j] != '.');
            if c < p {
                assert(b[c] != '.');
            } else if p < c {
                assert(b[p as int] != '.');
            }
            assert(dot_index(b) == Some(p as int));
        } else {
            assert(dot_index(b) is None);
        }
    }
    let int_part = mantissa.substring_char(0, p);
    assert(int_part@ =~= mantissa@.take(p as int));
    assert(p == mm ==> mantissa@.take(p as int) =~= mantissa@);
    if p < mm {
        let frac = mantissa.substring_char(p + 1, mm);
        assert(frac@ =~= mantissa@.skip(p + 1));
        (int_part, frac, true)
    } else {
        let frac = mantissa.substring_char(mm, mm);
        assert(frac@ =~= Seq::<char>::empty());
        (int_part, frac, false)
    }
}

/// Whether `x` is a well-formed exponent; if so, whether it is negative and
/// its magnitude capped at `cap + 1`.
fn read_exponent(x: &str, cap: u128) -> (r: Option<(bool, u128)>)
    requires
        cap < 1000000000000000000000000000000,
    ensures
        r is Some <==> exponent_ok(x@),
        r matches Some(p) ==> {
            &&& p.0 == (x@.len() > 0 && x@[0] == '-')
            &&& digits_value(exponent_digits(x@)) >= 0
            &&& p.1 == (if digits_value(exponent_digits(x@)) <= cap {
                digits_value(exponent_digits(x@))
            } else {
                cap + 1
            })
        },
{
    let en = x.unicode_len();
    let negative = en > 0 && x.get_char(0) == '-';
    let signed = en > 0 && (x.get_char(0) == '-' || x.get_char(0) == '+');
    let digits = if signed {
        x.substring_char(1, en)
    } else {
        x.substring_char(0, en)
    };
    assert(digits@ =~= exponent_digits(x@));
    if digits.unicode_len() == 0 {
        return None;
    }
    let (ok, mag) = digits_capped(digits, cap);
    if !ok {
        return None;
    }
    proof {
        lemma_digits_value_nonneg(digits@);
    }
    Some((negative, mag))
}

/// The magnitude of a number with digits `d`, `il` of them before the point,
/// and exponent `±dv`, given that exponent's magnitude capped past the digits.
/// Exact when it fits in an `i64`; otherwise past `i64::MAX` too.
fn magnitude_of(d: &str, il: usize, exp_negative: bool, exp_mag: u128, Ghost(dv): Ghost<int>) -> (r: u128)
    requires
        all_digits(d@),
        il <= d@.len(),
        dv >= 0,
        exp_mag == (if dv <= d@.len() + 64 { dv } else { (d@.len() + 65) as int }),
    ensures
        ({
            let n = il + (if exp_negative { -dv } else { dv }) + 6;
            &&& (r <= i64::MAX) == (scaled_magnitude(d@, n) <= i64::MAX)
            &&& r <= i64::MAX ==> r == scaled_magnitude(d@, n)
        }),
{
    let big_l = d.unicode_len();
    let ghost n_true: int = il + (if exp_negative { -dv } else { dv }) + 6;
    let np: i128 = if exp_negative {
        il as i128 + 6 - exp_mag as i128
    } else {
        il as i128 + 6 + exp_mag as i128
    };
    if np < 0 {
        assert(n_true < 0);
        return 0;
    }
    let count = np as u128;
    let fp = prefix_capped(d, count);
    let rd: u128 = if count < big_l as u128 {
        assert(is_digit(d@[count as int]));
        let c = d.get_char(count as usize);
        if c >= '5' {
            1
        } else {
            0
        }
    } else {
        0
    };
    proof {
        lemma_prefix_nonneg(d@, count as nat);
        if exp_mag as int <= d@.len() + 64 {
            assert(np == n_true);
        } else {
            assert(!exp_negative);
            assert(n_true >= np);
            lemma_prefix_far(d@, count as nat, n_true as nat);
        }
    }
    fp + rd
}

/// The score in millionths written by the decimal text `s` (see `score_of_text`).
pub fn score_from_text(s: &str) -> (r: Option<i64>)
    ensures
        match r {
            Some(v) => score_of_text(s@) == Some(v as int),
            None => score_of_text(s@) is None,
        },
{
    let n = s.unicode_len();
    let negative = n > 0 && s.get_char(0) == '-';
    let body = if negative {
        s.substring_char(1, n)
    } else {
        s.substring_char(0, n)
    };
    assert(negative ==> body@ =~= s@.skip(1));
    assert(!negative ==> body@ =~= s@);
    let (mantissa, exp_text) = split_exponent(body);
    let (int_part, frac, has_dot) = split_point(mantissa);
    let il = int_part.unicode_len();
    if il == 0 || (has_dot && frac.unicode_len() == 0) {
        return None;
    }
    if !all_digits_exec(int_part) || !all_digits_exec(frac) {
        return None;
    }
    let mut digits = String::from_str(int_part);
    digits.append(frac);
    let big_l = digits.unicode_len();
    assert(all_digits(digits@)) by {
        assert forall|i: int| 0 <= i < digits@.len() implies is_digit(#[trigger] digits@[i]) by {
            if i < il {
                assert(digits@[i] == int_part@[i]);
            } else {
                assert(digits@[i] == frac@[i - il]);
            }
        }
    }
    let cap: u128 = big_l as u128 + 64;
    let (exp_negative, exp_mag) = match read_exponent(exp_text, cap) {
        Some(p) => p,
        None => return None,
    };
    let mag = magnitude_of(
        digits.as_str(),
        il,
        exp_negative,
        exp_mag,
        Ghost(digits_value(exponent_digits(exp_text@))),
    );
    if mag > 9223372036854775807u128 {
        return None;
    }
    let v = mag as i64;
    if negative {
        Some(-v)
    } else {
        Some(v)
    }
}

} // verus!
