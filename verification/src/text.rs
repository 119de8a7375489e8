//! Text utilities over character sequences.
use vstd::prelude::*;

verus! {

/// Whether `a` and `b` hold the same characters.
pub fn same_text(a: &str, b: &str) -> (r: bool)
    ensures
        r == (a@ == b@),
{
    let n = a.unicode_len();
    let m = b.unicode_len();
    if n != m {
        return false;
    }
    let mut i: usize = 0;
    while i < n
        invariant
            n == a@.len(),
            m == b@.len(),
            n == m,
            i <= n,
            forall|j: int| 0 <= j < i ==> a@[j] == b@[j],
        decreases n - i,
    {
        if a.get_char(i) != b.get_char(i) {
            return false;
        }
        i = i + 1;
    }
    assert(a@ =~= b@);
    true
}


/// Every non-overlapping occurrence of `pat` in `s`, taken from the left,
/// replaced by `rep`. An empty pattern leaves `s` as it is.
pub open spec fn replaced(s: Seq<char>, pat: Seq<char>, rep: Seq<char>) -> Seq<char>
    decreases s.len(),
{
    if s.len() == 0 {
        Seq::empty()
    } else if 0 < pat.len() <= s.len() && s.take(pat.len() as int) == pat {
        rep + replaced(s.skip(pat.len() as int), pat, rep)
    } else {
        seq![s[0]] + replaced(s.skip(1), pat, rep)
    }
}

/// Whether `pat` occurs in `s` starting at position `i`.
pub open spec fn occurs_at(s: Seq<char>, pat: Seq<char>, i: int) -> bool {
    0 <= i && i + pat.len() <= s.len() && s.subrange(i, i + pat.len()) == pat
}

proof fn lemma_replaced_step(s: Seq<char>, pat: Seq<char>, rep: Seq<char>, i: int)
    requires
        0 <= i < s.len(),
        pat.len() > 0,
    ensures
        occurs_at(s, pat, i) ==> replaced(s.skip(i), pat, rep) == rep + replaced(
            s.skip(i + pat.len()),
            pat,
            rep,
        ),
        !occurs_at(s, pat, i) ==> replaced(s.skip(i), pat, rep) == seq![s[i]] + replaced(
            s.skip(i + 1),
            pat,
            rep,
        ),
{
    let t = s.skip(i);
    assert(t.len() > 0);
    if i + pat.len() <= s.len() {
        assert(t.take(pat.len() as int) =~= s.subrange(i, i + pat.len()));
        assert(t.skip(pat.len() as int) =~= s.skip(i + pat.len()));
    }
    assert(t.skip(1) =~= s.skip(i + 1));
    assert(t[0] == s[i]);
}

/// Whether `pat` occurs in `s` starting at `i`, compared character by character.
fn occurs_at_exec(s: &str, n: usize, pat: &str, m: usize, i: usize) -> (r: bool)
    requires
        n == s@.len(),
        m == pat@.len(),
        i <= n,
    ensures
        r == occurs_at(s@, pat@, i as int),
{
    if m > n - i {
        return false;
    }
    let mut j: usize = 0;
    while j < m
        invariant
            n == s@.len(),
            m == pat@.len(),
            i + m <= n,
            j <= m,
            forall|k: int| 0 <= k < j ==> s@[i + k] == pat@[k],
        decreases m - j,
    {
        if s.get_char(i + j) != pat.get_char(j) {
            assert(s@.subrange(i as int, i + m)[j as int] != pat@[j as int]);
            return false;
        }
        j = j + 1;
    }
    assert(s@.subrange(i as int, i + m) =~= pat@);
    true
}

/// Replace every non-overlapping occurrence of a non-empty pattern, scanning from the left.
pub fn replace_all(s: &str, pat: &str, rep: &str) -> (r: String)
    requires
        pat@.len() > 0,
    ensures
        r@ == replaced(s@, pat@, rep@),
{
    let n = s.unicode_len();
    let m = pat.unicode_len();
    let mut out = String::new();
    let mut start: usize = 0;
    let mut i: usize = 0;
    assert(s@.skip(0) =~= s@);
    assert(out@ + s@.subrange(0, 0) =~= Seq::<char>::empty());
    while i < n
        invariant
            n == s@.len(),
            m == pat@.len(),
            m > 0,
            start <= i <= n,
            out@ + s@.subrange(start as int, i as int) + replaced(s@.skip(i as int), pat@, rep@)
                == replaced(s@, pat@, rep@),
        decreases n - i,
    {
        proof {
            lemma_replaced_step(s@, pat@, rep@, i as int);
        }
        if occurs_at_exec(s, n, pat, m, i) {
            let ghost before = out@;
            out.append(s.substring_char(start, i));
            out.append(rep);
            assert(out@ == before + s@.subrange(start as int, i as int) + rep@);
            i = i + m;
            start = i;
            assert(s@.subrange(start as int, i as int) =~= Seq::<char>::empty());
        } else {
            assert(s@.subrange(start as int, i as int) + seq![s@[i as int]] =~= s@.subrange(
                start as int,
                i + 1,
            ));
            i = i + 1;
        }
    }
    out.append(s.substring_char(start, n));
    assert(s@.skip(n as int) =~= Seq::<char>::empty());
    out
}


/// The character of decimal digit `d`.
pub open spec fn digit_char(d: nat) -> char {
    ((d as int) + ('0' as int)) as char
}

/// The decimal notation of `n`, without leading zeros.
pub open spec fn decimal(n: nat) -> Seq<char>
    decreases n,
{
    if n < 10 {
        seq![digit_char(n)]
    } else {
        decimal(n / 10) + seq![digit_char(n % 10)]
    }
}

/// `a / d` rounded to the nearest integer, ties going to the even neighbour.
pub open spec fn round_half_even(a: nat, d: nat) -> nat
    recommends
        d > 0,
{
    let q = a / d;
    let r = a % d;
    if 2 * r > d {
        q + 1
    } else if 2 * r < d {
        q
    } else if q % 2 == 0 {
        q
    } else {
        q + 1
    }
}

/// The one-character text of digit `d`.
fn digit_text(d: u64) -> (r: &'static str)
    requires
        d < 10,
    ensures
        r@ == seq![digit_char(d as nat)],
{
    let digits = "0123456789";
    proof {
        reveal_strlit("0123456789");
    }
    let d = d as usize;
    let r = digits.substring_char(d, d + 1);
    assert(r@ =~= seq![digit_char(d as nat)]);
    r
}

/// The decimal notation of `n`.
pub fn decimal_text(n: u64) -> (r: String)
    ensures
        r@ == decimal(n as nat),
{
    if n < 10 {
        return String::from_str(digit_text(n));
    }
    let mut out = String::new();
    let mut x: u64 = n;
    while x > 0
        invariant
            x > 0 ==> decimal(n as nat) == decimal(x as nat) + out@,
            x == 0 ==> decimal(n as nat) == out@,
        decreases x,
    {
        let d = x % 10;
        let mut piece = String::from_str(digit_text(d));
        piece.append(out.as_str());
        proof {
            if x >= 10 {
                assert(decimal(x as nat) == decimal((x / 10) as nat) + seq![digit_char(d as nat)]);
                assert(decimal(x as nat) + out@ =~= decimal((x / 10) as nat) + piece@);
            } else {
                assert(decimal(x as nat) + out@ =~= piece@);
            }
        }
        out = piece;
        x = x / 10;
    }
    out
}


/// A score in millionths written as a whole percentage: a minus sign when the
/// score is negative, the magnitude in hundredths rounded half to even, and `%`.
pub open spec fn percent_text(v: int) -> Seq<char> {
    let magnitude: nat = if v < 0 { (-v) as nat } else { v as nat };
    (if v < 0 { "-"@ } else { Seq::<char>::empty() }) + decimal(round_half_even(magnitude, 10000))
        + "%"@
}

/// A score in millionths written as a whole percentage.
pub fn percent_text_of(v: i64) -> (r: String)
    ensures
        r@ == percent_text(v as int),
{
    let magnitude: u64 = if v < 0 {
        (0i128 - (v as i128)) as u64
    } else {
        v as u64
    };
    let q = magnitude / 10000;
    let rem = magnitude % 10000;
    let rounded = if 2 * rem > 10000 {
        q + 1
    } else if 2 * rem < 10000 {
        q
    } else if q % 2 == 0 {
        q
    } else {
        q + 1
    };
    assert(rounded == round_half_even(magnitude as nat, 10000));
    let mut out = if v < 0 {
        String::from_str("-")
    } else {
        String::new()
    };
    let digits = decimal_text(rounded);
    out.append(digits.as_str());
    out.append("%");
    out
}

} // verus!
