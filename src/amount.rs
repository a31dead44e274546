//! Exact decimal amounts: a price, a tax or a total is a whole number of
//! units of `10^-scale`, kept in lowest terms.
use vstd::prelude::*;
use crate::text::{
    all_digits, digit_value, digits_of, is_digit_char, lemma_digits_of, lemma_leading_zeros,
    number_text, value_of, zeros,
};

verus! {

/// `10` raised to `k`.
pub open spec fn pow10(k: nat) -> nat
    decreases k,
{
    if k == 0 {
        1
    } else {
        10 * pow10((k - 1) as nat)
    }
}

/// `m / 10^s` in lowest terms: trailing zero digits of `m` are cancelled
/// against the scale.
pub open spec fn normalize(m: nat, s: nat) -> (nat, nat)
    decreases s,
{
    if s > 0 && m % 10 == 0 {
        normalize(m / 10, (s - 1) as nat)
    } else {
        (m, s)
    }
}

/// `m / 10^s` is in lowest terms.
pub open spec fn is_normal(m: nat, s: nat) -> bool {
    s == 0 || m % 10 != 0
}

/// `m1 / 10^s1 == m2 / 10^s2`.
pub open spec fn same_value(m1: nat, s1: nat, m2: nat, s2: nat) -> bool {
    m1 * pow10(s2) == m2 * pow10(s1)
}

/// A decimal amount, `mantissa / 10^scale`.
#[derive(Clone, Copy, Debug, PartialEq, Eq)]
pub struct Amount {
    pub mantissa: u64,
    pub scale: u32,
}

impl Amount {
    /// Lowest terms, and a scale that leaves room for one more digit.
    pub open spec fn wf(&self) -> bool {
        is_normal(self.mantissa as nat, self.scale as nat) && self.scale < u32::MAX
    }

    /// The amount as a pair of mantissa and scale.
    pub open spec fn parts(&self) -> (nat, nat) {
        (self.mantissa as nat, self.scale as nat)
    }
}

/// Why a text is not an acceptable number.
#[derive(Clone, Copy, Debug, PartialEq, Eq)]
pub enum NumberIssue {
    /// The text is not written as a number at all.
    NotANumber,
    /// The text is a number, but not one in the accepted range.
    OutOfRange,
}

pub proof fn lemma_normalize(m: nat, s: nat)
    ensures
        is_normal(normalize(m, s).0, normalize(m, s).1),
        normalize(m, s).0 <= m,
        normalize(m, s).1 <= s,
        same_value(normalize(m, s).0, normalize(m, s).1, m, s),
        m > 0 ==> normalize(m, s).0 > 0,
    decreases s,
{
    if s > 0 && m % 10 == 0 {
        lemma_normalize(m / 10, (s - 1) as nat);
        let (a, b) = normalize(m / 10, (s - 1) as nat);
        let p = pow10((s - 1) as nat);
        let q = pow10(b);
        assert(a * p == (m / 10) * q);
        assert(pow10(s) == 10 * p);
        assert(m == 10 * (m / 10));
        assert(a * (10 * p) == 10 * (a * p)) by (nonlinear_arith);
        assert((10 * (m / 10)) * q == 10 * ((m / 10) * q)) by (nonlinear_arith);
    }
}

/// An amount already in lowest terms is its own normal form.
pub proof fn lemma_normalize_normal(m: nat, s: nat)
    requires
        is_normal(m, s),
    ensures
        normalize(m, s) == (m, s),
{
}

/// `m / 10^s` in lowest terms; `m` may need up to 128 bits.
pub fn normalize_exec(m: u128, s: u32) -> (r: (u128, u32))
    ensures
        (r.0 as nat, r.1 as nat) == normalize(m as nat, s as nat),
{
    let mut a: u128 = m;
    let mut b: u32 = s;
    while b > 0 && a % 10 == 0
        invariant
            normalize(a as nat, b as nat) == normalize(m as nat, s as nat),
        decreases b,
    {
        a = a / 10;
        b = b - 1;
    }
    (a, b)
}

/// Strips a leading sign.
pub open spec fn unsigned_part(s: Seq<char>) -> Seq<char> {
    if s.len() > 0 && (s[0] == '+' || s[0] == '-') {
        s.drop_first()
    } else {
        s
    }
}

/// The text starts with a minus sign.
pub open spec fn is_negative(s: Seq<char>) -> bool {
    s.len() > 0 && s[0] == '-'
}

/// The digits of `s` in order, without its decimal points.
pub open spec fn without_points(s: Seq<char>) -> Seq<char>
    decreases s.len(),
{
    if s.len() == 0 {
        s
    } else if s.last() == '.' {
        without_points(s.drop_last())
    } else {
        without_points(s.drop_last()).push(s.last())
    }
}

/// What a left-to-right reading of a number's text finds: the count of
/// decimal points, the count of digits, the count of digits after the first
/// point, and whether some other character was seen.
pub open spec fn scan(s: Seq<char>) -> (nat, nat, nat, bool)
    decreases s.len(),
{
    if s.len() == 0 {
        (0, 0, 0, false)
    } else {
        let (points, digits, frac, stray) = scan(s.drop_last());
        let c = s.last();
        if c == '.' {
            (points + 1, digits, frac, stray)
        } else if is_digit_char(c) {
            (points, digits + 1, if points > 0 {
                frac + 1
            } else {
                frac
            }, stray)
        } else {
            (points, digits, frac, true)
        }
    }
}

/// The text of a decimal number: an optional sign, then digits with at most
/// one decimal point among them, and at least one digit.
pub open spec fn is_decimal_text(s: Seq<char>) -> bool {
    let (points, digits, frac, stray) = scan(unsigned_part(s));
    !stray && points <= 1 && digits > 0
}

/// The positive amount that `s` writes, or why there is none. A number whose
/// digits, read without the point, exceed 64 bits is out of range.
pub open spec fn parse_amount_spec(s: Seq<char>) -> Result<(nat, nat), NumberIssue> {
    let b = unsigned_part(s);
    let frac = scan(b).2;
    let v = value_of(without_points(b));
    if !is_decimal_text(s) {
        Err(NumberIssue::NotANumber)
    } else if is_negative(s) || v == 0 || v > u64::MAX || frac >= u32::MAX {
        Err(NumberIssue::OutOfRange)
    } else {
        Ok(normalize(v, frac))
    }
}

proof fn lemma_scan_step(s: Seq<char>, i: int)
    requires
        0 <= i < s.len(),
    ensures
        s.subrange(0, i + 1).drop_last() == s.subrange(0, i),
        s.subrange(0, i + 1).last() == s[i],
{
    assert(s.subrange(0, i + 1).drop_last() =~= s.subrange(0, i));
}

/// Parses a positive decimal amount.
pub fn parse_amount(t: &str) -> (r: Result<Amount, NumberIssue>)
    ensures
        match r {
            Ok(a) => parse_amount_spec(t@) == Ok::<(nat, nat), NumberIssue>(a.parts()) && a.wf()
                && a.mantissa > 0,
            Err(e) => parse_amount_spec(t@) == Err::<(nat, nat), NumberIssue>(e),
        },
{
    let n = t.unicode_len();
    let mut start: usize = 0;
    let mut negative = false;
    if n > 0 {
        let c0 = t.get_char(0);
        if c0 == '+' || c0 == '-' {
            start = 1;
            negative = c0 == '-';
        }
    }
    let ghost b = unsigned_part(t@);
    assert(b =~= t@.subrange(start as int, n as int));
    let mut i: usize = start;
    let mut points: usize = 0;
    let mut digits: usize = 0;
    let mut frac: usize = 0;
    let mut stray = false;
    let mut v: u64 = 0;
    let mut big = false;
    while i < n
        invariant
            n == t@.len(),
            start <= i <= n,
            b == t@.subrange(start as int, n as int),
            scan(b.subrange(0, i - start)) == (points as nat, digits as nat, frac as nat, stray),
            points <= i - start,
            digits <= i - start,
            frac <= i - start,
            !stray && !big ==> v as nat == value_of(without_points(b.subrange(0, i - start))),
            !stray && big ==> value_of(without_points(b.subrange(0, i - start))) > u64::MAX,
        decreases n - i,
    {
        let c = t.get_char(i);
        let ghost k = i - start;
        proof {
            lemma_scan_step(b, k);
            assert(b[k] == c);
        }
        let ghost before = value_of(without_points(b.subrange(0, k)));
        if c == '.' {
            assert(without_points(b.subrange(0, k + 1)) == without_points(b.subrange(0, k)));
            points = points + 1;
        } else if '0' <= c && c <= '9' {
            if points > 0 {
                frac = frac + 1;
            }
            digits = digits + 1;
            let d = (c as u32 - '0' as u32) as u64;
            assert(d as nat == digit_value(c));
            let ghost w = without_points(b.subrange(0, k));
            assert(without_points(b.subrange(0, k + 1)) == w.push(c));
            assert(w.push(c).drop_last() =~= w);
            assert(value_of(without_points(b.subrange(0, k + 1))) == before * 10 + d);
            if !big {
                if v > (u64::MAX - d) / 10 {
                    assert(v * 10 + d > u64::MAX) by (nonlinear_arith)
                        requires
                            v > (u64::MAX - d) / 10,
                            d < 10,
                    ;
                    big = true;
                } else {
                    v = v * 10 + d;
                }
            }
        } else {
            stray = true;
        }
        i = i + 1;
    }
    assert(b.subrange(0, n - start) =~= b);
    if stray || points > 1 || digits == 0 {
        return Err(NumberIssue::NotANumber);
    }
    if negative || big || v == 0 || frac >= u32::MAX as usize {
        return Err(NumberIssue::OutOfRange);
    }
    let (m, s) = normalize_exec(v as u128, frac as u32);
    proof {
        lemma_normalize(v as nat, frac as nat);
    }
    Ok(Amount { mantissa: m as u64, scale: s })
}

/// How an amount is written: its digits with a decimal point placed
/// `scale` digits from the right, and a `0` before the point when no digit
/// stands there. A whole amount has no point.
pub open spec fn amount_text(m: nat, s: nat) -> Seq<char> {
    let d = digits_of(m);
    if s == 0 {
        d
    } else if d.len() > s {
        d.subrange(0, d.len() - s) + seq!['.'] + d.subrange(d.len() - s, d.len() as int)
    } else {
        seq!['0', '.'] + zeros((s - d.len()) as nat) + d
    }
}

impl Amount {
    /// The amount written out, as in `2.5` or `36`.
    pub fn text(&self) -> (r: String)
        ensures
            r@ == amount_text(self.mantissa as nat, self.scale as nat),
    {
        proof {
            reveal_strlit(".");
            reveal_strlit("0");
            reveal_strlit("0.");
        }
        let digits = number_text(self.mantissa);
        let d = digits.as_str();
        let l = d.unicode_len();
        let s = self.scale as usize;
        if s == 0 {
            return digits;
        }
        if l > s {
            let mut r = String::from_str(d.substring_char(0, l - s));
            r.append(".");
            r.append(d.substring_char(l - s, l));
            assert(r@ =~= amount_text(self.mantissa as nat, self.scale as nat));
            r
        } else {
            let mut r = String::from_str("0.");
            let mut k: usize = 0;
            while k < s - l
                invariant
                    k <= s - l,
                    r@ == seq!['0', '.'] + zeros(k as nat),
                decreases s - l - k,
            {
                proof {
                    reveal_strlit("0");
                }
                r.append("0");
                k = k + 1;
                assert(r@ =~= seq!['0', '.'] + zeros(k as nat));
            }
            r.append(d);
            assert(r@ =~= amount_text(self.mantissa as nat, self.scale as nat));
            r
        }
    }
}

proof fn lemma_scan_digits(p: Seq<char>, d: Seq<char>)
    requires
        all_digits(d),
    ensures
        scan(p + d) == (scan(p).0, scan(p).1 + d.len(), scan(p).2 + (if scan(p).0 > 0 {
            d.len()
        } else {
            0
        }), scan(p).3),
        without_points(p + d) == without_points(p) + d,
    decreases d.len(),
{
    if d.len() == 0 {
        assert(p + d =~= p);
        assert(without_points(p) + d =~= without_points(p));
    } else {
        let e = d.drop_last();
        assert(all_digits(e)) by {
            assert forall|i: int| 0 <= i < e.len() implies is_digit_char(#[trigger] e[i]) by {
                assert(e[i] == d[i]);
            }
        }
        lemma_scan_digits(p, e);
        assert((p + d).drop_last() =~= p + e);
        assert((p + d).last() == d.last());
        assert(is_digit_char(d[d.len() - 1]));
        assert(without_points(p) + d =~= (without_points(p) + e).push(d.last()));
    }
}

/// Reading back the text of an amount gives the same amount.
pub proof fn lemma_amount_text_round_trip(m: nat, s: nat)
    requires
        is_normal(m, s),
        0 < m <= u64::MAX,
        s < u32::MAX,
    ensures
        parse_amount_spec(amount_text(m, s)) == Ok::<(nat, nat), NumberIssue>((m, s)),
{
    lemma_digits_of(m);
    let d = digits_of(m);
    let t = amount_text(m, s);
    let e = Seq::<char>::empty();
    if s == 0 {
        lemma_scan_digits(e, d);
        assert(e + d =~= d);
        assert(is_digit_char(d[0]));
        assert(unsigned_part(t) == t);
    } else if d.len() > s {
        let k = d.len() - s;
        let d1 = d.subrange(0, k);
        let d2 = d.subrange(k, d.len() as int);
        assert(all_digits(d1)) by {
            assert forall|i: int| 0 <= i < d1.len() implies is_digit_char(#[trigger] d1[i]) by {
                assert(d1[i] == d[i]);
            }
        }
        assert(all_digits(d2)) by {
            assert forall|i: int| 0 <= i < d2.len() implies is_digit_char(#[trigger] d2[i]) by {
                assert(d2[i] == d[i + k]);
            }
        }
        lemma_scan_digits(e, d1);
        assert(e + d1 =~= d1);
        let p = d1.push('.');
        assert(p.drop_last() == d1);
        lemma_scan_digits(p, d2);
        assert(t =~= p + d2);
        assert(d1 + d2 =~= d);
        assert(t[0] == d[0]);
        assert(is_digit_char(d[0]));
        assert(unsigned_part(t) == t);
    } else {
        let p = seq!['0', '.'];
        let z = zeros((s - d.len()) as nat);
        let q = z + d;
        assert(all_digits(q)) by {
            assert forall|i: int| 0 <= i < q.len() implies is_digit_char(#[trigger] q[i]) by {
                if i >= z.len() {
                    assert(q[i] == d[i - z.len()]);
                }
            }
        }
        assert(p.drop_last() =~= seq!['0']);
        assert(seq!['0'].drop_last() =~= e);
        assert(scan(e) == (0nat, 0nat, 0nat, false));
        assert(seq!['0'].last() == '0');
        assert(is_digit_char('0'));
        assert(scan(seq!['0']) == (0nat, 1nat, 0nat, false));
        assert(without_points(seq!['0']) =~= seq!['0']) by {
            assert(without_points(e) == e);
            assert(e.push('0') =~= seq!['0']);
        }
        lemma_scan_digits(p, q);
        assert(t =~= p + q);
        assert(seq!['0'] + q =~= zeros((s - d.len() + 1) as nat) + d);
        lemma_leading_zeros((s - d.len() + 1) as nat, d);
        assert(unsigned_part(t) == t);
    }
    lemma_normalize_normal(m, s);
}

} // verus!
