use std::cmp::Ordering;
use vstd::arithmetic::div_mod::lemma_fundamental_div_mod_converse;
use crate::text::{
    chars_of, i64_value, int_text, parse_i64, push_int, split, split_chars, string_from,
    trim_white, trim_white_chars, views, ParseError,
};
use vstd::prelude::*;

verus! {

/// The magnitude of an integer.
pub open spec fn abs(x: int) -> nat {
    if x < 0 {
        (-x) as nat
    } else {
        x as nat
    }
}

/// Greatest common divisor by Euclid's recurrence.
pub open spec fn spec_gcd(a: nat, b: nat) -> nat
    decreases b,
{
    if b == 0 {
        a
    } else {
        spec_gcd(b, a % b)
    }
}

/// The canonical form of the ratio `n / d`: both parts divided by their gcd, the
/// sign carried by the numerator.
pub open spec fn canon(n: int, d: int) -> (int, int) {
    let g = spec_gcd(abs(n), abs(d));
    let m = (abs(n) / g) as int;
    (if (n < 0) == (d < 0) { m } else { -m }, (abs(d) / g) as int)
}

/// A ratio in lowest terms with a positive denominator.
pub open spec fn is_canonical(q: (int, int)) -> bool {
    q.1 > 0 && spec_gcd(abs(q.0), q.1 as nat) == 1
}

/// A ratio whose parts can be stored in a `Fraction`.
pub open spec fn in_range(q: (int, int)) -> bool {
    i64::MIN < q.0 <= i64::MAX && 0 < q.1 <= i64::MAX
}

/// A ratio that a `Fraction` holds: canonical and within range.
pub open spec fn valid(q: (int, int)) -> bool {
    is_canonical(q) && in_range(q)
}

/// `a < b` as rationals, for positive denominators.
pub open spec fn less(a: (int, int), b: (int, int)) -> bool {
    a.0 * b.1 < b.0 * a.1
}

pub open spec fn sum(a: (int, int), b: (int, int)) -> (int, int) {
    canon(a.0 * b.1 + b.0 * a.1, a.1 * b.1)
}

pub open spec fn difference(a: (int, int), b: (int, int)) -> (int, int) {
    canon(a.0 * b.1 - b.0 * a.1, a.1 * b.1)
}

pub open spec fn product(a: (int, int), b: (int, int)) -> (int, int) {
    canon(a.0 * b.0, a.1 * b.1)
}

pub open spec fn quotient(a: (int, int), b: (int, int)) -> (int, int) {
    canon(a.0 * b.1, a.1 * b.0)
}

/// How `a` orders against `b` as rationals.
pub open spec fn order(a: (int, int), b: (int, int)) -> Ordering {
    if less(a, b) {
        Ordering::Less
    } else if less(b, a) {
        Ordering::Greater
    } else {
        Ordering::Equal
    }
}

/// The text form: `0`, the integer when the denominator is 1, else `n/d`.
pub open spec fn fraction_text(q: (int, int)) -> Seq<char> {
    if q.0 == 0 {
        seq!['0']
    } else if q.1 == 1 {
        int_text(q.0)
    } else {
        int_text(q.0) + seq!['/'] + int_text(q.1)
    }
}

/// The integers that the first `k` tokens spell, white space around each ignored;
/// `None` when one of them spells none.
pub open spec fn token_values(toks: Seq<Seq<char>>, k: int) -> Option<Seq<int>>
    decreases k,
{
    if k <= 0 {
        Some(Seq::empty())
    } else {
        match (token_values(toks, k - 1), i64_value(trim_white(toks[k - 1]))) {
            (Some(vs), Some(v)) => Some(vs.push(v)),
            _ => None,
        }
    }
}

/// `acc` divided by each of `vs` from index `k` on, left to right.
pub open spec fn divide_from(acc: (int, int), vs: Seq<int>, k: int) -> Result<(int, int), ParseError>
    decreases vs.len() - k,
{
    if k < 0 || k >= vs.len() {
        Ok(acc)
    } else if vs[k] == 0 {
        Err(ParseError::DivisionByZero)
    } else if !in_range(quotient(acc, (vs[k], 1))) {
        Err(ParseError::OutOfRange)
    } else {
        divide_from(quotient(acc, (vs[k], 1)), vs, k + 1)
    }
}

/// What the text `s` reads as: blank is zero; else integers separated by `/`, the
/// first divided by each of the others in turn.
pub open spec fn fraction_value(s: Seq<char>) -> Result<(int, int), ParseError> {
    let t = trim_white(s);
    if t.len() == 0 {
        Ok((0, 1))
    } else {
        let toks = split(t, seq!['/']);
        match token_values(toks, toks.len() as int) {
            None => Err(ParseError::MalformedInteger),
            Some(vs) => if !in_range((vs[0], 1)) {
                Err(ParseError::OutOfRange)
            } else {
                divide_from((vs[0], 1), vs, 1)
            },
        }
    }
}

proof fn lemma_token_values_none(toks: Seq<Seq<char>>, k: int, m: int)
    requires
        0 <= k <= m,
        token_values(toks, k) is None,
    ensures
        token_values(toks, m) is None,
    decreases m - k,
{
    if k < m {
        lemma_token_values_none(toks, k, m - 1);
    }
}

proof fn lemma_mod_of_multiple(q: int, g: int)
    requires
        g > 0,
    ensures
        (q * g) % g == 0,
        (q * g) / g == q,
{
    lemma_fundamental_div_mod_converse(q * g, g, q, 0);
}

/// The gcd of two numbers, not both zero, is positive and divides both.
proof fn lemma_gcd_divides(a: nat, b: nat)
    requires
        a > 0 || b > 0,
    ensures
        spec_gcd(a, b) > 0,
        a % spec_gcd(a, b) == 0,
        b % spec_gcd(a, b) == 0,
    decreases b,
{
    if b > 0 {
        let r = a % b;
        lemma_gcd_divides(b, r);
        let g = spec_gcd(b, r) as int;
        let qb = b as int / g;
        let qr = r as int / g;
        assert(b as int == qb * g) by {
            vstd::arithmetic::div_mod::lemma_fundamental_div_mod(b as int, g);
        }
        assert(r as int == qr * g) by {
            vstd::arithmetic::div_mod::lemma_fundamental_div_mod(r as int, g);
        }
        assert(a as int == (a as int / b as int) * b as int + r) by {
            vstd::arithmetic::div_mod::lemma_fundamental_div_mod(a as int, b as int);
        }
        let k = (a as int / b as int) * qb + qr;
        assert(a as int == k * g) by (nonlinear_arith)
            requires
                a as int == (a as int / b as int) * b as int + r,
                b as int == qb * g,
                r as int == qr * g,
                k == (a as int / b as int) * qb + qr,
        ;
        lemma_mod_of_multiple(k, g);
    }
}

/// Scaling both arguments scales the gcd.
proof fn lemma_gcd_scale(k: nat, a: nat, b: nat)
    ensures
        spec_gcd(k * a, k * b) == k * spec_gcd(a, b),
    decreases b,
{
    if b == 0 {
        assert(k * b == 0);
    } else if k == 0 {
        assert(k * a == 0 && k * b == 0);
        assert(spec_gcd(0, 0) == 0);
        assert(k * spec_gcd(a, b) == 0);
    } else {
        let q = a as int / b as int;
        let r = a as int % b as int;
        vstd::arithmetic::div_mod::lemma_fundamental_div_mod(a as int, b as int);
        assert(k * a == q * (k * b) + k * r) by (nonlinear_arith)
            requires
                a as int == b as int * q + r,
        ;
        assert(0 <= k * r < k * b) by (nonlinear_arith)
            requires
                0 <= r < b,
                k > 0,
        ;
        lemma_fundamental_div_mod_converse((k * a) as int, (k * b) as int, q, k * r);
        assert(k * b > 0) by (nonlinear_arith)
            requires
                k > 0,
                b > 0,
        ;
        assert((k * a) as nat % (k * b) as nat == k * (a % b));
        lemma_gcd_scale(k, b, a % b);
    }
}

proof fn lemma_gcd_one(a: nat)
    ensures
        spec_gcd(a, 1) == 1,
{
    assert(a % 1 == 0);
    assert(spec_gcd(1, 0) == 1);
}

/// The canonical form of `n / d` is in lowest terms, has the same value and is no
/// larger than the input.
pub proof fn lemma_canon(n: int, d: int)
    requires
        d != 0,
    ensures
        is_canonical(canon(n, d)),
        canon(n, d).0 * d == n * canon(n, d).1,
        abs(canon(n, d).0) <= abs(n),
        canon(n, d).1 <= abs(d),
{
    let an = abs(n);
    let ad = abs(d);
    let g = spec_gcd(an, ad);
    lemma_gcd_divides(an, ad);
    let p = an / g;
    let q = ad / g;
    vstd::arithmetic::div_mod::lemma_fundamental_div_mod(an as int, g as int);
    vstd::arithmetic::div_mod::lemma_fundamental_div_mod(ad as int, g as int);
    assert(an == g * p);
    assert(ad == g * q);
    lemma_gcd_scale(g, p, q);
    assert(g * spec_gcd(p, q) == g * 1);
    assert(spec_gcd(p, q) == 1) by (nonlinear_arith)
        requires
            g * spec_gcd(p, q) == g * 1,
            g > 0,
    ;
    assert(q > 0) by (nonlinear_arith)
        requires
            ad == g * q,
            ad > 0,
            g > 0,
    ;
    assert(p <= an && q <= ad) by (nonlinear_arith)
        requires
            an == g * p,
            ad == g * q,
            g > 0,
    ;
    let c = canon(n, d);
    assert(abs(c.0) == p);
    assert(c.1 == q);
    assert(p * ad == an * q) by (nonlinear_arith)
        requires
            an == g * p,
            ad == g * q,
    ;
    if n < 0 {
        if d < 0 {
            assert(c.0 * d == n * c.1) by (nonlinear_arith)
                requires
                    c.0 == p,
                    c.1 == q,
                    d == -ad,
                    n == -an,
                    p * ad == an * q,
            ;
        } else {
            assert(c.0 * d == n * c.1) by (nonlinear_arith)
                requires
                    c.0 == -p,
                    c.1 == q,
                    d == ad,
                    n == -an,
                    p * ad == an * q,
            ;
        }
    } else {
        if d < 0 {
            assert(c.0 * d == n * c.1) by (nonlinear_arith)
                requires
                    c.0 == -p,
                    c.1 == q,
                    d == -ad,
                    n == an,
                    p * ad == an * q,
            ;
        } else {
            assert(c.0 * d == n * c.1) by (nonlinear_arith)
                requires
                    c.0 == p,
                    c.1 == q,
                    d == ad,
                    n == an,
                    p * ad == an * q,
            ;
        }
    }
}

/// Two ratios in lowest terms with the same value are the same pair.
pub proof fn lemma_canonical_unique(a: (int, int), b: (int, int))
    requires
        is_canonical(a),
        is_canonical(b),
        a.0 * b.1 == b.0 * a.1,
    ensures
        a == b,
{
    let x = abs(a.0);
    let y = abs(b.0);
    let ad = a.1 as nat;
    let bd = b.1 as nat;
    assert(x * bd == y * ad) by (nonlinear_arith)
        requires
            a.0 * b.1 == b.0 * a.1,
            x == abs(a.0),
            y == abs(b.0),
            ad == a.1,
            bd == b.1,
            ad > 0,
            bd > 0,
    ;
    lemma_gcd_scale(bd, x, ad);
    lemma_gcd_scale(ad, y, bd);
    assert(bd * x == ad * y) by (nonlinear_arith)
        requires
            x * bd == y * ad,
    ;
    assert(bd * ad == ad * bd) by (nonlinear_arith);
    assert(bd * 1 == ad * 1);
    assert(a.0 * b.1 == b.0 * b.1);
    assert(a.0 == b.0) by (nonlinear_arith)
        requires
            a.0 * b.1 == b.0 * b.1,
            b.1 > 0,
    ;
}

/// A ratio in lowest terms is its own canonical form.
pub proof fn lemma_canon_of_canonical(q: (int, int))
    requires
        is_canonical(q),
    ensures
        canon(q.0, q.1) == q,
{
    lemma_canon(q.0, q.1);
    lemma_canonical_unique(canon(q.0, q.1), q);
}

/// Ratios with equal value have equal canonical forms.
pub proof fn lemma_canon_eq(n1: int, d1: int, n2: int, d2: int)
    requires
        d1 != 0,
        d2 != 0,
        n1 * d2 == n2 * d1,
    ensures
        canon(n1, d1) == canon(n2, d2),
{
    let c1 = canon(n1, d1);
    let c2 = canon(n2, d2);
    lemma_canon(n1, d1);
    lemma_canon(n2, d2);
    assert(c1.0 * c2.1 == c2.0 * c1.1) by (nonlinear_arith)
        requires
            c1.0 * d1 == n1 * c1.1,
            c2.0 * d2 == n2 * c2.1,
            n1 * d2 == n2 * d1,
            d1 != 0,
            d2 != 0,
    ;
    lemma_canonical_unique(c1, c2);
}

/// Adding a valid ratio to zero gives it back.
pub proof fn lemma_zero_sum(q: (int, int))
    requires
        valid(q),
    ensures
        sum((0, 1), q) == q,
{
    assert(0 * q.1 + q.0 * 1 == q.0);
    assert(1 * q.1 == q.1);
    lemma_canon_of_canonical(q);
}

/// Two valid ratios are equal or one is less than the other, never both ways.
pub proof fn lemma_less_trichotomy(a: (int, int), b: (int, int))
    requires
        valid(a),
        valid(b),
    ensures
        less(a, b) || a == b || less(b, a),
        !(less(a, b) && less(b, a)),
        less(a, b) ==> a != b,
{
    if a.0 * b.1 == b.0 * a.1 {
        lemma_canonical_unique(a, b);
    }
}

/// `less` is transitive on ratios with positive denominators.
pub proof fn lemma_less_transitive(a: (int, int), b: (int, int), c: (int, int))
    requires
        a.1 > 0,
        b.1 > 0,
        c.1 > 0,
        less(a, b),
        less(b, c),
    ensures
        less(a, c),
{
    assert(a.0 * c.1 < c.0 * a.1) by (nonlinear_arith)
        requires
            a.0 * b.1 < b.0 * a.1,
            b.0 * c.1 < c.0 * b.1,
            a.1 > 0,
            b.1 > 0,
            c.1 > 0,
    ;
}

/// An exact rational number, kept in lowest terms with a positive denominator.
#[derive(Clone, Copy, Debug, PartialEq, Eq, Structural)]
pub struct Fraction {
    pub(crate) numerator: i64,
    pub(crate) denominator: i64,
}

impl View for Fraction {
    type V = (int, int);

    open(crate) spec fn view(&self) -> (int, int) {
        (self.numerator as int, self.denominator as int)
    }
}

/// Greatest common divisor.
fn gcd(a: u128, b: u128) -> (r: u128)
    ensures
        r == spec_gcd(a as nat, b as nat),
{
    let mut x = a;
    let mut y = b;
    while y != 0
        invariant
            spec_gcd(x as nat, y as nat) == spec_gcd(a as nat, b as nat),
        decreases y,
    {
        let r = x % y;
        x = y;
        y = r;
    }
    x
}

fn magnitude(v: i128) -> (r: u128)
    requires
        v > i128::MIN,
    ensures
        r == abs(v as int),
{
    if v < 0 {
        (-v) as u128
    } else {
        v as u128
    }
}

proof fn lemma_wide_product(x: int, y: int)
    requires
        i64::MIN < x <= i64::MAX,
        i64::MIN < y <= i64::MAX,
    ensures
        -0x4000_0000_0000_0000_0000_0000_0000_0000 < x * y < 0x4000_0000_0000_0000_0000_0000_0000_0000,
{
    assert(-0x4000_0000_0000_0000_0000_0000_0000_0000 < x * y < 0x4000_0000_0000_0000_0000_0000_0000_0000)
        by (nonlinear_arith)
        requires
            -0x7fff_ffff_ffff_ffff <= x <= 0x7fff_ffff_ffff_ffff,
            -0x7fff_ffff_ffff_ffff <= y <= 0x7fff_ffff_ffff_ffff,
    ;
}

impl From<i64> for Fraction {
    /// The integer `v` as a fraction.
    fn from(v: i64) -> (r: Fraction)
        ensures
            r@ == (v as int, 1int),
            v != i64::MIN ==> r.wf(),
    {
        proof {
            lemma_gcd_one(abs(v as int));
        }
        Fraction { numerator: v, denominator: 1 }
    }
}

impl vstd::std_specs::convert::FromSpecImpl<i64> for Fraction {
    open spec fn obeys_from_spec() -> bool {
        true
    }

    open(crate) spec fn from_spec(v: i64) -> Fraction {
        Fraction { numerator: v, denominator: 1 }
    }
}

impl Default for Fraction {
    /// Zero.
    fn default() -> (r: Fraction)
        ensures
            r.wf(),
            r@ == (0int, 1int),
    {
        Fraction::zero()
    }
}

impl Fraction {
    /// The stored parts are in lowest terms and fit the range.
    pub open spec fn wf(self) -> bool {
        valid(self@)
    }

    /// Two fractions are equal exactly when their parts are.
    pub proof fn lemma_view_eq(a: Fraction, b: Fraction)
        ensures
            (a == b) == (a@ == b@),
    {
    }

    /// The fraction 0.
    pub fn zero() -> (r: Fraction)
        ensures
            r.wf(),
            r@ == (0int, 1int),
    {
        proof {
            lemma_gcd_one(0);
        }
        Fraction { numerator: 0, denominator: 1 }
    }

    /// The fraction 1.
    pub fn one() -> (r: Fraction)
        ensures
            r.wf(),
            r@ == (1int, 1int),
    {
        proof {
            lemma_gcd_one(1);
        }
        Fraction { numerator: 1, denominator: 1 }
    }

    /// Brings `n / d` into canonical form, when that fits.
    fn fix_checked(n: i128, d: i128) -> (r: Option<Fraction>)
        requires
            d != 0,
            -0x4000_0000_0000_0000_0000_0000_0000_0000 < n < 0x4000_0000_0000_0000_0000_0000_0000_0000,
            -0x4000_0000_0000_0000_0000_0000_0000_0000 < d < 0x4000_0000_0000_0000_0000_0000_0000_0000,
        ensures
            r is Some == in_range(canon(n as int, d as int)),
            r is Some ==> r->0.wf() && r->0@ == canon(n as int, d as int),
    {
        proof {
            lemma_canon(n as int, d as int);
            lemma_gcd_divides(abs(n as int), abs(d as int));
        }
        let an = magnitude(n);
        let ad = magnitude(d);
        let g = gcd(an, ad);
        let m = an / g;
        let den = ad / g;
        if m > 0x7fff_ffff_ffff_ffff || den > 0x7fff_ffff_ffff_ffff {
            return None;
        }
        let num = if (n < 0) == (d < 0) {
            m as i64
        } else {
            -(m as i64)
        };
        Some(Fraction { numerator: num, denominator: den as i64 })
    }

    /// Brings `n / d` into canonical form.
    fn fix(n: i128, d: i128) -> (r: Fraction)
        requires
            d != 0,
            n > i128::MIN,
            d > i128::MIN,
            in_range(canon(n as int, d as int)),
        ensures
            r.wf(),
            r@ == canon(n as int, d as int),
    {
        proof {
            lemma_canon(n as int, d as int);
            lemma_gcd_divides(abs(n as int), abs(d as int));
        }
        let an = magnitude(n);
        let ad = magnitude(d);
        let g = gcd(an, ad);
        let m = (an / g) as i64;
        let den = (ad / g) as i64;
        let num = if (n < 0) == (d < 0) {
            m
        } else {
            -m
        };
        Fraction { numerator: num, denominator: den }
    }

    /// The fraction `numerator / denominator` in canonical form.
    pub fn new(numerator: i64, denominator: i64) -> (r: Fraction)
        requires
            denominator != 0,
            numerator != i64::MIN,
            denominator != i64::MIN,
        ensures
            r.wf(),
            r@ == canon(numerator as int, denominator as int),
    {
        proof {
            lemma_canon(numerator as int, denominator as int);
        }
        Self::fix(numerator as i128, denominator as i128)
    }

    pub fn is_zero(&self) -> (r: bool)
        ensures
            r == (self@.0 == 0),
    {
        self.numerator == 0
    }

    pub fn is_int(&self) -> (r: bool)
        ensures
            r == (self@.1 == 1),
    {
        self.denominator == 1
    }

    pub fn is_positive(&self) -> (r: bool)
        ensures
            r == (self@.0 > 0),
    {
        self.numerator > 0
    }

    pub fn is_negative(&self) -> (r: bool)
        ensures
            r == (self@.0 < 0),
    {
        self.numerator < 0
    }

    /// The negated fraction.
    pub fn opposite(&self) -> (r: Fraction)
        requires
            self.wf(),
        ensures
            r.wf(),
            r@ == (-self@.0, self@.1),
    {
        proof {
            assert(abs(-self@.0) == abs(self@.0));
            lemma_canon_of_canonical((-self@.0, self@.1));
        }
        Self::new(-self.numerator, self.denominator)
    }

    /// The reciprocal; the zero fraction has none.
    pub fn reverse(&self) -> (r: Fraction)
        requires
            self.wf(),
            self@.0 != 0,
        ensures
            r.wf(),
            r@ == canon(self@.1, self@.0),
    {
        Self::new(self.denominator, self.numerator)
    }
    /// The quotient by an integer, when it fits.
    fn divide_int(&self, v: i64) -> (r: Option<Fraction>)
        requires
            self.wf(),
            v != 0,
        ensures
            r is Some == in_range(quotient(self@, (v as int, 1int))),
            r is Some ==> r->0.wf() && r->0@ == quotient(self@, (v as int, 1int)),
    {
        let a = self.numerator as i128;
        let b = self.denominator as i128;
        proof {
            assert(b * v != 0) by (nonlinear_arith)
                requires
                    b > 0,
                    v != 0,
            ;
            assert(-0x4000_0000_0000_0000_0000_0000_0000_0000 < b * v < 0x4000_0000_0000_0000_0000_0000_0000_0000)
                by (nonlinear_arith)
                requires
                    0 < b <= 0x7fff_ffff_ffff_ffff,
                    -0x8000_0000_0000_0000 <= v <= 0x7fff_ffff_ffff_ffff,
            ;
            assert(a * 1 == a);
        }
        Self::fix_checked(a, b * v as i128)
    }

    /// Reads the text form: surrounding white space is ignored, blank text is zero,
    /// and `a/b/c` is `a` divided by `b`, then by `c`.
    pub fn from_str(s: &str) -> (r: Result<Fraction, ParseError>)
        ensures
            match r {
                Ok(f) => f.wf() && fraction_value(s@) == Ok::<(int, int), ParseError>(f@),
                Err(e) => fraction_value(s@) == Err::<(int, int), ParseError>(e),
            },
    {
        let chars = chars_of(s);
        Self::parse_chars(&chars)
    }

    pub(crate) fn parse_chars(s: &Vec<char>) -> (r: Result<Fraction, ParseError>)
        ensures
            match r {
                Ok(f) => f.wf() && fraction_value(s@) == Ok::<(int, int), ParseError>(f@),
                Err(e) => fraction_value(s@) == Err::<(int, int), ParseError>(e),
            },
    {
        let t = trim_white_chars(s);
        if t.len() == 0 {
            return Ok(Fraction::zero());
        }
        let slash: Vec<char> = vec!['/'];
        proof {
            assert(slash@ =~= seq!['/']);
        }
        let toks = split_chars(&t, &slash);
        let ghost tv = views(toks@);
        let mut values: Vec<i64> = Vec::new();
        let mut k: usize = 0;
        while k < toks.len()
            invariant
                k <= toks@.len(),
                tv == views(toks@),
                tv == split(t@, seq!['/']),
                t@ == trim_white(s@),
                t@.len() > 0,
                tv.len() == toks@.len(),
                token_values(tv, k as int) == Some(values@.map_values(|x: i64| x as int)),
            decreases toks.len() - k,
        {
            let w = trim_white_chars(&toks[k]);
            proof {
                assert(tv[k as int] == toks@[k as int]@);
            }
            match parse_i64(&w) {
                None => {
                    proof {
                        lemma_token_values_none(tv, k + 1, tv.len() as int);
                    }
                    return Err(ParseError::MalformedInteger);
                },
                Some(v) => {
                    proof {
                        assert(values@.push(v).map_values(|x: i64| x as int) =~= values@.map_values(
                            |x: i64| x as int,
                        ).push(v as int));
                    }
                    values.push(v);
                },
            }
            k += 1;
        }
        let ghost vs = values@.map_values(|x: i64| x as int);
        let first = values[0];
        if first == i64::MIN {
            return Err(ParseError::OutOfRange);
        }
        let mut acc = Fraction::new(first, 1);
        proof {
            lemma_gcd_one(abs(first as int));
            lemma_canon_of_canonical((first as int, 1));
        }
        let mut k: usize = 1;
        while k < values.len()
            invariant
                1 <= k <= values@.len(),
                vs == values@.map_values(|x: i64| x as int),
                acc.wf(),
                fraction_value(s@) == divide_from(acc@, vs, k as int),
            decreases values.len() - k,
        {
            let v = values[k];
            if v == 0 {
                return Err(ParseError::DivisionByZero);
            }
            match acc.divide_int(v) {
                None => {
                    return Err(ParseError::OutOfRange);
                },
                Some(q) => {
                    acc = q;
                },
            }
            k += 1;
        }
        Ok(acc)
    }

    /// Appends the text form.
    pub(crate) fn push_text(&self, out: &mut Vec<char>)
        requires
            self.wf(),
        ensures
            final(out)@ == old(out)@ + fraction_text(self@),
    {
        if self.is_zero() {
            out.push('0');
        } else if self.is_int() {
            push_int(out, self.numerator);
        } else {
            push_int(out, self.numerator);
            out.push('/');
            push_int(out, self.denominator);
            proof {
                assert(final(out)@ =~= old(out)@ + fraction_text(self@));
            }
        }
    }

    /// The text form: `0`, the integer when the denominator is 1, else `n/d`.
    pub fn to_string(&self) -> (r: String)
        requires
            self.wf(),
        ensures
            r@ == fraction_text(self@),
    {
        let mut out: Vec<char> = Vec::new();
        self.push_text(&mut out);
        proof {
            assert(out@ =~= fraction_text(self@));
        }
        string_from(&out)
    }

    /// The sum, in canonical form.
    pub fn add(&self, rhs: &Fraction) -> (r: Fraction)
        requires
            self.wf(),
            rhs.wf(),
            in_range(sum(self@, rhs@)),
        ensures
            r.wf(),
            r@ == sum(self@, rhs@),
    {
        let a = self.numerator as i128;
        let b = self.denominator as i128;
        let c = rhs.numerator as i128;
        let d = rhs.denominator as i128;
        proof {
            lemma_wide_product(a as int, d as int);
            lemma_wide_product(c as int, b as int);
            lemma_wide_product(b as int, d as int);
            assert(b * d > 0) by (nonlinear_arith)
                requires
                    b > 0,
                    d > 0,
            ;
        }
        Self::fix(a * d + c * b, b * d)
    }

    /// The difference, in canonical form.
    pub fn subtract(&self, rhs: &Fraction) -> (r: Fraction)
        requires
            self.wf(),
            rhs.wf(),
            in_range(difference(self@, rhs@)),
        ensures
            r.wf(),
            r@ == difference(self@, rhs@),
    {
        let o = rhs.opposite();
        assert(self@.0 * rhs@.1 + (-rhs@.0) * self@.1 == self@.0 * rhs@.1 - rhs@.0 * self@.1)
            by (nonlinear_arith);
        self.add(&o)
    }

    /// The product, in canonical form.
    pub fn multiply(&self, rhs: &Fraction) -> (r: Fraction)
        requires
            self.wf(),
            rhs.wf(),
            in_range(product(self@, rhs@)),
        ensures
            r.wf(),
            r@ == product(self@, rhs@),
    {
        let a = self.numerator as i128;
        let b = self.denominator as i128;
        let c = rhs.numerator as i128;
        let d = rhs.denominator as i128;
        proof {
            lemma_wide_product(a as int, c as int);
            lemma_wide_product(b as int, d as int);
            assert(b * d > 0) by (nonlinear_arith)
                requires
                    b > 0,
                    d > 0,
            ;
        }
        Self::fix(a * c, b * d)
    }

    /// The quotient, in canonical form; dividing by zero is not defined.
    pub fn divide(&self, rhs: &Fraction) -> (r: Fraction)
        requires
            self.wf(),
            rhs.wf(),
            rhs@.0 != 0,
            in_range(quotient(self@, rhs@)),
        ensures
            r.wf(),
            r@ == quotient(self@, rhs@),
    {
        let v = rhs.reverse();
        proof {
            let a = self@;
            let b = rhs@;
            let w = v@;
            lemma_canon(b.1, b.0);
            assert((a.0 * w.0) * (a.1 * b.0) == (a.0 * b.1) * (a.1 * w.1)) by (nonlinear_arith)
                requires
                    w.0 * b.0 == b.1 * w.1,
            ;
            assert(a.1 * w.1 != 0 && a.1 * b.0 != 0) by (nonlinear_arith)
                requires
                    a.1 > 0,
                    w.1 > 0,
                    b.0 != 0,
            ;
            lemma_canon_eq(a.0 * w.0, a.1 * w.1, a.0 * b.1, a.1 * b.0);
        }
        self.multiply(&v)
    }

    /// Orders two fractions by value.
    pub fn compare(&self, other: &Fraction) -> (r: Ordering)
        requires
            self.wf(),
            other.wf(),
        ensures
            r == order(self@, other@),
            (r == Ordering::Equal) == (*self == *other),
    {
        let a = self.numerator as i128;
        let b = self.denominator as i128;
        let c = other.numerator as i128;
        let d = other.denominator as i128;
        proof {
            lemma_wide_product(a as int, d as int);
            lemma_wide_product(c as int, b as int);
            Self::lemma_order_trichotomy(*self, *other);
        }
        let l = a * d;
        let g = c * b;
        if l < g {
            Ordering::Less
        } else if g < l {
            Ordering::Greater
        } else {
            Ordering::Equal
        }
    }

    /// `self < other` by value.
    pub fn lt(&self, other: &Fraction) -> (r: bool)
        requires
            self.wf(),
            other.wf(),
        ensures
            r == less(self@, other@),
    {
        match self.compare(other) {
            Ordering::Less => true,
            _ => false,
        }
    }

    /// The smaller of two fractions.
    pub fn min(&self, other: &Fraction) -> (r: Fraction)
        requires
            self.wf(),
            other.wf(),
        ensures
            r == (if less(other@, self@) { *other } else { *self }),
    {
        if other.lt(self) {
            *other
        } else {
            *self
        }
    }

    /// The larger of two fractions.
    pub fn max(&self, other: &Fraction) -> (r: Fraction)
        requires
            self.wf(),
            other.wf(),
        ensures
            r == (if less(self@, other@) { *other } else { *self }),
    {
        if self.lt(other) {
            *other
        } else {
            *self
        }
    }

    /// Any two fractions are ordered in exactly one way.
    pub proof fn lemma_order_trichotomy(a: Fraction, b: Fraction)
        requires
            a.wf(),
            b.wf(),
        ensures
            less(a@, b@) || a == b || less(b@, a@),
            !(less(a@, b@) && less(b@, a@)),
            less(a@, b@) ==> a != b,
    {
        lemma_less_trichotomy(a@, b@);
    }

    /// The order of fractions is transitive.
    pub proof fn lemma_order_transitive(a: Fraction, b: Fraction, c: Fraction)
        requires
            a.wf(),
            b.wf(),
            c.wf(),
            less(a@, b@),
            less(b@, c@),
        ensures
            less(a@, c@),
    {
        lemma_less_transitive(a@, b@, c@);
    }

    /// A fraction plus its opposite is zero.
    pub proof fn lemma_add_opposite(a: Fraction)
        requires
            a.wf(),
        ensures
            in_range(sum(a@, (-a@.0, a@.1))),
            sum(a@, (-a@.0, a@.1)) == (0int, 1int),
    {
        let x = a@;
        assert(x.0 * x.1 + (-x.0) * x.1 == 0) by (nonlinear_arith);
        assert(x.1 * x.1 > 0) by (nonlinear_arith)
            requires
                x.1 > 0,
        ;
        lemma_gcd_one(0);
        lemma_canon_eq(0, x.1 * x.1, 0, 1);
        lemma_canon_of_canonical((0, 1));
    }

    /// A nonzero fraction times its reciprocal is one.
    pub proof fn lemma_multiply_reverse(a: Fraction)
        requires
            a.wf(),
            a@.0 != 0,
        ensures
            in_range(product(a@, canon(a@.1, a@.0))),
            product(a@, canon(a@.1, a@.0)) == (1int, 1int),
    {
        let x = a@;
        let w = canon(x.1, x.0);
        lemma_canon(x.1, x.0);
        assert(x.1 * w.1 != 0) by (nonlinear_arith)
            requires
                x.1 > 0,
                w.1 > 0,
        ;
        assert((x.0 * w.0) * 1 == 1 * (x.1 * w.1)) by (nonlinear_arith)
            requires
                w.0 * x.0 == x.1 * w.1,
        ;
        lemma_canon_eq(x.0 * w.0, x.1 * w.1, 1, 1);
        lemma_gcd_one(1);
        lemma_canon_of_canonical((1, 1));
    }
}

} // verus!
