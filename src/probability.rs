//! Exact probabilities: fractions kept in lowest terms.

use crate::gcd::{gcd, gcd_spec, lemma_gcd_commutes, lemma_gcd_divides, lemma_gcd_reduced};
use vstd::arithmetic::div_mod::lemma_fundamental_div_mod;
use crate::tally::total;
use crate::text::{decimal, push_decimal};
use vstd::prelude::*;
use vstd::string::StringExecFns;

verus! {

/// Absolute value.
pub open spec fn abs(x: int) -> nat {
    if x < 0 {
        (-x) as nat
    } else {
        x as nat
    }
}

/// Numerator of n/d in lowest terms.
pub open spec fn reduced_num(n: int, d: int) -> int {
    let g = gcd_spec(abs(n), d as nat) as int;
    if n < 0 {
        -((abs(n) as int) / g)
    } else {
        (abs(n) as int) / g
    }
}

/// Denominator of n/d in lowest terms.
pub open spec fn reduced_den(n: int, d: int) -> int {
    d / (gcd_spec(abs(n), d as nat) as int)
}

/// A fraction n/d whose parts fit the fields of a `Probability`.
pub open spec fn ratio_fits(n: int, d: int) -> bool {
    i64::MIN <= n <= i64::MAX && 0 < d <= u64::MAX
}

/// An exact rational number: a numerator and a positive denominator in
/// lowest terms (see `wf`).
#[derive(Debug, Clone, Copy, PartialEq, Eq, Structural)]
pub struct Probability {
    pub numerator: i64,
    pub denominator: u64,
}

/// The reduced form of n/d.
pub open spec fn from_ratio(n: int, d: int) -> Probability {
    Probability { numerator: reduced_num(n, d) as i64, denominator: reduced_den(n, d) as u64 }
}

/// n/d reduced is well formed, has the same value, and fits.
pub proof fn lemma_from_ratio(n: int, d: int)
    requires
        ratio_fits(n, d),
    ensures
        from_ratio(n, d).wf(),
        from_ratio(n, d).num() == reduced_num(n, d),
        from_ratio(n, d).den() == reduced_den(n, d),
        from_ratio(n, d).represents(n, d),
        abs(reduced_num(n, d)) <= abs(n),
        0 < reduced_den(n, d) <= d,
{
    let a = abs(n);
    let g = gcd_spec(a, d as nat);
    lemma_gcd_divides(a, d as nat);
    lemma_gcd_reduced(a, d as nat);
    lemma_fundamental_div_mod(a as int, g as int);
    lemma_fundamental_div_mod(d, g as int);
    let x = a / g;
    let y = d / (g as int);
    assert(a == g * x && d == g * y);
    assert(x <= a && 0 < y <= d) by (nonlinear_arith)
        requires
            a == g * x,
            d == g * y,
            g > 0,
            d > 0,
            x >= 0,
    ;
    assert(reduced_num(n, d) * d == n * reduced_den(n, d)) by (nonlinear_arith)
        requires
            a == g * x,
            d == g * y,
            n < 0 ==> reduced_num(n, d) == -x && n == -a,
            n >= 0 ==> reduced_num(n, d) == x && n == a,
            reduced_den(n, d) == y,
    ;
    assert(abs(reduced_num(n, d)) == x);
}

/// The running sum of a sequence from zero, or `None` from the first partial
/// sum that overflows.
pub open spec fn sum_spec(s: Seq<Probability>) -> Option<Probability>
    decreases s.len(),
{
    if s.len() == 0 {
        Some(Probability { numerator: 0, denominator: 1 })
    } else {
        match sum_spec(s.drop_last()) {
            Some(acc) => if acc.add_fits(s.last()) {
                Some(acc.add_spec(s.last()))
            } else {
                None
            },
            None => None,
        }
    }
}

/// Once a partial sum overflows, every longer one does.
proof fn lemma_sum_none_extends(s: Seq<Probability>, i: int)
    requires
        0 <= i <= s.len(),
        sum_spec(s.subrange(0, i)) is None,
    ensures
        sum_spec(s) is None,
    decreases s.len() - i,
{
    if i < s.len() {
        assert(s.subrange(0, i + 1).drop_last() == s.subrange(0, i));
        lemma_sum_none_extends(s, i + 1);
    } else {
        assert(s.subrange(0, i) == s);
    }
}

/// The exact sum of the values of `s` as an unreduced fraction
/// (numerator, denominator): the running sum a/b + c/d = (ad + cb)/(bd).
pub open spec fn value_sum(s: Seq<Probability>) -> (int, int)
    decreases s.len(),
{
    if s.len() == 0 {
        (0, 1)
    } else {
        let acc = value_sum(s.drop_last());
        (acc.0 * s.last().den() + s.last().num() * acc.1, acc.1 * s.last().den())
    }
}

/// The values of `s` sum to exactly 1.
pub open spec fn sums_to_one(s: Seq<Probability>) -> bool {
    value_sum(s).0 == value_sum(s).1
}

/// Fractions c[k]/d sum to (total of c)/d.
proof fn lemma_value_sum_scaled(s: Seq<Probability>, c: Seq<u64>, d: int)
    requires
        s.len() == c.len(),
        d > 0,
        forall|k: int| 0 <= k < s.len() ==> (#[trigger] s[k]).den() > 0 && s[k].represents(c[k] as int, d),
    ensures
        value_sum(s).1 > 0,
        value_sum(s).0 * d == total(c) * value_sum(s).1,
    decreases s.len(),
{
    if s.len() > 0 {
        let k = s.len() - 1;
        assert(s[k].den() > 0 && s[k].represents(c[k] as int, d));
        lemma_value_sum_scaled(s.drop_last(), c.drop_last(), d);
        let acc = value_sum(s.drop_last());
        let t = total(c.drop_last());
        let p = s.last();
        let cl = c.last() as int;
        let (a0, a1, pn, pd) = (acc.0, acc.1, p.num(), p.den());
        assert(a1 * pd > 0) by (nonlinear_arith)
            requires
                a1 > 0,
                pd > 0,
        ;
        assert((a0 * pd + pn * a1) * d == (a0 * d) * pd + (pn * d) * a1) by (nonlinear_arith);
        assert((t * a1) * pd + (cl * pd) * a1 == (t + cl) * (a1 * pd)) by (nonlinear_arith);
        assert((a0 * d) * pd == (t * a1) * pd);
        assert((pn * d) * a1 == (cl * pd) * a1);
    }
}

/// Fractions c[k]/d whose counts total d sum to exactly 1.
pub proof fn lemma_sums_to_one(s: Seq<Probability>, c: Seq<u64>, d: int)
    requires
        s.len() == c.len(),
        d > 0,
        forall|k: int| 0 <= k < s.len() ==> (#[trigger] s[k]).den() > 0 && s[k].represents(c[k] as int, d),
        total(c) == d,
    ensures
        sums_to_one(s),
{
    lemma_value_sum_scaled(s, c, d);
    let v = value_sum(s);
    assert(v.0 == v.1) by (nonlinear_arith)
        requires
            v.0 * d == d * v.1,
            d > 0,
    ;
}

impl Probability {
    pub open spec fn num(self) -> int {
        self.numerator as int
    }

    pub open spec fn den(self) -> int {
        self.denominator as int
    }

    /// Positive denominator, lowest terms.
    pub open spec fn wf(self) -> bool {
        self.den() > 0 && gcd_spec(abs(self.num()), self.den() as nat) == 1
    }

    /// This fraction has the value n/d.
    pub open spec fn represents(self, n: int, d: int) -> bool {
        self.num() * d == n * self.den()
    }

    /// Numerator of the unreduced sum a/b + c/d = (ad + cb)/(bd).
    pub open spec fn add_num(self, rhs: Probability) -> int {
        self.num() * rhs.den() + rhs.num() * self.den()
    }

    /// Numerator of the unreduced difference (ad - cb)/(bd).
    pub open spec fn sub_num(self, rhs: Probability) -> int {
        self.num() * rhs.den() - rhs.num() * self.den()
    }

    /// Denominator of the unreduced sum, difference and product.
    pub open spec fn prod_den(self, rhs: Probability) -> int {
        self.den() * rhs.den()
    }

    /// Numerator of the unreduced product (ac)/(bd).
    pub open spec fn mul_num(self, rhs: Probability) -> int {
        self.num() * rhs.num()
    }

    /// Numerator of the reciprocal, carrying the sign.
    pub open spec fn recip_num(self) -> int {
        if self.num() < 0 {
            -self.den()
        } else {
            self.den()
        }
    }

    /// Denominator of the reciprocal.
    pub open spec fn recip_den(self) -> int {
        abs(self.num()) as int
    }

    /// The exact sum, reduced.
    pub open spec fn add_spec(self, rhs: Probability) -> Probability {
        from_ratio(self.add_num(rhs), self.prod_den(rhs))
    }

    /// The exact difference, reduced.
    pub open spec fn sub_spec(self, rhs: Probability) -> Probability {
        from_ratio(self.sub_num(rhs), self.prod_den(rhs))
    }

    /// The exact product, reduced.
    pub open spec fn mul_spec(self, rhs: Probability) -> Probability {
        from_ratio(self.mul_num(rhs), self.prod_den(rhs))
    }

    /// The exact quotient a/b ÷ c/d = (a·d)/(b·c), reduced.
    pub open spec fn div_spec(self, rhs: Probability) -> Probability {
        from_ratio(self.num() * rhs.recip_num(), self.den() * rhs.recip_den())
    }

    /// The sum can be written with unreduced parts that fit the fields.
    pub open spec fn add_fits(self, rhs: Probability) -> bool {
        ratio_fits(self.add_num(rhs), self.prod_den(rhs))
    }

    pub open spec fn sub_fits(self, rhs: Probability) -> bool {
        ratio_fits(self.sub_num(rhs), self.prod_den(rhs))
    }

    pub open spec fn mul_fits(self, rhs: Probability) -> bool {
        ratio_fits(self.mul_num(rhs), self.prod_den(rhs))
    }

    pub open spec fn div_fits(self, rhs: Probability) -> bool {
        rhs.num() != 0 && ratio_fits(self.num() * rhs.recip_num(), self.den() * rhs.recip_den())
    }

    /// n/d reduced, or `None` where n or d does not fit.
    fn checked_ratio(n: i128, d: u128) -> (r: Option<Probability>)
        requires
            d > 0,
        ensures
            r.is_some() ==> r.unwrap().wf(),
            r == (if ratio_fits(n as int, d as int) {
                Some(from_ratio(n as int, d as int))
            } else {
                None
            }),
    {
        if n < i64::MIN as i128 || n > i64::MAX as i128 || d > u64::MAX as u128 {
            None
        } else {
            Some(Probability::reduce(n, d))
        }
    }

    /// The exact sum, or `None` where its unreduced parts overflow.
    pub fn checked_add(self, rhs: Probability) -> (r: Option<Probability>)
        requires
            self.wf(),
            rhs.wf(),
        ensures
            r.is_some() ==> r.unwrap().wf(),
            r == (if self.add_fits(rhs) {
                Some(self.add_spec(rhs))
            } else {
                None
            }),
    {
        let (ad, cb, d) = Probability::cross(self, rhs);
        match ad.checked_add(cb) {
            Some(n) => Probability::checked_ratio(n, d),
            None => None,
        }
    }

    /// The exact difference, or `None` where its unreduced parts overflow.
    pub fn checked_sub(self, rhs: Probability) -> (r: Option<Probability>)
        requires
            self.wf(),
            rhs.wf(),
        ensures
            r.is_some() ==> r.unwrap().wf(),
            r == (if self.sub_fits(rhs) {
                Some(self.sub_spec(rhs))
            } else {
                None
            }),
    {
        let (ad, cb, d) = Probability::cross(self, rhs);
        match ad.checked_sub(cb) {
            Some(n) => Probability::checked_ratio(n, d),
            None => None,
        }
    }

    /// The cross products a·d and c·b and the product of denominators b·d.
    fn cross(a: Probability, b: Probability) -> (r: (i128, i128, u128))
        requires
            a.wf(),
            b.wf(),
        ensures
            r.0 == a.num() * b.den(),
            r.1 == b.num() * a.den(),
            r.2 == a.prod_den(b),
            r.2 > 0,
    {
        assert(a.num() * b.den() <= i128::MAX && a.num() * b.den() >= i128::MIN) by (nonlinear_arith)
            requires
                i64::MIN <= a.num() <= i64::MAX,
                0 < b.den() <= u64::MAX,
        ;
        assert(b.num() * a.den() <= i128::MAX && b.num() * a.den() >= i128::MIN) by (nonlinear_arith)
            requires
                i64::MIN <= b.num() <= i64::MAX,
                0 < a.den() <= u64::MAX,
        ;
        assert(0 < a.den() * b.den() <= u128::MAX) by (nonlinear_arith)
            requires
                0 < a.den() <= u64::MAX,
                0 < b.den() <= u64::MAX,
        ;
        let ad = (a.numerator as i128) * (b.denominator as i128);
        let cb = (b.numerator as i128) * (a.denominator as i128);
        let d = (a.denominator as u128) * (b.denominator as u128);
        (ad, cb, d)
    }

    /// The exact product, or `None` where its unreduced parts overflow.
    pub fn checked_mul(self, rhs: Probability) -> (r: Option<Probability>)
        requires
            self.wf(),
            rhs.wf(),
        ensures
            r.is_some() ==> r.unwrap().wf(),
            r == (if self.mul_fits(rhs) {
                Some(self.mul_spec(rhs))
            } else {
                None
            }),
    {
        assert(self.num() * rhs.num() <= i128::MAX && self.num() * rhs.num() >= i128::MIN)
            by (nonlinear_arith)
            requires
                i64::MIN <= self.num() <= i64::MAX,
                i64::MIN <= rhs.num() <= i64::MAX,
        ;
        assert(0 < self.den() * rhs.den() <= u128::MAX) by (nonlinear_arith)
            requires
                0 < self.den() <= u64::MAX,
                0 < rhs.den() <= u64::MAX,
        ;
        let n = (self.numerator as i128) * (rhs.numerator as i128);
        let d = (self.denominator as u128) * (rhs.denominator as u128);
        Probability::checked_ratio(n, d)
    }

    /// The exact quotient, or `None` where the divisor is zero or the
    /// unreduced parts overflow.
    pub fn checked_div(self, rhs: Probability) -> (r: Option<Probability>)
        requires
            self.wf(),
            rhs.wf(),
        ensures
            r.is_some() ==> r.unwrap().wf(),
            r == (if self.div_fits(rhs) {
                Some(self.div_spec(rhs))
            } else {
                None
            }),
    {
        if rhs.numerator == 0 {
            return None;
        }
        let rn: i128 = if rhs.numerator < 0 {
            -(rhs.denominator as i128)
        } else {
            rhs.denominator as i128
        };
        let rd: u128 = if rhs.numerator < 0 {
            (-(rhs.numerator as i128)) as u128
        } else {
            rhs.numerator as u128
        };
        assert(self.num() * rn <= i128::MAX && self.num() * rn >= i128::MIN) by (nonlinear_arith)
            requires
                i64::MIN <= self.num() <= i64::MAX,
                -(u64::MAX as int) <= rn <= u64::MAX,
        ;
        assert(0 < self.den() * rd <= u128::MAX) by (nonlinear_arith)
            requires
                0 < self.den() <= u64::MAX,
                0 < rd <= u64::MAX,
        ;
        let n = (self.numerator as i128) * rn;
        let d = (self.denominator as u128) * rd;
        Probability::checked_ratio(n, d)
    }

    /// This value times `k`, or `None` where the numerator overflows.
    pub fn checked_scale(self, k: u64) -> (r: Option<Probability>)
        requires
            self.wf(),
        ensures
            r.is_some() ==> r.unwrap().wf(),
            r == (if ratio_fits(self.num() * k, self.den()) {
                Some(from_ratio(self.num() * k, self.den()))
            } else {
                None
            }),
    {
        assert(self.num() * k <= i128::MAX && self.num() * k >= i128::MIN) by (nonlinear_arith)
            requires
                i64::MIN <= self.num() <= i64::MAX,
                0 <= k <= u64::MAX,
        ;
        Probability::checked_ratio((self.numerator as i128) * (k as i128), self.denominator as u128)
    }

    /// This value divided by `k`, or `None` where `k` is zero or the
    /// denominator overflows.
    pub fn checked_div_int(self, k: u64) -> (r: Option<Probability>)
        requires
            self.wf(),
        ensures
            r.is_some() ==> r.unwrap().wf(),
            r == (if k > 0 && ratio_fits(self.num(), self.den() * k) {
                Some(from_ratio(self.num(), self.den() * k))
            } else {
                None
            }),
    {
        if k == 0 {
            return None;
        }
        assert(0 < self.den() * k <= u128::MAX) by (nonlinear_arith)
            requires
                0 < self.den() <= u64::MAX,
                0 < k <= u64::MAX,
        ;
        Probability::checked_ratio(self.numerator as i128, (self.denominator as u128) * (k as u128))
    }

    /// The reciprocal d/n, with the sign on the numerator.
    pub fn reciprocal(&self) -> (r: Probability)
        requires
            self.wf(),
            self.num() != 0,
            self.den() <= i64::MAX,
        ensures
            r.num() == self.recip_num(),
            r.den() == self.recip_den(),
            r.wf(),
    {
        proof {
            lemma_gcd_commutes(abs(self.num()), self.den() as nat);
        }
        if self.numerator < 0 {
            Probability {
                numerator: -(self.denominator as i64),
                denominator: (-(self.numerator as i128)) as u64,
            }
        } else {
            Probability { numerator: self.denominator as i64, denominator: self.numerator as u64 }
        }
    }

    /// The text "n/d", or "0" for zero.
    pub open spec fn text(self) -> Seq<char> {
        if self.num() == 0 {
            seq!['0']
        } else if self.num() < 0 {
            seq!['-'] + decimal(abs(self.num())) + seq!['/'] + decimal(self.den() as nat)
        } else {
            decimal(abs(self.num())) + seq!['/'] + decimal(self.den() as nat)
        }
    }

    /// Renders the fraction as "n/d", or "0" for zero.
    pub fn to_string(&self) -> (r: String)
        ensures
            r@ == self.text(),
    {
        proof {
            reveal_strlit("0");
            reveal_strlit("-");
            reveal_strlit("/");
        }
        let mut s = String::new();
        if self.numerator == 0 {
            s.append("0");
        } else {
            if self.numerator < 0 {
                s.append("-");
            }
            let a: u64 = if self.numerator < 0 {
                (-(self.numerator as i128)) as u64
            } else {
                self.numerator as u64
            };
            push_decimal(&mut s, a);
            s.append("/");
            push_decimal(&mut s, self.denominator);
        }
        s
    }

    /// Adds `rhs` in place.
    pub fn add_assign(&mut self, rhs: Probability)
        requires
            old(self).wf(),
            rhs.wf(),
            old(self).add_fits(rhs),
        ensures
            *final(self) == old(self).add_spec(rhs),
            final(self).wf(),
    {
        *self = *self + rhs;
        proof {
            lemma_from_ratio(old(self).add_num(rhs), old(self).prod_den(rhs));
        }
    }

    /// Subtracts `rhs` in place.
    pub fn sub_assign(&mut self, rhs: Probability)
        requires
            old(self).wf(),
            rhs.wf(),
            old(self).sub_fits(rhs),
        ensures
            *final(self) == old(self).sub_spec(rhs),
            final(self).wf(),
    {
        *self = *self - rhs;
        proof {
            lemma_from_ratio(old(self).sub_num(rhs), old(self).prod_den(rhs));
        }
    }

    /// Multiplies by `rhs` in place.
    pub fn mul_assign(&mut self, rhs: Probability)
        requires
            old(self).wf(),
            rhs.wf(),
            old(self).mul_fits(rhs),
        ensures
            *final(self) == old(self).mul_spec(rhs),
            final(self).wf(),
    {
        *self = *self * rhs;
        proof {
            lemma_from_ratio(old(self).mul_num(rhs), old(self).prod_den(rhs));
        }
    }

    /// The sum of `items`, or `None` where a partial sum overflows; the sum
    /// of nothing is zero.
    pub fn sum(items: &[Probability]) -> (r: Option<Probability>)
        requires
            forall|i: int| 0 <= i < items@.len() ==> (#[trigger] items@[i]).wf(),
        ensures
            r == sum_spec(items@),
    {
        let mut acc = Probability::zero();
        let mut i: usize = 0;
        while i < items.len()
            invariant
                i <= items@.len(),
                forall|k: int| 0 <= k < items@.len() ==> (#[trigger] items@[k]).wf(),
                sum_spec(items@.subrange(0, i as int)) == Some(acc),
                acc.wf(),
            decreases items@.len() - i,
        {
            assert(items@.subrange(0, i as int + 1).drop_last() == items@.subrange(0, i as int));
            match acc.checked_add(items[i]) {
                Some(next) => {
                    acc = next;
                },
                None => {
                    proof {
                        lemma_sum_none_extends(items@, i as int + 1);
                    }
                    return None;
                },
            }
            i = i + 1;
        }
        assert(items@.subrange(0, items@.len() as int) == items@);
        Some(acc)
    }

    /// Reduces n/d, both already known to fit.
    fn reduce(n: i128, d: u128) -> (r: Probability)
        requires
            ratio_fits(n as int, d as int),
        ensures
            r == from_ratio(n as int, d as int),
            r.wf(),
    {
        proof {
            lemma_from_ratio(n as int, d as int);
        }
        let a: u64 = if n < 0 {
            (-n) as u64
        } else {
            n as u64
        };
        let g = gcd(a, d as u64);
        proof {
            lemma_gcd_divides(a as nat, d as nat);
        }
        let q: u64 = a / g;
        let numerator: i64 = if n < 0 {
            -(q as i128) as i64
        } else {
            q as i64
        };
        Probability { numerator, denominator: (d as u64) / g }
    }

    /// The fraction numerator/denominator in lowest terms.
    pub fn new(numerator: i64, denominator: u64) -> (r: Probability)
        requires
            denominator > 0,
        ensures
            r == from_ratio(numerator as int, denominator as int),
            r.wf(),
            r.represents(numerator as int, denominator as int),
    {
        proof {
            lemma_from_ratio(numerator as int, denominator as int);
        }
        Probability::reduce(numerator as i128, denominator as u128)
    }

    /// The value 0, written 0/1.
    pub fn zero() -> (r: Probability)
        ensures
            r.num() == 0,
            r.den() == 1,
            r.wf(),
    {
        assert(gcd_spec(0, 1) == gcd_spec(1, 0));
        Probability { numerator: 0, denominator: 1 }
    }

    /// The value 1, written 1/1.
    pub fn one() -> (r: Probability)
        ensures
            r.num() == 1,
            r.den() == 1,
            r.wf(),
    {
        assert(gcd_spec(1, 1) == gcd_spec(1, 0));
        Probability { numerator: 1, denominator: 1 }
    }

    /// Whether this is the value 0.
    pub fn is_zero(&self) -> (r: bool)
        ensures
            r == (self.num() == 0),
    {
        self.numerator == 0
    }
}

impl core::ops::Add for Probability {
    type Output = Probability;

    fn add(self, rhs: Probability) -> Probability {
        self.checked_add(rhs).unwrap()
    }
}

impl vstd::std_specs::ops::AddSpecImpl for Probability {
    open spec fn obeys_add_spec() -> bool {
        true
    }

    open spec fn add_req(self, rhs: Probability) -> bool {
        self.wf() && rhs.wf() && self.add_fits(rhs)
    }

    open spec fn add_spec(self, rhs: Probability) -> Probability {
        Probability::add_spec(self, rhs)
    }
}

impl core::ops::Add<&Probability> for Probability {
    type Output = Probability;

    fn add(self, rhs: &Probability) -> Probability {
        self.checked_add(*rhs).unwrap()
    }
}

impl vstd::std_specs::ops::AddSpecImpl<&Probability> for Probability {
    open spec fn obeys_add_spec() -> bool {
        true
    }

    open spec fn add_req(self, rhs: &Probability) -> bool {
        self.wf() && rhs.wf() && self.add_fits(*rhs)
    }

    open spec fn add_spec(self, rhs: &Probability) -> Probability {
        Probability::add_spec(self, *rhs)
    }
}

impl core::ops::Sub<Probability> for Probability {
    type Output = Probability;

    fn sub(self, rhs: Probability) -> Probability {
        self.checked_sub(rhs).unwrap()
    }
}

impl vstd::std_specs::ops::SubSpecImpl<Probability> for Probability {
    open spec fn obeys_sub_spec() -> bool {
        true
    }

    open spec fn sub_req(self, rhs: Probability) -> bool {
        self.wf() && rhs.wf() && self.sub_fits(rhs)
    }

    open spec fn sub_spec(self, rhs: Probability) -> Probability {
        Probability::sub_spec(self, rhs)
    }
}

impl core::ops::Sub<&Probability> for Probability {
    type Output = Probability;

    fn sub(self, rhs: &Probability) -> Probability {
        self.checked_sub(*rhs).unwrap()
    }
}

impl vstd::std_specs::ops::SubSpecImpl<&Probability> for Probability {
    open spec fn obeys_sub_spec() -> bool {
        true
    }

    open spec fn sub_req(self, rhs: &Probability) -> bool {
        self.wf() && rhs.wf() && self.sub_fits(*rhs)
    }

    open spec fn sub_spec(self, rhs: &Probability) -> Probability {
        Probability::sub_spec(self, *rhs)
    }
}

impl core::ops::Mul<Probability> for Probability {
    type Output = Probability;

    fn mul(self, rhs: Probability) -> Probability {
        self.checked_mul(rhs).unwrap()
    }
}

impl vstd::std_specs::ops::MulSpecImpl<Probability> for Probability {
    open spec fn obeys_mul_spec() -> bool {
        true
    }

    open spec fn mul_req(self, rhs: Probability) -> bool {
        self.wf() && rhs.wf() && self.mul_fits(rhs)
    }

    open spec fn mul_spec(self, rhs: Probability) -> Probability {
        Probability::mul_spec(self, rhs)
    }
}

impl core::ops::Div<Probability> for Probability {
    type Output = Probability;

    fn div(self, rhs: Probability) -> Probability {
        self.checked_div(rhs).unwrap()
    }
}

impl vstd::std_specs::ops::DivSpecImpl<Probability> for Probability {
    open spec fn obeys_div_spec() -> bool {
        true
    }

    open spec fn div_req(self, rhs: Probability) -> bool {
        self.wf() && rhs.wf() && self.div_fits(rhs)
    }

    open spec fn div_spec(self, rhs: Probability) -> Probability {
        Probability::div_spec(self, rhs)
    }
}

impl core::ops::Mul<u64> for Probability {
    type Output = Probability;

    fn mul(self, rhs: u64) -> Probability {
        self.checked_scale(rhs).unwrap()
    }
}

impl vstd::std_specs::ops::MulSpecImpl<u64> for Probability {
    open spec fn obeys_mul_spec() -> bool {
        true
    }

    open spec fn mul_req(self, rhs: u64) -> bool {
        self.wf() && ratio_fits(self.num() * rhs, self.den())
    }

    open spec fn mul_spec(self, rhs: u64) -> Probability {
        from_ratio(self.num() * rhs, self.den())
    }
}

impl core::ops::Div<u64> for Probability {
    type Output = Probability;

    fn div(self, rhs: u64) -> Probability {
        self.checked_div_int(rhs).unwrap()
    }
}

impl vstd::std_specs::ops::DivSpecImpl<u64> for Probability {
    open spec fn obeys_div_spec() -> bool {
        true
    }

    open spec fn div_req(self, rhs: u64) -> bool {
        self.wf() && rhs > 0 && ratio_fits(self.num(), self.den() * rhs)
    }

    open spec fn div_spec(self, rhs: u64) -> Probability {
        from_ratio(self.num(), self.den() * rhs)
    }
}

impl PartialOrd for Probability {
    fn partial_cmp(&self, other: &Probability) -> (r: Option<core::cmp::Ordering>) {
        assert(forall|n: int, d: int|
            i64::MIN <= n <= i64::MAX && 0 <= d <= u64::MAX ==> i128::MIN <= #[trigger] (n * d)
                <= i128::MAX) by (nonlinear_arith);
        let l = (self.numerator as i128) * (other.denominator as i128);
        let g = (other.numerator as i128) * (self.denominator as i128);
        if l < g {
            Some(core::cmp::Ordering::Less)
        } else if l == g {
            Some(core::cmp::Ordering::Equal)
        } else {
            Some(core::cmp::Ordering::Greater)
        }
    }
}

impl vstd::std_specs::cmp::PartialOrdSpecImpl for Probability {
    open spec fn obeys_partial_cmp_spec() -> bool {
        true
    }

    /// Orders by value: a/b against c/d compares a·d with c·b.
    open spec fn partial_cmp_spec(&self, other: &Probability) -> Option<core::cmp::Ordering> {
        let l = self.num() * other.den();
        let g = other.num() * self.den();
        if l < g {
            Some(core::cmp::Ordering::Less)
        } else if l == g {
            Some(core::cmp::Ordering::Equal)
        } else {
            Some(core::cmp::Ordering::Greater)
        }
    }
}

} // verus!
