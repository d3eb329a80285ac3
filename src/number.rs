//! Exact rational numbers: the numeric values of the language.
use vstd::prelude::*;
use crate::text::{digits, fixed_digits, int_text, push_char, push_digits, push_fixed, push_int};

verus! {

/// A rational number `num / den`, kept in lowest terms with a positive denominator.
#[derive(Clone, Copy, Debug, PartialEq, Eq, Structural)]
pub struct Number {
    pub num: i64,
    pub den: i64,
}

pub open spec fn abs(i: int) -> nat {
    if i < 0 { (-i) as nat } else { i as nat }
}

/// Greatest common divisor, by Euclid's rule.
pub open spec fn gcd(a: nat, b: nat) -> nat
    decreases b,
{
    if b == 0 { a } else { gcd(b, a % b) }
}

/// The number `n / d` (with `d > 0`) in lowest terms, if both parts fit in 64 bits.
pub open spec fn make_spec(n: int, d: int) -> Option<Number> {
    let m = abs(n);
    let g = gcd(m, d as nat);
    let (m2, d2) = if g > 0 && m % g == 0 && d % g as int == 0 {
        ((m / g) as int, d / g as int)
    } else {
        (m as int, d)
    };
    let n2 = if n < 0 { -m2 } else { m2 };
    if i64::MIN <= n2 <= i64::MAX && 0 < d2 <= i64::MAX {
        Some(Number { num: n2 as i64, den: d2 as i64 })
    } else {
        None
    }
}

pub open spec fn add_spec(a: Number, b: Number) -> Option<Number> {
    make_spec(a.num * b.den + b.num * a.den, a.den * b.den)
}

pub open spec fn sub_spec(a: Number, b: Number) -> Option<Number> {
    make_spec(a.num * b.den - b.num * a.den, a.den * b.den)
}

pub open spec fn mul_spec(a: Number, b: Number) -> Option<Number> {
    make_spec(a.num * b.num, a.den * b.den)
}

/// Division; there is no quotient by zero.
pub open spec fn div_spec(a: Number, b: Number) -> Option<Number> {
    if b.num == 0 {
        None
    } else if b.num > 0 {
        make_spec(a.num * b.den, a.den * b.num)
    } else {
        make_spec(-(a.num * b.den), -(a.den * b.num))
    }
}

/// The least power of ten from `p` on, up to 10^18, that `den` divides.
pub open spec fn decimal_scale(den: nat, p: nat) -> Option<nat>
    decreases 10_000_000_000_000_000_001 - p,
{
    if p == 0 || p > 1_000_000_000_000_000_000 {
        None
    } else if p % den == 0 {
        Some(p)
    } else {
        decimal_scale(den, p * 10)
    }
}

/// The exact decimal text of `num / den`, written with `p` (a power of ten that `den`
/// divides) as the scale of the fraction.
pub open spec fn decimal_text(num: int, den: nat, p: nat) -> Seq<char> {
    let m = abs(num);
    let sign = if num < 0 { seq!['-'] } else { seq![] };
    sign + digits(m / den) + seq!['.'] + fixed_digits((m % den) * (p / den), p)
}

/// The text of a number: an integer; a decimal where the fraction has a finite decimal
/// expansion of at most 18 places; `num/den` otherwise.
pub open spec fn number_text(n: Number) -> Seq<char> {
    let fraction = int_text(n.num as int) + seq!['/'] + int_text(n.den as int);
    if n.den == 1 {
        int_text(n.num as int)
    } else if n.den <= 0 {
        fraction
    } else {
        match decimal_scale(n.den as nat, 1) {
            Some(p) => decimal_text(n.num as int, n.den as nat, p),
            None => fraction,
        }
    }
}

fn gcd_exec(a: u128, b: u128) -> (g: u128)
    ensures
        g as nat == gcd(a as nat, b as nat),
    decreases b,
{
    if b == 0 {
        a
    } else {
        gcd_exec(b, a % b)
    }
}

proof fn lemma_quotient_positive(d: int, g: int)
    requires
        d > 0,
        g > 0,
        d % g == 0,
    ensures
        0 < d / g <= d,
{
    assert(d == g * (d / g) + d % g) by (nonlinear_arith)
        requires g > 0;
    assert(0 < d / g <= d) by (nonlinear_arith)
        requires d == g * (d / g), d > 0, g > 0;
}

/// Builds `n / d` in lowest terms; `None` where a part does not fit in 64 bits.
fn make(n: i128, d: i128) -> (r: Option<Number>)
    requires
        0 < d,
        n > i128::MIN,
    ensures
        r == make_spec(n as int, d as int),
        r matches Some(x) ==> x.wf(),
{
    let m: u128 = if n < 0 { (-n) as u128 } else { n as u128 };
    let du: u128 = d as u128;
    let g = gcd_exec(m, du);
    let (m2, d2): (u128, u128) = if g > 0 && m % g == 0 && du % g == 0 {
        proof {
            lemma_quotient_positive(du as int, g as int);
            assert(m / g <= m) by (nonlinear_arith) requires g > 0;
        }
        (m / g, du / g)
    } else {
        (m, du)
    };
    if d2 == 0 || d2 > i64::MAX as u128 || m2 > i64::MAX as u128 + 1 {
        return None;
    }
    if n < 0 {
        let v: i128 = -(m2 as i128);
        if v < i64::MIN as i128 {
            return None;
        }
        Some(Number { num: v as i64, den: d2 as i64 })
    } else {
        if m2 > i64::MAX as u128 {
            return None;
        }
        Some(Number { num: m2 as i64, den: d2 as i64 })
    }
}

proof fn lemma_product_bound(x: int, y: int)
    requires
        -0x8000_0000_0000_0000 <= x <= 0x8000_0000_0000_0000,
        -0x8000_0000_0000_0000 < y < 0x8000_0000_0000_0000,
    ensures
        -0x4000_0000_0000_0000_0000_0000_0000_0000 < x * y < 0x4000_0000_0000_0000_0000_0000_0000_0000,
{
    assert(-0x4000_0000_0000_0000_0000_0000_0000_0000 < x * y < 0x4000_0000_0000_0000_0000_0000_0000_0000)
        by (nonlinear_arith)
        requires
            -0x8000_0000_0000_0000 <= x <= 0x8000_0000_0000_0000,
            -0x8000_0000_0000_0000 < y < 0x8000_0000_0000_0000,
    ;
}

proof fn lemma_product_bound_wide(x: int, y: int)
    requires
        -0x8000_0000_0000_0000 <= x <= 0x8000_0000_0000_0000,
        -0x8000_0000_0000_0000 <= y <= 0x8000_0000_0000_0000,
    ensures
        -0x4000_0000_0000_0000_0000_0000_0000_0000 <= x * y <= 0x4000_0000_0000_0000_0000_0000_0000_0000,
{
    assert(-0x4000_0000_0000_0000_0000_0000_0000_0000 <= x * y <= 0x4000_0000_0000_0000_0000_0000_0000_0000)
        by (nonlinear_arith)
        requires
            -0x8000_0000_0000_0000 <= x <= 0x8000_0000_0000_0000,
            -0x8000_0000_0000_0000 <= y <= 0x8000_0000_0000_0000,
    ;
}

proof fn lemma_positive_product(x: int, y: int)
    requires
        x > 0,
        y > 0,
    ensures
        x * y > 0,
{
    assert(x * y > 0) by (nonlinear_arith) requires x > 0, y > 0;
}

impl Number {
    /// A valid number has a positive denominator.
    pub open spec fn wf(&self) -> bool {
        self.den > 0
    }

    /// The whole number `n`.
    pub fn from_int(n: i64) -> (r: Number)
        ensures
            r == (Number { num: n, den: 1 }),
            r.wf(),
    {
        Number { num: n, den: 1 }
    }

    /// The number `num / den` in lowest terms; `None` where `den` is zero or the result
    /// does not fit.
    pub fn new(num: i64, den: i64) -> (r: Option<Number>)
        ensures
            den == 0 ==> r is None,
            den > 0 ==> r == make_spec(num as int, den as int),
            den < 0 ==> r == make_spec(-(num as int), -(den as int)),
            r matches Some(x) ==> x.wf(),
    {
        if den == 0 {
            None
        } else if den > 0 {
            make(num as i128, den as i128)
        } else {
            make(-(num as i128), -(den as i128))
        }
    }

    /// `self + o`; `None` where the result does not fit.
    pub fn add(&self, o: &Number) -> (r: Option<Number>)
        requires
            self.wf(),
            o.wf(),
        ensures
            r == add_spec(*self, *o),
            r matches Some(x) ==> x.wf(),
    {
        proof {
            lemma_product_bound(self.num as int, o.den as int);
            lemma_product_bound(o.num as int, self.den as int);
            lemma_product_bound(self.den as int, o.den as int);
            lemma_positive_product(self.den as int, o.den as int);
        }
        let n = (self.num as i128) * (o.den as i128) + (o.num as i128) * (self.den as i128);
        make(n, (self.den as i128) * (o.den as i128))
    }

    /// `self - o`; `None` where the result does not fit.
    pub fn sub(&self, o: &Number) -> (r: Option<Number>)
        requires
            self.wf(),
            o.wf(),
        ensures
            r == sub_spec(*self, *o),
            r matches Some(x) ==> x.wf(),
    {
        proof {
            lemma_product_bound(self.num as int, o.den as int);
            lemma_product_bound(o.num as int, self.den as int);
            lemma_product_bound(self.den as int, o.den as int);
            lemma_positive_product(self.den as int, o.den as int);
        }
        let n = (self.num as i128) * (o.den as i128) - (o.num as i128) * (self.den as i128);
        make(n, (self.den as i128) * (o.den as i128))
    }

    /// `self * o`; `None` where the result does not fit.
    pub fn mul(&self, o: &Number) -> (r: Option<Number>)
        requires
            self.wf(),
            o.wf(),
        ensures
            r == mul_spec(*self, *o),
            r matches Some(x) ==> x.wf(),
    {
        proof {
            lemma_product_bound_wide(self.num as int, o.num as int);
            lemma_product_bound(self.den as int, o.den as int);
            lemma_positive_product(self.den as int, o.den as int);
        }
        make((self.num as i128) * (o.num as i128), (self.den as i128) * (o.den as i128))
    }

    /// `self / o`; `None` where `o` is zero or the result does not fit.
    pub fn div(&self, o: &Number) -> (r: Option<Number>)
        requires
            self.wf(),
            o.wf(),
        ensures
            r == div_spec(*self, *o),
            r matches Some(x) ==> x.wf(),
    {
        proof {
            lemma_product_bound(self.num as int, o.den as int);
            lemma_product_bound(o.num as int, self.den as int);
        }
        let n = (self.num as i128) * (o.den as i128);
        let d = (self.den as i128) * (o.num as i128);
        if o.num == 0 {
            None
        } else if o.num > 0 {
            proof { lemma_positive_product(self.den as int, o.num as int); }
            make(n, d)
        } else {
            proof { lemma_positive_product(self.den as int, -(o.num as int)); }
            assert(-(self.den as int * o.num as int) == self.den as int * (-(o.num as int))) by (nonlinear_arith);
            make(-n, -d)
        }
    }

    /// Appends the text of this number to `s`.
    pub fn write_to(&self, s: &mut String)
        ensures
            final(s)@ == old(s)@ + number_text(*self),
    {
        if self.den == 1 {
            push_int(s, self.num);
            return;
        }
        if self.den <= 0 {
            push_int(s, self.num);
            push_char(s, '/');
            push_int(s, self.den);
            assert(final(s)@ =~= old(s)@ + number_text(*self));
            return;
        }
        let den = self.den as u64;
        let mut p: u64 = 1;
        while p <= 1_000_000_000_000_000_000 && p % den != 0
            invariant
                1 <= p <= 10_000_000_000_000_000_000,
                den == self.den,
                den > 0,
                decimal_scale(den as nat, 1) == decimal_scale(den as nat, p as nat),
            decreases 10_000_000_000_000_000_000 - p,
        {
            p = p * 10;
        }
        if p > 1_000_000_000_000_000_000 {
            push_int(s, self.num);
            push_char(s, '/');
            push_int(s, self.den);
            assert(final(s)@ =~= old(s)@ + number_text(*self));
            return;
        }
        let m: u128 = if self.num < 0 { (-(self.num as i128)) as u128 } else { self.num as u128 };
        let d = den as u128;
        let whole: u128 = m / d;
        let frac: u128 = m % d;
        let scale: u128 = (p as u128) / d;
        proof {
            assert(whole <= m) by (nonlinear_arith) requires whole == m / d, d > 0;
            assert(frac < d);
            assert(scale <= p as u128) by (nonlinear_arith) requires scale == (p as u128) / d, d > 0;
            assert(frac * scale <= d * 1_000_000_000_000_000_000) by (nonlinear_arith)
                requires frac < d, scale <= 1_000_000_000_000_000_000;
        }
        if self.num < 0 {
            push_char(s, '-');
        }
        push_digits(s, whole as u64);
        push_char(s, '.');
        push_fixed(s, frac * scale, p as u128);
        assert(final(s)@ =~= old(s)@ + number_text(*self));
    }
}

} // verus!
