//! Exact base-ten numbers used for every timestamp and duration: a mantissa
//! of at most 96 bits and a scale of at most 28 fractional digits.
use vstd::prelude::*;
use vstd::arithmetic::div_mod::lemma_fundamental_div_mod;
use vstd::arithmetic::div_mod::lemma_fundamental_div_mod_converse_div;
use vstd::arithmetic::div_mod::lemma_fundamental_div_mod_converse_mod;
use vstd::arithmetic::div_mod::lemma_mod_bound;
use vstd::arithmetic::div_mod::lemma_mod_multiples_basic;

verus! {

/// Most fractional digits a `Decimal` carries.
pub const MAX_SCALE: u32 = 28;

/// `10^MAX_SCALE`: one, in the units that values are measured in.
pub const ONE: i128 = 10_000_000_000_000_000_000_000_000_000;

/// Largest mantissa magnitude, `2^96 - 1`.
pub const MAX_MANTISSA: i128 = 79_228_162_514_264_337_593_543_950_335;

/// `10^n`.
pub open spec fn pow10(n: nat) -> int
    decreases n,
{
    if n == 0 {
        1
    } else {
        10 * pow10((n - 1) as nat)
    }
}

/// Whether `m` fits a mantissa.
pub open spec fn in_range(m: int) -> bool {
    -MAX_MANTISSA <= m <= MAX_MANTISSA
}

/// The value of `mantissa * 10^-scale`, in units of `10^-MAX_SCALE`.
pub open spec fn value_of(mantissa: int, scale: nat) -> int {
    mantissa * pow10((MAX_SCALE - scale) as nat)
}

/// The multiple of `q` nearest to `u`; on a tie, the even multiple.
pub open spec fn round_to_multiple(u: int, q: int) -> int {
    let f = u / q;
    let r = u % q;
    if 2 * r < q || (2 * r == q && f % 2 == 0) {
        f * q
    } else {
        (f + 1) * q
    }
}

pub proof fn lemma_pow10_positive(n: nat)
    ensures
        pow10(n) > 0,
    decreases n,
{
    if n > 0 {
        lemma_pow10_positive((n - 1) as nat);
    }
}

pub proof fn lemma_pow10_add(a: nat, b: nat)
    ensures
        pow10(a + b) == pow10(a) * pow10(b),
    decreases a,
{
    if a > 0 {
        lemma_pow10_add((a - 1) as nat, b);
        assert(pow10(a + b) == 10 * pow10((a - 1 + b) as nat));
        assert(10 * (pow10((a - 1) as nat) * pow10(b)) == (10 * pow10((a - 1) as nat)) * pow10(b))
            by (nonlinear_arith);
    }
}

/// A rounded value is a multiple of `q` within half of `q` of the input.
pub proof fn lemma_round_bounds(u: int, q: int)
    requires
        q > 0,
    ensures
        2 * round_to_multiple(u, q) >= 2 * u - q,
        2 * round_to_multiple(u, q) <= 2 * u + q,
        round_to_multiple(u, q) % q == 0,
{
    lemma_fundamental_div_mod(u, q);
    lemma_mod_bound(u, q);
    let f = u / q;
    lemma_mod_multiples_basic(f, q);
    lemma_mod_multiples_basic(f + 1, q);
    assert((f + 1) * q == f * q + q) by (nonlinear_arith);
    assert(q * f == f * q) by (nonlinear_arith);
}

/// Rounding `c * p + b`, where `0 <= b < p`, looks at `b` and the parity of `c`.
pub proof fn lemma_round_parts(c: int, b: int, p: int)
    requires
        0 <= b < p,
    ensures
        round_to_multiple(c * p + b, p) == if 2 * b < p || (2 * b == p && c % 2 == 0) {
            c * p
        } else {
            (c + 1) * p
        },
{
    assert(c * p + b == c * p + b);
    lemma_fundamental_div_mod_converse_div(c * p + b, p, c, b);
    lemma_fundamental_div_mod_converse_mod(c * p + b, p, c, b);
}

/// With fractions in `[0, p)`, values ordered as their whole parts, then
/// their fractions.
pub proof fn lemma_split_order(q1: int, f1: int, q2: int, f2: int, p: int)
    requires
        0 <= f1 < p,
        0 <= f2 < p,
    ensures
        (q1 * p + f1 <= q2 * p + f2) == (q1 < q2 || (q1 == q2 && f1 <= f2)),
        (q1 * p + f1 == q2 * p + f2) == (q1 == q2 && f1 == f2),
{
    if q1 < q2 {
        assert(q1 * p + p <= q2 * p) by (nonlinear_arith)
            requires q1 < q2, p > 0;
    } else if q1 > q2 {
        assert(q2 * p + p <= q1 * p) by (nonlinear_arith)
            requires q2 < q1, p > 0;
    }
}

/// `ONE` is `10^MAX_SCALE`.
pub proof fn lemma_one()
    ensures
        pow10(MAX_SCALE as nat) == ONE,
        pow10(0) == 1,
{
    reveal_with_fuel(pow10, 29);
}

/// `10^n` for `n <= MAX_SCALE`.
pub(crate) fn pow10_i128(n: u32) -> (r: i128)
    requires
        n <= MAX_SCALE,
    ensures
        r == pow10(n as nat),
        0 < r <= ONE,
{
    proof {
        lemma_one();
    }
    let mut r: i128 = 1;
    let mut i: u32 = 0;
    while i < n
        invariant
            i <= n <= MAX_SCALE,
            r == pow10(i as nat),
            0 < r,
            pow10(i as nat) * pow10((MAX_SCALE - i) as nat) == ONE,
        decreases n - i,
    {
        proof {
            lemma_pow10_positive((MAX_SCALE - i - 1) as nat);
            assert(pow10((MAX_SCALE - i) as nat) == 10 * pow10((MAX_SCALE - i - 1) as nat));
            assert(pow10((i + 1) as nat) == 10 * pow10(i as nat));
            assert(pow10((i + 1) as nat) * pow10((MAX_SCALE - i - 1) as nat) == ONE)
                by (nonlinear_arith)
                requires
                    pow10(i as nat) * pow10((MAX_SCALE - i) as nat) == ONE,
                    pow10((MAX_SCALE - i) as nat) == 10 * pow10((MAX_SCALE - i - 1) as nat),
                    pow10((i + 1) as nat) == 10 * pow10(i as nat),
            ;
            assert(pow10((i + 1) as nat) <= ONE) by (nonlinear_arith)
                requires
                    pow10((i + 1) as nat) * pow10((MAX_SCALE - i - 1) as nat) == ONE,
                    pow10((MAX_SCALE - i - 1) as nat) > 0,
                    pow10((i + 1) as nat) > 0,
            ;
        }
        r = r * 10;
        i = i + 1;
    }
    proof {
        lemma_pow10_positive((MAX_SCALE - n) as nat);
        assert(r <= ONE) by (nonlinear_arith)
            requires
                r * pow10((MAX_SCALE - n) as nat) == ONE,
                pow10((MAX_SCALE - n) as nat) > 0,
                r > 0,
        ;
    }
    r
}

/// An exact decimal number `mantissa * 10^-scale`, as `rust_decimal` holds it.
#[derive(Debug, Clone, Copy)]
pub struct Decimal {
    mantissa: i128,
    scale: u32,
}

impl View for Decimal {
    /// The value in units of `10^-MAX_SCALE`.
    type V = int;

    closed spec fn view(&self) -> int {
        value_of(self.mantissa as int, self.scale as nat)
    }
}

impl PartialEq for Decimal {
    /// Numbers are equal when their values are, whatever their scales.
    fn eq(&self, other: &Decimal) -> (r: bool) {
        proof {
            use_type_invariant(self);
            use_type_invariant(other);
        }
        let (q1, f1) = self.split();
        let (q2, f2) = other.split();
        proof {
            lemma_split_order(q1 as int, f1 as int, q2 as int, f2 as int, ONE as int);
        }
        q1 == q2 && f1 == f2
    }
}

impl vstd::std_specs::cmp::PartialEqSpecImpl for Decimal {
    open spec fn obeys_eq_spec() -> bool {
        true
    }

    open spec fn eq_spec(&self, other: &Decimal) -> bool {
        self@ == other@
    }
}

impl Eq for Decimal {
}

impl Decimal {
    #[verifier::type_invariant]
    pub closed spec fn inv(&self) -> bool {
        in_range(self.mantissa as int) && self.scale <= MAX_SCALE
    }

    /// Whether the mantissa and scale are within bounds; every `Decimal` is.
    pub open spec fn wf(&self) -> bool {
        self.inv()
    }

    /// The stored mantissa.
    pub closed spec fn spec_mantissa(&self) -> int {
        self.mantissa as int
    }

    /// The stored scale.
    pub closed spec fn spec_scale(&self) -> nat {
        self.scale as nat
    }

    /// How the number is written: its stored digits.
    pub open spec fn text_view(&self) -> Seq<char> {
        decimal_text_of(self.spec_mantissa(), self.spec_scale() as int)
    }

    /// `mantissa * 10^-scale`, where both are within bounds.
    pub fn new(mantissa: i128, scale: u32) -> (r: Option<Decimal>)
        ensures
            r is Some <==> in_range(mantissa as int) && scale <= MAX_SCALE,
            r matches Some(d) ==> d.wf() && d.spec_mantissa() == mantissa && d.spec_scale()
                == scale && d@ == value_of(mantissa as int, scale as nat),
    {
        if -MAX_MANTISSA <= mantissa && mantissa <= MAX_MANTISSA && scale <= MAX_SCALE {
            Some(Decimal { mantissa, scale })
        } else {
            None
        }
    }

    /// Zero.
    pub fn zero() -> (r: Decimal)
        ensures
            r@ == 0,
            r.wf(),
            r.spec_mantissa() == 0 && r.spec_scale() == 0,
    {
        Decimal { mantissa: 0, scale: 0 }
    }

    /// The whole number `n`.
    pub fn from_u32(n: u32) -> (r: Decimal)
        ensures
            r@ == n * ONE,
            r.wf(),
            r.spec_mantissa() == n && r.spec_scale() == 0,
    {
        proof {
            lemma_one();
        }
        Decimal { mantissa: n as i128, scale: 0 }
    }

    /// The whole number `n`, where it fits.
    pub(crate) fn from_integer(n: i128) -> (r: Decimal)
        requires
            in_range(n as int),
        ensures
            r@ == n * ONE,
            r.wf(),
            r.spec_mantissa() == n && r.spec_scale() == 0,
    {
        proof {
            lemma_one();
        }
        Decimal { mantissa: n, scale: 0 }
    }

    /// The stored mantissa.
    pub fn mantissa(&self) -> (r: i128)
        ensures
            r == self.spec_mantissa(),
    {
        self.mantissa
    }

    /// The stored scale.
    pub fn scale(&self) -> (r: u32)
        ensures
            r == self.spec_scale(),
    {
        self.scale
    }

    /// Whether the value is zero.
    pub fn is_zero(&self) -> (r: bool)
        ensures
            r == (self@ == 0),
    {
        proof {
            lemma_pow10_positive((MAX_SCALE - self.scale) as nat);
            let p = pow10((MAX_SCALE - self.scale) as nat);
            assert((self.mantissa * p == 0) == (self.mantissa == 0)) by (nonlinear_arith)
                requires p > 0;
        }
        self.mantissa == 0
    }

    /// Whole part and fraction in units: the value is `q * ONE + f` with
    /// `0 <= f < ONE`.
    pub(crate) fn split(&self) -> (r: (i128, i128))
        ensures
            self@ == r.0 * ONE + r.1,
            0 <= r.1 < ONE,
            in_range(r.0 as int),
    {
        proof {
            use_type_invariant(self);
        }
        let p = pow10_i128(self.scale);
        let k = pow10_i128(MAX_SCALE - self.scale);
        proof {
            lemma_fundamental_div_mod(self.mantissa as int, p as int);
            lemma_mod_bound(self.mantissa as int, p as int);
            let q = self.mantissa as int / p as int;
            let m = self.mantissa as int % p as int;
            assert(-MAX_MANTISSA <= q <= MAX_MANTISSA) by (nonlinear_arith)
                requires self.mantissa as int == p * q + m, 0 <= m < p, p >= 1,
                    in_range(self.mantissa as int);
        }
        let q = self.mantissa.checked_div_euclid(p).unwrap();
        let m = self.mantissa.checked_rem_euclid(p).unwrap();
        proof {
            lemma_pow10_add(self.scale as nat, (MAX_SCALE - self.scale) as nat);
            assert(self.scale as nat + (MAX_SCALE - self.scale) as nat == MAX_SCALE as nat);
            lemma_one();
            assert(p * k == ONE);
            assert(m * k < ONE) by (nonlinear_arith)
                requires 0 <= m < p, p * k == ONE, k > 0;
            assert(0 <= m * k) by (nonlinear_arith)
                requires 0 <= m, k > 0;
            assert(self.mantissa * k == q * ONE + m * k) by (nonlinear_arith)
                requires self.mantissa as int == p * q + m, p * k == ONE;
        }
        (q, m * k)
    }

    /// Whether this number is at most `other`.
    pub fn le(&self, other: &Decimal) -> (r: bool)
        ensures
            r == (self@ <= other@),
    {
        let (q1, f1) = self.split();
        let (q2, f2) = other.split();
        proof {
            lemma_split_order(q1 as int, f1 as int, q2 as int, f2 as int, ONE as int);
        }
        q1 < q2 || (q1 == q2 && f1 <= f2)
    }

    /// `k` times this number, rounded to a whole number (ties to even),
    /// where that fits.
    pub fn mul_round(&self, k: u16) -> (r: Option<Decimal>)
        ensures
            r is Some <==> in_range(round_to_multiple(self@ * k, ONE as int) / ONE as int),
            r matches Some(d) ==> d.wf() && d@ == round_to_multiple(self@ * k, ONE as int)
                && d.spec_scale() == 0 && d.spec_mantissa() == round_to_multiple(
                self@ * k,
                ONE as int,
            ) / ONE as int,
    {
        let (q, f) = self.split();
        let kk = k as i128;
        proof {
            assert(0 <= f * kk < ONE * 0x1_0000) by (nonlinear_arith)
                requires 0 <= f < ONE, 0 <= kk < 0x1_0000;
            assert(-MAX_MANTISSA * 0x1_0000 <= q * kk <= MAX_MANTISSA * 0x1_0000)
                by (nonlinear_arith)
                requires in_range(q as int), 0 <= kk < 0x1_0000;
        }
        let g = f * kk;
        let a = g.checked_div_euclid(ONE).unwrap();
        let b = g.checked_rem_euclid(ONE).unwrap();
        proof {
            lemma_fundamental_div_mod(g as int, ONE as int);
            lemma_mod_bound(g as int, ONE as int);
            assert(0 <= a < 0x1_0000) by (nonlinear_arith)
                requires g as int == ONE * a + b, 0 <= b < ONE, 0 <= g < ONE * 0x1_0000;
        }
        let c = q * kk + a;
        let up = !(2 * b < ONE || (2 * b == ONE && c.checked_rem_euclid(2).unwrap() == 0));
        let n = if up { c + 1 } else { c };
        proof {
            assert(self@ * k == c * ONE + b) by (nonlinear_arith)
                requires self@ == q * ONE + f, g == f * kk, g == ONE * a + b, c == q * kk + a,
                    kk == k;
            lemma_round_parts(c as int, b as int, ONE as int);
            assert(round_to_multiple(self@ * k, ONE as int) == n * ONE);
            assert((n * ONE) / (ONE as int) == n) by (nonlinear_arith);
        }
        if -MAX_MANTISSA <= n && n <= MAX_MANTISSA {
            Some(Decimal::from_integer(n))
        } else {
            None
        }
    }
}

/// What `rust_decimal` reads from a text: mantissa and scale, or nothing.
pub uninterp spec fn parsed_decimal(text: Seq<char>) -> Option<(i128, u32)>;

/// How `rust_decimal` writes the number `mantissa * 10^-scale`.
pub uninterp spec fn decimal_text_of(mantissa: int, scale: int) -> Seq<char>;

/// Relies on `rust_decimal::Decimal::from_str_exact`, `mantissa` and
/// `scale`: reads decimal text without rounding; a `Decimal` holds a
/// mantissa of 96 bits and a scale of at most 28.
#[verifier::external_body]
fn parse_exact(text: &str) -> (r: Option<(i128, u32)>)
    ensures
        r == parsed_decimal(text@),
        r matches Some((m, s)) ==> in_range(m as int) && s <= MAX_SCALE,
{
    match rust_decimal::Decimal::from_str_exact(text) {
        Ok(d) => Some((d.mantissa(), d.scale())),
        Err(_) => None,
    }
}

/// Relies on `rust_decimal::Decimal::from_i128_with_scale` and its `Display`:
/// writes `mantissa * 10^-scale` with `scale` fractional digits.
#[verifier::external_body]
fn decimal_text(mantissa: i128, scale: u32) -> (r: String)
    requires
        in_range(mantissa as int),
        scale <= MAX_SCALE,
    ensures
        r@ == decimal_text_of(mantissa as int, scale as int),
{
    rust_decimal::Decimal::from_i128_with_scale(mantissa, scale).to_string()
}

impl Decimal {
    /// Reads a decimal text exactly, as `rust_decimal` does.
    pub fn parse(text: &str) -> (r: Result<Decimal, crate::error::Error>)
        ensures
            r is Ok <==> parsed_decimal(text@) is Some,
            r matches Ok(d) ==> (parsed_decimal(text@) matches Some((m, s)) && d.wf()
                && d.spec_mantissa() == m && d.spec_scale() == s && d@ == value_of(
                m as int,
                s as nat,
            )),
            r is Err ==> (r matches Err(crate::error::Error::Decimal(t)) && t@ == text@),
    {
        match parse_exact(text) {
            Some((m, s)) => Ok(Decimal { mantissa: m, scale: s }),
            None => Err(crate::error::Error::Decimal(text.to_string())),
        }
    }

    /// The number written in base ten with its stored digits.
    pub fn to_text(&self) -> (r: String)
        ensures
            r@ == self.text_view(),
    {
        proof {
            use_type_invariant(self);
        }
        decimal_text(self.mantissa, self.scale)
    }
}

/// A decimal number other than zero.
#[derive(Debug, Clone, Copy, PartialEq, Eq)]
pub struct NonZeroDecimal(Decimal);

impl View for NonZeroDecimal {
    type V = int;

    closed spec fn view(&self) -> int {
        self.0@
    }
}

impl NonZeroDecimal {
    pub open spec fn wf(&self) -> bool {
        self.spec_get().wf() && self@ != 0 && self@ == self.spec_get()@
    }

    /// Reads a decimal text exactly; zero, in any form, is refused.
    pub fn parse(text: &str) -> (r: Result<NonZeroDecimal, crate::error::Error>)
        ensures
            r is Ok <==> (parsed_decimal(text@) matches Some((m, s)) && m != 0),
            r matches Ok(d) ==> (parsed_decimal(text@) matches Some((m, s)) && d.wf()
                && d.spec_get().spec_mantissa() == m && d.spec_get().spec_scale() == s),
            r is Err ==> (r matches Err(crate::error::Error::Decimal(t)) && t@ == text@),
    {
        let d = Decimal::parse(text)?;
        proof {
            use_type_invariant(&d);
            lemma_pow10_positive((MAX_SCALE - d.spec_scale()) as nat);
            let p = pow10((MAX_SCALE - d.spec_scale()) as nat);
            assert((d.spec_mantissa() * p == 0) == (d.spec_mantissa() == 0)) by (nonlinear_arith)
                requires p > 0;
        }
        match NonZeroDecimal::try_new(d) {
            Some(n) => Ok(n),
            None => Err(crate::error::Error::Decimal(text.to_string())),
        }
    }

    /// Wraps `value` unless it is zero.
    pub fn try_new(value: Decimal) -> (r: Option<NonZeroDecimal>)
        ensures
            r is Some <==> value@ != 0,
            r matches Some(d) ==> d.wf() && d@ == value@ && d.spec_get() == value,
    {
        proof {
            use_type_invariant(&value);
        }
        if value.is_zero() {
            None
        } else {
            Some(NonZeroDecimal(value))
        }
    }

    /// The wrapped number, in contracts.
    pub closed spec fn spec_get(&self) -> Decimal {
        self.0
    }

    /// The wrapped number.
    pub fn get(&self) -> (r: Decimal)
        ensures
            r == self.spec_get(),
            r@ == self@,
    {
        self.0
    }
}

} // verus!
