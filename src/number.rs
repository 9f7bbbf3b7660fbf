//! Numbers of the language: fractions over 64-bit integers, kept in lowest
//! terms, extended with the two infinities and NaN. Every operation yields a
//! number: division by zero gives an infinity or NaN, a result beyond the
//! largest finite magnitude gives an infinity, and a result whose exact
//! fraction does not fit is rounded to a nearby one that does.
use vstd::prelude::*;
use crate::token_type::string_of_chars;

verus! {

/// The mathematical value of a number: `num / den` when `den > 0`. When
/// `den == 0`, `num` is 1 for positive infinity, -1 for negative infinity
/// and 0 for NaN.
pub struct NumV {
    pub num: int,
    pub den: int,
}

pub open spec fn sgn(x: int) -> int {
    if x > 0 {
        1
    } else if x < 0 {
        -1
    } else {
        0
    }
}

pub open spec fn nan() -> NumV {
    NumV { num: 0, den: 0 }
}

pub open spec fn inf(s: int) -> NumV {
    NumV { num: s, den: 0 }
}

pub open spec fn is_nan(a: NumV) -> bool {
    a.den == 0 && a.num == 0
}

pub open spec fn is_inf(a: NumV) -> bool {
    a.den == 0 && a.num != 0
}

pub open spec fn is_zero(a: NumV) -> bool {
    a.den > 0 && a.num == 0
}

/// The shape every number value has.
pub open spec fn num_wf(a: NumV) -> bool {
    &&& a.den >= 0
    &&& a.den == 0 ==> -1 <= a.num <= 1
}

/// Whether a value is held by a `Number`: numerator and denominator of at
/// most `i64::MAX` in magnitude, so that every number can be negated.
pub open spec fn fits(a: NumV) -> bool {
    &&& -i64::MAX <= a.num <= i64::MAX
    &&& 0 <= a.den <= i64::MAX
}

/// Greatest common divisor (Euclid).
pub open spec fn gcd(a: nat, b: nat) -> nat
    decreases b,
{
    if b == 0 {
        a
    } else {
        gcd(b, a % b)
    }
}

/// The fraction `n / d` (`d > 0`) in lowest terms.
pub open spec fn reduced(n: int, d: int) -> NumV {
    let g = gcd(abs(n), d as nat);
    let m = (abs(n) / g) as int;
    NumV { num: if n < 0 { -m } else { m }, den: (d as nat / g) as int }
}

/// Halves numerator and denominator (rounding down) until both fit; a
/// denominator that reaches 1 first leaves the largest finite magnitude.
pub open spec fn shrink(m: nat, d: nat) -> (nat, nat)
    decreases d,
{
    if m <= i64::MAX && d <= i64::MAX {
        (m, d)
    } else if d <= 1 {
        (i64::MAX as nat, 1)
    } else {
        shrink(m / 2, d / 2)
    }
}

/// The number for the exact fraction `n / d` (`d > 0`): the fraction in
/// lowest terms when it fits; an infinity of the sign of `n` when its
/// magnitude exceeds `i64::MAX`; otherwise the fraction rounded by `shrink`.
pub open spec fn fit(n: int, d: int) -> NumV {
    let r = reduced(n, d);
    if fits(r) {
        r
    } else if abs(r.num) > i64::MAX * r.den {
        inf(sgn(n))
    } else {
        let (m, e) = shrink(abs(r.num), r.den as nat);
        NumV { num: if n < 0 { -(m as int) } else { m as int }, den: e as int }
    }
}

pub open spec fn num_neg(a: NumV) -> NumV {
    NumV { num: -a.num, den: a.den }
}

pub open spec fn num_add(a: NumV, b: NumV) -> NumV {
    if is_nan(a) || is_nan(b) {
        nan()
    } else if is_inf(a) && is_inf(b) {
        if a.num == b.num {
            a
        } else {
            nan()
        }
    } else if is_inf(a) {
        a
    } else if is_inf(b) {
        b
    } else {
        fit(a.num * b.den + b.num * a.den, a.den * b.den)
    }
}

pub open spec fn num_sub(a: NumV, b: NumV) -> NumV {
    num_add(a, num_neg(b))
}

pub open spec fn num_mul(a: NumV, b: NumV) -> NumV {
    if is_nan(a) || is_nan(b) {
        nan()
    } else if is_inf(a) || is_inf(b) {
        if is_zero(a) || is_zero(b) {
            nan()
        } else {
            inf(sgn(a.num) * sgn(b.num))
        }
    } else {
        fit(a.num * b.num, a.den * b.den)
    }
}

/// Division; a zero divisor counts as positive when the dividend is infinite.
pub open spec fn num_div(a: NumV, b: NumV) -> NumV {
    if is_nan(a) || is_nan(b) || (is_inf(a) && is_inf(b)) {
        nan()
    } else if is_inf(a) {
        inf(if b.num < 0 { -a.num } else { a.num })
    } else if is_inf(b) {
        NumV { num: 0, den: 1 }
    } else if b.num == 0 {
        if a.num == 0 {
            nan()
        } else {
            inf(sgn(a.num))
        }
    } else if b.num > 0 {
        fit(a.num * b.den, a.den * b.num)
    } else {
        fit(-(a.num * b.den), a.den * (-b.num))
    }
}

/// Numeric equality: NaN equals nothing, infinities equal themselves.
pub open spec fn num_eq(a: NumV, b: NumV) -> bool {
    if is_nan(a) || is_nan(b) {
        false
    } else if is_inf(a) || is_inf(b) {
        a.den == b.den && a.num == b.num
    } else {
        a.num * b.den == b.num * a.den
    }
}

/// Strict order: NaN is unordered, the infinities bound every finite value.
pub open spec fn num_lt(a: NumV, b: NumV) -> bool {
    if is_nan(a) || is_nan(b) {
        false
    } else if is_inf(a) {
        a.num < 0 && !(is_inf(b) && b.num < 0)
    } else if is_inf(b) {
        b.num > 0
    } else {
        a.num * b.den < b.num * a.den
    }
}

pub open spec fn num_le(a: NumV, b: NumV) -> bool {
    num_lt(a, b) || num_eq(a, b)
}

/// The character for a decimal digit.
pub open spec fn digit_char(d: int) -> char {
    if d == 0 {
        '0'
    } else if d == 1 {
        '1'
    } else if d == 2 {
        '2'
    } else if d == 3 {
        '3'
    } else if d == 4 {
        '4'
    } else if d == 5 {
        '5'
    } else if d == 6 {
        '6'
    } else if d == 7 {
        '7'
    } else if d == 8 {
        '8'
    } else {
        '9'
    }
}

pub open spec fn is_digit(c: char) -> bool {
    '0' <= c && c <= '9'
}

/// The value of a decimal digit character.
pub open spec fn digit_value(c: char) -> int {
    c as int - '0' as int
}

/// Decimal digits of a natural number, most significant first.
pub open spec fn nat_text(n: nat) -> Seq<char>
    decreases n,
{
    if n < 10 {
        seq![digit_char(n as int)]
    } else {
        nat_text(n / 10).push(digit_char((n % 10) as int))
    }
}

/// The first `k` digits of the decimal expansion of `r / d` (with `r < d`),
/// stopping early once the expansion ends.
pub open spec fn frac_text(r: nat, d: nat, k: nat) -> Seq<char>
    decreases k,
{
    if k == 0 || r == 0 || d == 0 {
        Seq::empty()
    } else {
        seq![digit_char(((r * 10) / d) as int)] + frac_text((r * 10) % d, d, (k - 1) as nat)
    }
}

/// How many fractional digits are shown at most.
pub const FRACTION_DIGITS: usize = 16;

pub open spec fn abs(x: int) -> nat {
    if x < 0 {
        (-x) as nat
    } else {
        x as nat
    }
}

/// The text of a number: integers without a decimal point, other finite
/// values with their decimal expansion (at most 16 fractional digits), and
/// `inf`, `-inf`, `NaN`.
pub open spec fn num_text(a: NumV) -> Seq<char> {
    if a.den == 0 {
        if a.num > 0 {
            seq!['i', 'n', 'f']
        } else if a.num < 0 {
            seq!['-', 'i', 'n', 'f']
        } else {
            seq!['N', 'a', 'N']
        }
    } else {
        let m = abs(a.num);
        let d = a.den as nat;
        let sign = if a.num < 0 { seq!['-'] } else { Seq::<char>::empty() };
        let frac = if m % d == 0 {
            Seq::<char>::empty()
        } else {
            seq!['.'] + frac_text(m % d, d, FRACTION_DIGITS as nat)
        };
        sign + nat_text(m / d) + frac
    }
}

/// Whether every character of `s` is a decimal digit.
pub open spec fn all_digits(s: Seq<char>) -> bool {
    forall|i: int| 0 <= i < s.len() ==> is_digit(#[trigger] s[i])
}

/// Value of a string of decimal digits.
pub open spec fn digits_value(s: Seq<char>) -> int
    decreases s.len(),
{
    if s.len() == 0 {
        0
    } else {
        digits_value(s.drop_last()) * 10 + digit_value(s.last())
    }
}

pub open spec fn pow10(k: nat) -> int
    decreases k,
{
    if k == 0 {
        1
    } else {
        10 * pow10((k - 1) as nat)
    }
}

/// The exact value of the decimal literal `int_digits.frac_digits`.
pub open spec fn decimal_value(int_digits: Seq<char>, frac_digits: Seq<char>) -> NumV {
    NumV { num: digits_value(int_digits + frac_digits), den: pow10(frac_digits.len()) }
}

/// How many fractional digits of a literal are kept: as many as fit.
pub open spec fn frac_kept(int_digits: Seq<char>, frac_digits: Seq<char>, k: int) -> int
    decreases frac_digits.len() - k,
{
    if 0 <= k < frac_digits.len() && fits(decimal_value(int_digits, frac_digits.subrange(0, k + 1))) {
        frac_kept(int_digits, frac_digits, k + 1)
    } else {
        k
    }
}

/// The value of the literal `int_digits.frac_digits`: positive infinity
/// when its whole part exceeds `i64::MAX`, otherwise its value with the
/// fractional digits cut after the last one that still fits.
pub open spec fn literal_value(int_digits: Seq<char>, frac_digits: Seq<char>) -> NumV {
    if digits_value(int_digits) > i64::MAX {
        inf(1)
    } else {
        decimal_value(int_digits, frac_digits.subrange(0, frac_kept(int_digits, frac_digits, 0)))
    }
}

/// A number of the language.
#[derive(Clone, Copy, Debug)]
pub struct Number {
    num: i64,
    den: i64,
}

impl View for Number {
    type V = NumV;

    closed spec fn view(&self) -> NumV {
        NumV { num: self.num as int, den: self.den as int }
    }
}

proof fn lemma_mul_bound(x: int, y: int)
    requires
        -0x8000_0000_0000_0000 <= x <= 0x8000_0000_0000_0000,
        -0x8000_0000_0000_0000 <= y <= 0x8000_0000_0000_0000,
    ensures
        -0x4000_0000_0000_0000_0000_0000_0000_0000 <= x * y <= 0x4000_0000_0000_0000_0000_0000_0000_0000,
{
    assert(-0x4000_0000_0000_0000_0000_0000_0000_0000 <= x * y <= 0x4000_0000_0000_0000_0000_0000_0000_0000)
        by (nonlinear_arith)
        requires
            -0x8000_0000_0000_0000 <= x <= 0x8000_0000_0000_0000,
            -0x8000_0000_0000_0000 <= y <= 0x8000_0000_0000_0000,
    ;
}

/// A product with a denominator (at most `i64::MAX`) stays below 2^126.
proof fn lemma_mul_den_bound(x: int, y: int)
    requires
        -0x8000_0000_0000_0000 <= x <= 0x8000_0000_0000_0000,
        0 <= y <= 0x7fff_ffff_ffff_ffff,
    ensures
        -0x4000_0000_0000_0000_0000_0000_0000_0000 < x * y < 0x4000_0000_0000_0000_0000_0000_0000_0000,
{
    assert(-0x4000_0000_0000_0000_0000_0000_0000_0000 < x * y < 0x4000_0000_0000_0000_0000_0000_0000_0000)
        by (nonlinear_arith)
        requires
            -0x8000_0000_0000_0000 <= x <= 0x8000_0000_0000_0000,
            0 <= y <= 0x7fff_ffff_ffff_ffff,
    ;
}

proof fn lemma_den_product_pos(x: int, y: int)
    requires
        x > 0,
        y > 0,
    ensures
        x * y > 0,
{
    assert(x * y > 0) by (nonlinear_arith)
        requires
            x > 0,
            y > 0,
    ;
}

impl Number {
    #[verifier::type_invariant]
    spec fn inv(self) -> bool {
        num_wf(self@) && fits(self@)
    }

    /// The integer `n` (`i64::MIN` is beyond the largest finite magnitude).
    pub fn from_int(n: i64) -> (r: Number)
        ensures
            r@ == fit(n as int, 1),
    {
        Number::finite(n as i128, 1)
    }

    /// The number for the exact fraction `n / d` (see `fit`).
    fn finite(n: i128, d: i128) -> (r: Number)
        requires
            n > i128::MIN,
            d > 0,
        ensures
            r@ == fit(n as int, d as int),
    {
        let m: u128 = if n < 0 { (-n) as u128 } else { n as u128 };
        let g = gcd_u128(m, d as u128);
        proof {
            lemma_gcd_bounds(m as nat, d as nat);
        }
        let q = m / g;
        let e = d as u128 / g;
        assert(e >= 1) by (nonlinear_arith)
            requires
                e == d as u128 / g,
                0 < g <= d,
        ;
        let ghost r = reduced(n as int, d as int);
        assert(abs(r.num) == q as nat && r.den == e as int);
        if q <= i64::MAX as u128 && e <= i64::MAX as u128 {
            let num: i128 = if n < 0 { -(q as i128) } else { q as i128 };
            return Number { num: num as i64, den: e as i64 };
        }
        let whole = q / e;
        let rest = q % e;
        proof {
            lemma_magnitude(q as int, e as int);
        }
        if whole > i64::MAX as u128 || (whole == i64::MAX as u128 && rest > 0) {
            assert(q > 0);
            return Number::special(if n < 0 { -1 } else { 1 });
        }
        let mut a = q;
        let mut b = e;
        loop
            invariant
                b >= 1,
                shrink(a as nat, b as nat) == shrink(q as nat, e as nat),
            ensures
                (a as nat, b as nat) == shrink(q as nat, e as nat),
            decreases b,
        {
            if a <= i64::MAX as u128 && b <= i64::MAX as u128 {
                break;
            }
            if b <= 1 {
                a = i64::MAX as u128;
                b = 1;
                break;
            }
            a = a / 2;
            b = b / 2;
        }
        proof {
            lemma_shrink_bounds(q as nat, e as nat);
        }
        let num: i128 = if n < 0 { -(a as i128) } else { a as i128 };
        Number { num: num as i64, den: b as i64 }
    }

    fn special(s: i64) -> (r: Number)
        requires
            -1 <= s <= 1,
        ensures
            r@ == inf(s as int),
    {
        Number { num: s, den: 0 }
    }

    pub fn is_nan(&self) -> (r: bool)
        ensures
            r == is_nan(self@),
    {
        self.den == 0 && self.num == 0
    }

    pub fn is_infinite(&self) -> (r: bool)
        ensures
            r == is_inf(self@),
    {
        self.den == 0 && self.num != 0
    }

    /// Whether the number is exactly zero.
    pub fn is_zero(&self) -> (r: bool)
        ensures
            r == is_zero(self@),
    {
        self.den > 0 && self.num == 0
    }

    pub fn neg(&self) -> (r: Number)
        ensures
            r@ == num_neg(self@),
    {
        proof {
            use_type_invariant(self);
        }
        Number { num: -self.num, den: self.den }
    }

    pub fn add(&self, o: &Number) -> (r: Number)
        ensures
            r@ == num_add(self@, o@),
    {
        proof {
            use_type_invariant(self);
            use_type_invariant(o);
        }
        if self.is_nan() || o.is_nan() {
            Number::special(0)
        } else if self.is_infinite() && o.is_infinite() {
            if self.num == o.num {
                *self
            } else {
                Number::special(0)
            }
        } else if self.is_infinite() {
            *self
        } else if o.is_infinite() {
            *o
        } else {
            proof {
                lemma_mul_den_bound(self.num as int, o.den as int);
                lemma_mul_den_bound(o.num as int, self.den as int);
                lemma_mul_bound(self.den as int, o.den as int);
                lemma_den_product_pos(self.den as int, o.den as int);
            }
            let n = (self.num as i128) * (o.den as i128) + (o.num as i128) * (self.den as i128);
            let d = (self.den as i128) * (o.den as i128);
            Number::finite(n, d)
        }
    }

    pub fn sub(&self, o: &Number) -> (r: Number)
        ensures
            r@ == num_sub(self@, o@),
    {
        self.add(&o.neg())
    }

    pub fn mul(&self, o: &Number) -> (r: Number)
        ensures
            r@ == num_mul(self@, o@),
    {
        proof {
            use_type_invariant(self);
            use_type_invariant(o);
        }
        if self.is_nan() || o.is_nan() {
            Number::special(0)
        } else if self.is_infinite() || o.is_infinite() {
            if self.is_zero() || o.is_zero() {
                Number::special(0)
            } else {
                let s: i64 = if (self.num > 0) == (o.num > 0) { 1 } else { -1 };
                proof {
                    assert(self.num != 0 && o.num != 0);
                    if self.num > 0 {
                        if o.num > 0 {
                            assert(sgn(self.num as int) * sgn(o.num as int) == 1 * 1);
                        } else {
                            assert(sgn(self.num as int) * sgn(o.num as int) == 1 * -1);
                        }
                    } else {
                        if o.num > 0 {
                            assert(sgn(self.num as int) * sgn(o.num as int) == -1 * 1);
                        } else {
                            assert(sgn(self.num as int) * sgn(o.num as int) == -1 * -1);
                        }
                    }
                }
                Number::special(s)
            }
        } else {
            proof {
                lemma_mul_bound(self.num as int, o.num as int);
                lemma_mul_bound(self.den as int, o.den as int);
                lemma_den_product_pos(self.den as int, o.den as int);
            }
            let n = (self.num as i128) * (o.num as i128);
            let d = (self.den as i128) * (o.den as i128);
            Number::finite(n, d)
        }
    }

    pub fn div(&self, o: &Number) -> (r: Number)
        ensures
            r@ == num_div(self@, o@),
    {
        proof {
            use_type_invariant(self);
            use_type_invariant(o);
        }
        if self.is_nan() || o.is_nan() || (self.is_infinite() && o.is_infinite()) {
            Number::special(0)
        } else if self.is_infinite() {
            Number::special(if o.num < 0 { -self.num } else { self.num })
        } else if o.is_infinite() {
            Number { num: 0, den: 1 }
        } else if o.num == 0 {
            if self.num == 0 {
                Number::special(0)
            } else {
                Number::special(if self.num > 0 { 1 } else { -1 })
            }
        } else {
            proof {
                lemma_mul_bound(self.num as int, o.den as int);
                lemma_mul_bound(self.den as int, o.num as int);
                lemma_mul_bound(self.den as int, -(o.num as int));
            }
            if o.num > 0 {
                proof {
                    lemma_den_product_pos(self.den as int, o.num as int);
                }
                let n = (self.num as i128) * (o.den as i128);
                let d = (self.den as i128) * (o.num as i128);
                Number::finite(n, d)
            } else {
                proof {
                    lemma_den_product_pos(self.den as int, -(o.num as int));
                }
                let n = -((self.num as i128) * (o.den as i128));
                let d = (self.den as i128) * (-(o.num as i128));
                Number::finite(n, d)
            }
        }
    }

    /// Numeric equality.
    pub fn num_eq(&self, o: &Number) -> (r: bool)
        ensures
            r == num_eq(self@, o@),
    {
        proof {
            use_type_invariant(self);
            use_type_invariant(o);
            lemma_mul_bound(self.num as int, o.den as int);
            lemma_mul_bound(o.num as int, self.den as int);
        }
        if self.is_nan() || o.is_nan() {
            false
        } else if self.is_infinite() || o.is_infinite() {
            self.den == o.den && self.num == o.num
        } else {
            (self.num as i128) * (o.den as i128) == (o.num as i128) * (self.den as i128)
        }
    }

    /// Strict numeric order.
    pub fn num_lt(&self, o: &Number) -> (r: bool)
        ensures
            r == num_lt(self@, o@),
    {
        proof {
            use_type_invariant(self);
            use_type_invariant(o);
            lemma_mul_bound(self.num as int, o.den as int);
            lemma_mul_bound(o.num as int, self.den as int);
        }
        if self.is_nan() || o.is_nan() {
            false
        } else if self.is_infinite() {
            self.num < 0 && !(o.is_infinite() && o.num < 0)
        } else if o.is_infinite() {
            o.num > 0
        } else {
            (self.num as i128) * (o.den as i128) < (o.num as i128) * (self.den as i128)
        }
    }

    pub fn num_le(&self, o: &Number) -> (r: bool)
        ensures
            r == num_le(self@, o@),
    {
        self.num_lt(o) || self.num_eq(o)
    }

    /// The number's text (see `num_text`).
    pub fn render(&self) -> (r: String)
        ensures
            r@ == num_text(self@),
    {
        proof {
            use_type_invariant(self);
        }
        if self.den == 0 {
            if self.num > 0 {
                string_of_chars(&['i', 'n', 'f'])
            } else if self.num < 0 {
                string_of_chars(&['-', 'i', 'n', 'f'])
            } else {
                string_of_chars(&['N', 'a', 'N'])
            }
        } else {
            let m: u128 = if self.num < 0 { (-(self.num as i128)) as u128 } else { self.num as u128 };
            let d: u128 = self.den as u128;
            let mut r = String::new();
            if self.num < 0 {
                r.push('-');
            }
            let whole = nat_string(m / d);
            r.append(whole.as_str());
            let rem = m % d;
            if rem != 0 {
                r.push('.');
                let f = frac_string(rem, d);
                r.append(f.as_str());
            }
            assert(r@ =~= num_text(self@));
            r
        }
    }

    /// The number written `int_digits.frac_digits` (no point when
    /// `frac_digits` is empty), see `literal_value`.
    pub fn from_digits(int_digits: &[char], frac_digits: &[char]) -> (r: Number)
        requires
            all_digits(int_digits@),
            all_digits(frac_digits@),
        ensures
            r@ == literal_value(int_digits@, frac_digits@),
    {
        let ghost ip = int_digits@;
        let ghost fp = frac_digits@;
        let mut num: i64 = 0;
        let mut i: usize = 0;
        while i < int_digits.len()
            invariant
                ip == int_digits@,
                i <= ip.len(),
                all_digits(ip),
                0 <= num,
                num as int == digits_value(ip.subrange(0, i as int)),
            decreases ip.len() - i,
        {
            assert(is_digit(ip[i as int]));
            let v = (int_digits[i] as u32 - '0' as u32) as i64;
            assert(ip.subrange(0, i + 1).drop_last() =~= ip.subrange(0, i as int));
            if num > (i64::MAX - v) / 10 {
                proof {
                    lemma_digits_value_prefix(ip, i + 1);
                }
                return Number::special(1);
            }
            num = num * 10 + v;
            i = i + 1;
        }
        assert(ip.subrange(0, ip.len() as int) =~= ip);
        assert(ip + fp.subrange(0, 0) =~= ip);
        let mut den: i64 = 1;
        let mut k: usize = 0;
        let mut full = false;
        while k < frac_digits.len() && !full
            invariant
                ip == int_digits@,
                fp == frac_digits@,
                k <= fp.len(),
                all_digits(fp),
                0 <= num,
                1 <= den,
                num as int == digits_value(ip + fp.subrange(0, k as int)),
                den as int == pow10(k as nat),
                full ==> frac_kept(ip, fp, 0) == k,
                !full ==> frac_kept(ip, fp, 0) == frac_kept(ip, fp, k as int),
            decreases fp.len() - k, if full { 0int } else { 1int },
        {
            assert(is_digit(fp[k as int]));
            let v = (frac_digits[k] as u32 - '0' as u32) as i64;
            assert((ip + fp.subrange(0, k + 1)).drop_last() =~= ip + fp.subrange(0, k as int));
            assert((ip + fp.subrange(0, k + 1)).last() == fp[k as int]);
            if num > (i64::MAX - v) / 10 || den > i64::MAX / 10 {
                full = true;
            } else {
                num = num * 10 + v;
                den = den * 10;
                k = k + 1;
            }
        }
        Number { num, den }
    }
}

proof fn lemma_digits_value_nonneg(s: Seq<char>)
    requires
        all_digits(s),
    ensures
        digits_value(s) >= 0,
    decreases s.len(),
{
    if s.len() > 0 {
        assert(is_digit(s[s.len() - 1]));
        lemma_digits_value_nonneg(s.drop_last());
    }
}

/// A prefix of a digit string is worth no more than the whole.
proof fn lemma_digits_value_prefix(s: Seq<char>, k: int)
    requires
        all_digits(s),
        0 <= k <= s.len(),
    ensures
        digits_value(s.subrange(0, k)) <= digits_value(s),
    decreases s.len(),
{
    if k == s.len() {
        assert(s.subrange(0, k) =~= s);
    } else {
        assert(is_digit(s[s.len() - 1]));
        lemma_digits_value_nonneg(s.drop_last());
        lemma_digits_value_prefix(s.drop_last(), k);
        assert(s.drop_last().subrange(0, k) =~= s.subrange(0, k));
    }
}

/// `q > i64::MAX * e` read off the quotient and remainder of `q / e`.
proof fn lemma_magnitude(q: int, e: int)
    requires
        q >= 0,
        e > 0,
    ensures
        (q > i64::MAX * e) <==> (q / e > i64::MAX || (q / e == i64::MAX && q % e > 0)),
{
    vstd::arithmetic::div_mod::lemma_fundamental_div_mod(q, e);
    let w = q / e;
    let r = q % e;
    assert((q > i64::MAX * e) <==> (w > i64::MAX || (w == i64::MAX && r > 0))) by (nonlinear_arith)
        requires
            q == e * w + r,
            0 <= r < e,
            e > 0,
    ;
}

proof fn lemma_shrink_bounds(m: nat, d: nat)
    requires
        d >= 1,
    ensures
        shrink(m, d).0 <= i64::MAX,
        1 <= shrink(m, d).1 <= i64::MAX,
    decreases d,
{
    if !(m <= i64::MAX && d <= i64::MAX) && d > 1 {
        lemma_shrink_bounds(m / 2, d / 2);
    }
}

/// The divisor of a positive denominator is positive and no larger.
proof fn lemma_gcd_bounds(a: nat, b: nat)
    requires
        b > 0,
    ensures
        0 < gcd(a, b) <= b,
    decreases b,
{
    assert(gcd(a, b) == gcd(b, a % b));
    if a % b != 0 {
        lemma_gcd_bounds(b, a % b);
    } else {
        assert(gcd(b, 0) == b);
    }
}

fn gcd_u128(a: u128, b: u128) -> (r: u128)
    ensures
        r == gcd(a as nat, b as nat),
{
    let mut x = a;
    let mut y = b;
    while y != 0
        invariant
            gcd(x as nat, y as nat) == gcd(a as nat, b as nat),
        decreases y,
    {
        let t = x % y;
        x = y;
        y = t;
    }
    x
}

/// Decimal digits of `n` (see `nat_text`).
pub fn nat_string(n: u128) -> (r: String)
    ensures
        r@ == nat_text(n as nat),
    decreases n,
{
    if n < 10 {
        let mut r = String::new();
        r.push(digit_to_char(n as u8));
        assert(r@ =~= nat_text(n as nat));
        r
    } else {
        let mut r = nat_string(n / 10);
        r.push(digit_to_char((n % 10) as u8));
        r
    }
}

/// Fractional digits of `rem / d` (see `frac_text`).
fn frac_string(rem: u128, d: u128) -> (r: String)
    requires
        0 < rem < d,
        d <= i64::MAX,
    ensures
        r@ == frac_text(rem as nat, d as nat, FRACTION_DIGITS as nat),
{
    let mut r = String::new();
    let mut x: u128 = rem;
    let mut k: usize = 0;
    while k < FRACTION_DIGITS && x != 0
        invariant
            k <= FRACTION_DIGITS,
            x < d,
            d <= i64::MAX,
            0 < d,
            r@ + frac_text(x as nat, d as nat, (FRACTION_DIGITS - k) as nat) == frac_text(
                rem as nat,
                d as nat,
                FRACTION_DIGITS as nat,
            ),
        decreases FRACTION_DIGITS - k,
    {
        let digit = (x * 10) / d;
        assert(digit < 10) by (nonlinear_arith)
            requires
                x < d,
                digit as int == (x as int * 10) / (d as int),
                0 < d,
        ;
        let ghost before = r@;
        r.push(digit_to_char(digit as u8));
        let next = (x * 10) % d;
        proof {
            assert(frac_text(x as nat, d as nat, (FRACTION_DIGITS - k) as nat) == seq![
                digit_char((x as int * 10) / (d as int)),
            ] + frac_text(next as nat, d as nat, (FRACTION_DIGITS - (k + 1)) as nat));
            assert(r@ + frac_text(next as nat, d as nat, (FRACTION_DIGITS - (k + 1)) as nat)
                =~= before + frac_text(x as nat, d as nat, (FRACTION_DIGITS - k) as nat));
        }
        x = next;
        k = k + 1;
    }
    assert(frac_text(x as nat, d as nat, (FRACTION_DIGITS - k) as nat) =~= Seq::<char>::empty());
    assert(r@ =~= r@ + Seq::<char>::empty());
    r
}

/// The character for a decimal digit.
pub fn digit_to_char(d: u8) -> (c: char)
    requires
        d < 10,
    ensures
        c == digit_char(d as int),
{
    match d {
        0 => '0',
        1 => '1',
        2 => '2',
        3 => '3',
        4 => '4',
        5 => '5',
        6 => '6',
        7 => '7',
        8 => '8',
        _ => '9',
    }
}

} // verus!
