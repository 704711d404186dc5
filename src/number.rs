use vstd::prelude::*;

verus! {

/// An exact fraction `num / den`, the library's number. A denominator below
/// one reads as one, so every `Number` denotes a rational value.
#[derive(Debug, Clone, Copy, PartialEq, Eq)]
pub struct Number {
    pub num: i64,
    pub den: i64,
}

impl Number {
    /// The numerator as a mathematical integer.
    pub open spec fn n(self) -> int {
        self.num as int
    }

    /// The denominator in effect (never below one).
    pub open spec fn d(self) -> int {
        if self.den < 1 {
            1
        } else {
            self.den as int
        }
    }

    /// The whole number `n`.
    pub fn whole(n: i64) -> (r: Number)
        ensures
            r.num == n,
            r.den == 1,
    {
        Number { num: n, den: 1 }
    }

    /// The fraction `n / d`, if `d` is at least one.
    pub fn ratio(n: i64, d: i64) -> (r: Option<Number>)
        ensures
            d >= 1 <==> r is Some,
            r is Some ==> r->0.num == n && r->0.den == d,
    {
        if d >= 1 {
            Some(Number { num: n, den: d })
        } else {
            None
        }
    }

    fn den_in_effect(self) -> (r: i64)
        ensures
            r as int == self.d(),
    {
        if self.den < 1 {
            1
        } else {
            self.den
        }
    }

    /// Whether the value is zero.
    pub fn is_zero(self) -> (r: bool)
        ensures
            r == (self.n() == 0),
    {
        self.num == 0
    }

    /// Whether `self` and `other` denote the same rational value.
    pub fn same_value(self, other: Number) -> (r: bool)
        ensures
            r == num_eq(self, other),
    {
        proof {
            lemma_cross_bound(self.num as int, other.d());
            lemma_cross_bound(other.num as int, self.d());
        }
        let l = (self.num as i128) * (other.den_in_effect() as i128);
        let g = (other.num as i128) * (self.den_in_effect() as i128);
        l == g
    }

    /// Whether `self` is strictly below `other`.
    pub fn less_than(self, other: Number) -> (r: bool)
        ensures
            r == num_lt(self, other),
    {
        proof {
            lemma_cross_bound(self.num as int, other.d());
            lemma_cross_bound(other.num as int, self.d());
        }
        let l = (self.num as i128) * (other.den_in_effect() as i128);
        let g = (other.num as i128) * (self.den_in_effect() as i128);
        l < g
    }

    /// The exact sum in lowest terms, when that is representable.
    pub fn checked_add(self, other: Number) -> (r: Option<Number>)
        ensures
            r is Some <==> fits(reduce(add_parts(self.n(), self.d(), other))),
            r is Some ==> r->0.n() == reduce(add_parts(self.n(), self.d(), other)).0 && r->0.den as int
                == reduce(add_parts(self.n(), self.d(), other)).1,
    {
        let a = self.den_in_effect();
        let b = other.den_in_effect();
        proof {
            lemma_cross_bound(self.num as int, b as int);
            lemma_cross_bound(other.num as int, a as int);
            lemma_cross_bound(a as int, b as int);
            assert(a as int * b as int >= 1) by (nonlinear_arith)
                requires
                    a >= 1,
                    b >= 1,
            ;
        }
        let (n, d): (i128, i128) = if a == b {
            (self.num as i128 + other.num as i128, a as i128)
        } else {
            (
                (self.num as i128) * (b as i128) + (other.num as i128) * (a as i128),
                (a as i128) * (b as i128),
            )
        };
        reduced_number(n, d)
    }

    /// The value divided by the count `k` (at least one), in lowest terms,
    /// when that is representable.
    pub fn checked_div_count(self, k: usize) -> (r: Option<Number>)
        requires
            k >= 1,
        ensures
            r is Some <==> fits(reduce((self.n(), self.d() * k))),
            r is Some ==> r->0.n() == reduce((self.n(), self.d() * k)).0 && r->0.den as int == reduce(
                (self.n(), self.d() * k),
            ).1,
    {
        let a = self.den_in_effect();
        proof {
            assert(1 <= a as int * k as int <= 0x7fff_ffff_ffff_ffff * 0xffff_ffff_ffff_ffff) by (nonlinear_arith)
                requires
                    1 <= a <= 0x7fff_ffff_ffff_ffff,
                    1 <= k <= 0xffff_ffff_ffff_ffff,
            ;
        }
        let d = ((a as u128) * (k as u128)) as i128;
        reduced_number(self.num as i128, d)
    }

    /// The absolute value, when representable.
    pub fn checked_abs(self) -> (r: Option<Number>)
        ensures
            r is Some <==> self.num != i64::MIN,
            r is Some ==> r->0.n() == abs_int(self.n()) && r->0.den == self.den,
    {
        if self.num == i64::MIN {
            None
        } else if self.num < 0 {
            Some(Number { num: -self.num, den: self.den })
        } else {
            Some(self)
        }
    }

    /// The greatest whole number not above the value.
    pub fn floor(self) -> (r: Number)
        ensures
            r.n() == floor_of(self),
            r.den == 1,
    {
        let d = self.den_in_effect() as i128;
        let n = self.num as i128;
        let q: i128 = if n >= 0 {
            n / d
        } else {
            let m = -n;
            let t = (m + d - 1) / d;
            proof {
                lemma_floor_negative(n as int, d as int);
            }
            -t
        };
        proof {
            lemma_floor_range(n as int, d as int);
        }
        Number { num: q as i64, den: 1 }
    }

    /// The least whole number not below the value.
    pub fn ceil(self) -> (r: Number)
        ensures
            r.n() == ceil_of(self),
            r.den == 1,
    {
        let d = self.den_in_effect() as i128;
        let n = self.num as i128;
        let m = -n;
        let q: i128 = if m >= 0 {
            m / d
        } else {
            let t = (-m + d - 1) / d;
            proof {
                lemma_floor_negative(m as int, d as int);
            }
            -t
        };
        proof {
            lemma_floor_range(m as int, d as int);
        }
        Number { num: (-q) as i64, den: 1 }
    }
}

/// `a == b` as rational values.
pub open spec fn num_eq(a: Number, b: Number) -> bool {
    a.n() * b.d() == b.n() * a.d()
}

/// `a < b` as rational values.
pub open spec fn num_lt(a: Number, b: Number) -> bool {
    a.n() * b.d() < b.n() * a.d()
}

/// Whether a numerator and denominator can stand in a `Number` as they are.
pub open spec fn fits(p: (int, int)) -> bool {
    i64::MIN <= p.0 <= i64::MAX && 1 <= p.1 <= i64::MAX
}

/// The sum of `n / d` and `b`, over a shared denominator when both have the
/// same one, else over the product of the two.
pub open spec fn add_parts(n: int, d: int, b: Number) -> (int, int) {
    if d == b.d() {
        (n + b.n(), d)
    } else {
        (n * b.d() + b.n() * d, d * b.d())
    }
}

/// Greatest common divisor, by Euclid's algorithm.
pub open spec fn gcd(a: nat, b: nat) -> nat
    decreases b,
{
    if b == 0 {
        a
    } else {
        gcd(b, a % b)
    }
}

/// The fraction `p.0 / p.1` (with `p.1` at least one) in lowest terms: both
/// parts divided by their greatest common divisor.
pub open spec fn reduce(p: (int, int)) -> (int, int) {
    let g = gcd(abs_int(p.0) as nat, p.1 as nat);
    if g == 0 {
        p
    } else {
        let m = abs_int(p.0) / g as int;
        (if p.0 < 0 {
            -m
        } else {
            m
        }, p.1 / g as int)
    }
}

pub open spec fn abs_int(n: int) -> int {
    if n < 0 {
        -n
    } else {
        n
    }
}

/// Rounded toward negative infinity (`/` on `int` is Euclidean division).
pub open spec fn floor_of(x: Number) -> int {
    x.n() / x.d()
}

/// Rounded toward positive infinity.
pub open spec fn ceil_of(x: Number) -> int {
    -((-x.n()) / x.d())
}

/// The greatest common divisor divides both arguments.
pub proof fn lemma_gcd_divides(a: nat, b: nat)
    requires
        a > 0 || b > 0,
    ensures
        gcd(a, b) > 0,
        a % gcd(a, b) == 0,
        b % gcd(a, b) == 0,
    decreases b,
{
    if b == 0 {
        vstd::arithmetic::div_mod::lemma_mod_self_0(a as int);
    } else {
        let r = a % b;
        lemma_gcd_divides(b, r);
        let g = gcd(b, r);
        vstd::arithmetic::div_mod::lemma_fundamental_div_mod(a as int, b as int);
        vstd::arithmetic::div_mod::lemma_fundamental_div_mod(b as int, g as int);
        vstd::arithmetic::div_mod::lemma_fundamental_div_mod(r as int, g as int);
        let q = a as int / b as int;
        let x = b as int / g as int;
        let y = r as int / g as int;
        assert(a as int == (q * x + y) * g) by (nonlinear_arith)
            requires
                a as int == b as int * q + r as int,
                b as int == g as int * x,
                r as int == g as int * y,
        ;
        vstd::arithmetic::div_mod::lemma_mod_multiples_basic(q * x + y, g as int);
    }
}

/// Lowest terms denote the same rational value, over a positive denominator.
pub proof fn lemma_reduce_keeps_value(n: int, d: int)
    requires
        d >= 1,
    ensures
        reduce((n, d)).1 >= 1,
        reduce((n, d)).0 * d == n * reduce((n, d)).1,
{
    let m = abs_int(n);
    lemma_gcd_divides(m as nat, d as nat);
    let g = gcd(m as nat, d as nat) as int;
    vstd::arithmetic::div_mod::lemma_fundamental_div_mod(m, g);
    vstd::arithmetic::div_mod::lemma_fundamental_div_mod(d, g);
    let u = m / g;
    let e = d / g;
    assert(e >= 1 && u * d == m * e) by (nonlinear_arith)
        requires
            m == g * u,
            d == g * e,
            g >= 1,
            d >= 1,
    ;
    let r0 = if n < 0 { -u } else { u };
    assert(reduce((n, d)) == (r0, e));
    assert(r0 * d == n * e) by (nonlinear_arith)
        requires
            u * d == m * e,
            r0 == (if n < 0 { -u } else { u }),
            m == (if n < 0 { -n } else { n }),
    ;
}

fn gcd_exec(a: u128, b: u128) -> (r: u128)
    ensures
        r == gcd(a as nat, b as nat),
    decreases b,
{
    if b == 0 {
        a
    } else {
        gcd_exec(b, a % b)
    }
}

/// `n / d` in lowest terms, if that fits in a `Number`.
fn reduced_number(n: i128, d: i128) -> (r: Option<Number>)
    requires
        d >= 1,
        -0x7fff_ffff_ffff_ffff_ffff_ffff_ffff_ffff <= n,
    ensures
        r is Some <==> fits(reduce((n as int, d as int))),
        r is Some ==> r->0.n() == reduce((n as int, d as int)).0 && r->0.den as int == reduce(
            (n as int, d as int),
        ).1,
{
    let m: u128 = if n < 0 {
        (-n) as u128
    } else {
        n as u128
    };
    let g = gcd_exec(m, d as u128);
    if g == 0 {
        return pair_to_number(n, d);
    }
    let q = m / g;
    let e = (d as u128) / g;
    proof {
        assert(q <= m && e <= d) by (nonlinear_arith)
            requires
                g >= 1,
                q == m / g,
                e == (d as u128) / g,
                d >= 1,
        ;
    }
    let num: i128 = if n < 0 {
        -(q as i128)
    } else {
        q as i128
    };
    pair_to_number(num, e as i128)
}

fn pair_to_number(n: i128, d: i128) -> (r: Option<Number>)
    ensures
        r is Some <==> fits((n as int, d as int)),
        r is Some ==> r->0.n() == n && r->0.den == d,
{
    if n >= i64::MIN as i128 && n <= i64::MAX as i128 && d >= 1 && d <= i64::MAX as i128 {
        Some(Number { num: n as i64, den: d as i64 })
    } else {
        None
    }
}

proof fn lemma_cross_bound(a: int, b: int)
    requires
        i64::MIN <= a <= i64::MAX,
        1 <= b <= i64::MAX,
    ensures
        -0x4000_0000_0000_0000_0000_0000_0000_0000 < a * b < 0x4000_0000_0000_0000_0000_0000_0000_0000,
{
    assert(-0x8000_0000_0000_0000 * b <= a * b <= 0x7fff_ffff_ffff_ffff * b) by (nonlinear_arith)
        requires
            i64::MIN <= a <= i64::MAX,
            1 <= b,
    ;
    assert(0x8000_0000_0000_0000 * b <= 0x8000_0000_0000_0000 * 0x7fff_ffff_ffff_ffff) by (nonlinear_arith)
        requires
            1 <= b <= 0x7fff_ffff_ffff_ffff,
    ;
}

proof fn lemma_floor_negative(n: int, d: int)
    requires
        n < 0,
        d >= 1,
    ensures
        -((-n + d - 1) / d) == n / d,
{
    let q = n / d;
    let r = n % d;
    assert(n == q * d + r && 0 <= r < d) by (nonlinear_arith)
        requires
            d >= 1,
            q == n / d,
            r == n % d,
    ;
    assert(-n + d - 1 == (-q) * d + (d - 1 - r)) by (nonlinear_arith)
        requires
            n == q * d + r,
    ;
    assert((-n + d - 1) / d == -q) by (nonlinear_arith)
        requires
            -n + d - 1 == (-q) * d + (d - 1 - r),
            0 <= d - 1 - r < d,
    ;
}

proof fn lemma_floor_range(n: int, d: int)
    requires
        d >= 1,
    ensures
        n >= 0 ==> 0 <= n / d <= n,
        n < 0 ==> n <= n / d < 0,
{
    assert(n >= 0 ==> 0 <= n / d <= n) by (nonlinear_arith)
        requires
            d >= 1,
    ;
    assert(n < 0 ==> n <= n / d < 0) by (nonlinear_arith)
        requires
            d >= 1,
    ;
}

} // verus!
