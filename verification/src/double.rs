//! Double-precision arithmetic on whole numbers: the nearest double to a ratio, and what it
//! prints as with one decimal. A double is a whole number of 53 bits times a power of two, and
//! every operation gives the double nearest to the exact result, the even one of two as near.
use vstd::arithmetic::div_mod::{lemma_fundamental_div_mod, lemma_fundamental_div_mod_converse};
use vstd::arithmetic::power2::{
    lemma2_to64, lemma2_to64_rest, lemma_pow2_adds, lemma_pow2_pos, lemma_pow2_strictly_increases,
    lemma_pow2_unfold, pow2,
};
use vstd::prelude::*;

verus! {

/// The whole number nearest to `a / b`, the even one of two as near.
pub open spec fn half_even(a: nat, b: nat) -> nat {
    let q = a / b;
    let r = a % b;
    if 2 * r < b || (2 * r == b && q % 2 == 0) {
        q
    } else {
        q + 1
    }
}

/// How finely values are counted: this many units make one.
pub open spec fn unit() -> nat {
    pow2(200)
}

/// The power of two that a double as large as `v` units is a multiple of: `v` has 53 bits above
/// it.
pub open spec fn spacing(v: nat) -> nat
    decreases v,
{
    if v < pow2(53) {
        0
    } else {
        proof {
            lemma_pow2_pos(53);
        }
        1 + spacing(v / 2)
    }
}

/// The double nearest to `num / den`, in units.
pub open spec fn nearest(num: nat, den: nat) -> nat {
    let t = spacing(num * unit() / den);
    half_even(num * unit(), den * pow2(t)) * pow2(t)
}

/// Rounding depends on the ratio alone.
pub proof fn lemma_half_even_ratio(a: nat, b: nat, c: nat, d: nat)
    requires
        b > 0,
        d > 0,
        a * d == c * b,
    ensures
        half_even(a, b) == half_even(c, d),
        a / b == c / d,
{
    let q = (c / d) as int;
    let r = (c % d) as int;
    lemma_fundamental_div_mod(c as int, d as int);
    let rest = a - q * b;
    assert(rest * d == b * r) by (nonlinear_arith)
        requires
            rest == a - q * b,
            a * d == c * b,
            c == d * q + r,
    ;
    assert(0 <= rest < b) by (nonlinear_arith)
        requires
            rest * d == b * r,
            0 <= r < d,
            b > 0,
            d > 0,
    ;
    assert(a == q * b + rest);
    lemma_fundamental_div_mod_converse(a as int, b as int, q, rest);
    assert(2 * rest < b <==> 2 * r < d) by (nonlinear_arith)
        requires
            rest * d == b * r,
            b > 0,
            d > 0,
    ;
    assert(2 * rest == b <==> 2 * r == d) by (nonlinear_arith)
        requires
            rest * d == b * r,
            b > 0,
            d > 0,
    ;
}

/// A number of exactly 53 bits above `2^t` has the spacing `t`.
pub proof fn lemma_spacing(v: nat, t: nat)
    requires
        pow2(t + 52) <= v < pow2(t + 53),
    ensures
        spacing(v) == t,
    decreases t,
{
    if t > 0 {
        lemma_pow2_unfold(t + 53);
        lemma_pow2_unfold(t + 52);
        lemma_pow2_strictly_increases(53, t + 53);
        if t + 52 > 53 {
            lemma_pow2_strictly_increases(53, t + 52);
        }
        lemma_spacing(v / 2, (t - 1) as nat);
    }
}

/// What the nearest double is, where the ratio is known to lie between two powers of two.
pub proof fn lemma_nearest(num: nat, den: nat, t: nat, n: nat, d: nat)
    requires
        den > 0,
        d > 0,
        num * unit() * d == n * (den * pow2(t)),
        pow2(52) * d <= n < pow2(53) * d,
    ensures
        nearest(num, den) == half_even(n, d) * pow2(t),
{
    let u = num * unit();
    let p = pow2(t);
    lemma_pow2_pos(t);
    lemma_pow2_adds(52, t);
    lemma_pow2_adds(53, t);
    assert(den * p > 0) by (nonlinear_arith)
        requires
            den > 0,
            p > 0,
    ;
    lemma_half_even_ratio(u, den * p, n, d);
    // The ratio, in units, has 53 bits above `2^t`.
    assert(u >= pow2(52) * (den * p)) by (nonlinear_arith)
        requires
            u * d == n * (den * p),
            pow2(52) * d <= n,
            d > 0,
            den * p > 0,
    ;
    assert(u < pow2(53) * (den * p)) by (nonlinear_arith)
        requires
            u * d == n * (den * p),
            n < pow2(53) * d,
            d > 0,
            den * p > 0,
    ;
    assert(pow2(52) * (den * p) == pow2(t + 52) * den) by (nonlinear_arith)
        requires
            pow2(52) * p == pow2(t + 52),
    ;
    assert(pow2(53) * (den * p) == pow2(t + 53) * den) by (nonlinear_arith)
        requires
            pow2(53) * p == pow2(t + 53),
    ;
    let v = u / den;
    lemma_fundamental_div_mod(u as int, den as int);
    assert(pow2(t + 52) <= v) by (nonlinear_arith)
        requires
            u >= pow2(t + 52) * den,
            u == den * v + u % den,
            u % den < den,
            den > 0,
    ;
    assert(v < pow2(t + 53)) by (nonlinear_arith)
        requires
            u < pow2(t + 53) * den,
            u == den * v + u % den,
            u % den >= 0,
            den > 0,
    ;
    lemma_spacing(v, t);
}

/// A double: `m` times two to the power `e`.
#[derive(Clone, Copy, Debug)]
pub struct Double {
    m: u64,
    e: i32,
}

impl Double {
    /// The value, in units.
    pub closed spec fn units(self) -> nat {
        (self.m * pow2((200 + self.e) as nat)) as nat
    }

    /// The value is zero, or `m` has 53 bits.
    pub closed spec fn wf(self) -> bool {
        &&& self.m == 0 || 0x10_0000_0000_0000 <= self.m < 0x20_0000_0000_0000
        &&& -126 <= self.e <= 60
    }
}

/// The whole number nearest to `n / d`, the even one of two as near.
pub fn round_half_even(n: u128, d: u128) -> (r: u128)
    requires
        0 < d,
        d <= 0x4000_0000_0000_0000_0000_0000_0000_0000,
        n < 0xffff_ffff_ffff_ffff_ffff_ffff_ffff_ffff,
    ensures
        r == half_even(n as nat, d as nat),
        r <= n / d + 1,
        r >= n / d,
{
    let q: u128 = n / d;
    let r: u128 = n % d;
    assert(q <= n) by (nonlinear_arith)
        requires
            q == n / d,
            d > 0,
    ;
    if 2 * r < d || (2 * r == d && q % 2 == 0) {
        q
    } else {
        q + 1
    }
}

/// Two to the power `k`.
fn power(k: u32) -> (r: u128)
    requires
        k < 128,
    ensures
        r == pow2(k as nat),
        r > 0,
{
    let mut r: u128 = 1;
    let mut i: u32 = 0;
    proof {
        lemma2_to64();
    }
    while i < k
        invariant
            i <= k < 128,
            r == pow2(i as nat),
            r > 0,
        decreases k - i,
    {
        proof {
            lemma_pow2_unfold((i + 1) as nat);
            lemma_pow2_strictly_increases((i + 1) as nat, 128);
            lemma_pow2_128();
        }
        r = r * 2;
        i += 1;
    }
    r
}

proof fn lemma_pow2_128()
    ensures
        pow2(128) == 0x1_0000_0000_0000_0000_0000_0000_0000_0000,
        pow2(52) == 0x10_0000_0000_0000,
        pow2(53) == 0x20_0000_0000_0000,
        pow2(54) == 0x40_0000_0000_0000,
        pow2(64) == 0x1_0000_0000_0000_0000,
        pow2(0) == 1,
        pow2(1) == 2,
{
    lemma2_to64();
    lemma2_to64_rest();
    lemma_pow2_adds(64, 64);
}

/// `num / den` scaled by a power of two so that its whole part has 53 bits.
fn fit(num: u64, den: u64) -> (r: (u128, u128, i32))
    requires
        num > 0,
        0 < den < 0x40_0000_0000_0000,
    ensures
        ({
            let (n, d, k) = r;
            &&& -12 <= k <= 106
            &&& d > 0
            &&& k >= 0 ==> n == num * pow2(k as nat) && d == den
            &&& k <= 0 ==> n == num && d == den * pow2((-k) as nat)
            &&& 0x10_0000_0000_0000 * d <= n < 0x20_0000_0000_0000 * d
            &&& d <= 0x40_0000_0000_0000
        }),
{
    let mut n: u128 = num as u128;
    let mut d: u128 = den as u128;
    let mut k: i32 = 0;
    proof {
        lemma_pow2_128();
        assert(pow2((-k) as nat) == 1);
        assert(den * 1 == den && num * 1 == num);
    }
    if n >= 0x20_0000_0000_0000 * d {
        while n >= 0x20_0000_0000_0000 * d
            invariant
                n == num,
                0 < d <= 0x1000,
                d == den * pow2((-k) as nat),
                -12 <= k <= 0,
                0x10_0000_0000_0000 * d <= n,
                pow2((-k) as nat) <= d,
            decreases 0x1000 - d,
        {
            proof {
                lemma_pow2_unfold((-k + 1) as nat);
                lemma_pow2_128();
                assert(den * (2 * pow2((-k) as nat)) == 2 * (den * pow2((-k) as nat)))
                    by (nonlinear_arith);
                assert(d <= 0x7ff);
                if k == -12 {
                    lemma2_to64();
                    assert(pow2(12) == 4096);
                }
            }
            d = d * 2;
            k = k - 1;
        }
    } else {
        while n < 0x10_0000_0000_0000 * d
            invariant
                d == den,
                0 < den < 0x40_0000_0000_0000,
                num > 0,
                0 <= k <= 106,
                n == num * pow2(k as nat),
                n < 0x20_0000_0000_0000 * d,
                pow2(k as nat) <= n,
                n > 0,
            decreases 107 - k,
        {
            proof {
                lemma_pow2_unfold((k + 1) as nat);
                lemma_pow2_128();
                assert(num * (2 * pow2(k as nat)) == 2 * (num * pow2(k as nat)))
                    by (nonlinear_arith);
                if k == 106 {
                    lemma_pow2_adds(52, 54);
                    assert(false);
                }
            }
            n = n * 2;
            k = k + 1;
        }
    }
    proof {
        lemma_pow2_128();
        if k == 0 {
            assert(pow2((-k) as nat) == 1);
            assert(pow2(k as nat) == 1);
            assert(den * 1 == den && num * 1 == num);
        }
    }
    (n, d, k)
}

/// The double `m * 2^e`, where rounding may have given `m` one bit more.
fn settled(m: u64, e: i32) -> (r: Double)
    requires
        0x10_0000_0000_0000 <= m <= 0x20_0000_0000_0000,
        -126 <= e < 60,
    ensures
        r.wf(),
        r.m > 0,
        r.units() == m * pow2((200 + e) as nat),
        r.e == e || (m == 0x20_0000_0000_0000 && r.e == e + 1),
        m < 0x20_0000_0000_0000 ==> r.m == m && r.e == e,
{
    if m == 0x20_0000_0000_0000 {
        proof {
            lemma_pow2_unfold((200 + e + 1) as nat);
            assert(0x20_0000_0000_0000 * pow2((200 + e) as nat) == 0x10_0000_0000_0000 * (2 * pow2(
                (200 + e) as nat,
            )));
        }
        Double { m: 0x10_0000_0000_0000, e: e + 1 }
    } else {
        Double { m, e }
    }
}

/// The nearest double to nothing is nothing.
proof fn lemma_nearest_zero(den: nat)
    requires
        den > 0,
    ensures
        nearest(0, den) == 0,
{
    lemma_pow2_128();
    let u = 0 * unit();
    assert(u == 0);
    assert(0nat / den == 0) by (nonlinear_arith)
        requires
            den > 0,
    ;
    assert(spacing(0) == 0);
    assert(den * pow2(0) == den) by (nonlinear_arith)
        requires
            pow2(0) == 1,
    ;
    assert(0nat % den == 0) by (nonlinear_arith)
        requires
            den > 0,
    ;
}

/// The products that relate a scaled ratio to its units.
proof fn lemma_scale(num: nat, den: nat, k: int, n: nat, d: nat, a: nat, b: nat, t: nat)
    requires
        k >= 0 ==> n == num * pow2(k as nat) && d == den,
        k < 0 ==> n == num && d == den * pow2((-k) as nat),
        t + k == a - b + 200,
    ensures
        (num * pow2(a)) * unit() * d == n * ((den * pow2(b)) * pow2(t)),
{
    let (pa, pb, pt, u) = (pow2(a), pow2(b), pow2(t), pow2(200));
    lemma_pow2_adds(a, 200);
    lemma_pow2_adds(b, t);
    if k >= 0 {
        let pk = pow2(k as nat);
        lemma_pow2_adds(k as nat, b + t);
        assert(pk * (pb * pt) == pa * u);
        assert((num * pa) * u * den == (num * pk) * ((den * pb) * pt)) by (nonlinear_arith)
            requires
                pk * (pb * pt) == pa * u,
        ;
    } else {
        let pk = pow2((-k) as nat);
        lemma_pow2_adds((-k) as nat, a + 200);
        assert(pk * (pa * u) == pb * pt);
        assert((num * pa) * u * (den * pk) == num * ((den * pb) * pt)) by (nonlinear_arith)
            requires
                pk * (pa * u) == pb * pt,
        ;
    }
}

/// The double nearest to `num / den`.
pub fn nearest_ratio(num: u64, den: u64) -> (r: Double)
    requires
        0 < den < 0x40_0000_0000_0000,
    ensures
        r.wf(),
        r.small(),
        r.units() == nearest(num as nat, den as nat),
{
    if num == 0 {
        proof {
            lemma_nearest_zero(den as nat);
        }
        return Double { m: 0, e: 0 };
    }
    let (n, d, k) = fit(num, den);
    proof {
        lemma_pow2_128();
        lemma_rounding_range(n as nat, d as nat);
        lemma_scale(num as nat, den as nat, k as int, n as nat, d as nat, 0, 0, (200 - k) as nat);
        assert(num * pow2(0) == num && den * pow2(0) == den);
        lemma_nearest(num as nat, den as nat, (200 - k) as nat, n as nat, d as nat);
    }
    let m: u128 = round_half_even(n, d);
    settled(m as u64, -k)
}

proof fn lemma_rounding_range(n: nat, d: nat)
    requires
        d > 0,
        0x10_0000_0000_0000 * d <= n < 0x20_0000_0000_0000 * d,
    ensures
        0x10_0000_0000_0000 <= half_even(n, d) <= 0x20_0000_0000_0000,
        0x10_0000_0000_0000 <= n / d < 0x20_0000_0000_0000,
{
    lemma_fundamental_div_mod(n as int, d as int);
    let q = n / d;
    assert(0x10_0000_0000_0000 <= q) by (nonlinear_arith)
        requires
            0x10_0000_0000_0000 * d <= n,
            n == d * q + n % d,
            n % d < d,
            d > 0,
    ;
    assert(q < 0x20_0000_0000_0000) by (nonlinear_arith)
        requires
            n < 0x20_0000_0000_0000 * d,
            n == d * q + n % d,
            n % d >= 0,
            d > 0,
    ;
}

impl Double {
    /// A double is the nearest double to itself.
    proof fn lemma_exact(self)
        requires
            self.wf(),
        ensures
            nearest(self.units(), unit()) == self.units(),
    {
        lemma_pow2_128();
        lemma_pow2_pos(200);
        if self.m == 0 {
            lemma_nearest_zero(unit());
        } else {
            let t = (200 + self.e) as nat;
            let m = self.m as nat;
            lemma_scale(m, 1, 0, m, 1, t, 200, t);
            assert(m * pow2(0) == m);
            assert(1 * pow2(200) == pow2(200));
            lemma_nearest(self.units(), unit(), t, m, 1);
            assert(half_even(m, 1) == m);
        }
    }

    /// A thousand times the value.
    pub fn thousandfold(self) -> (r: Double)
        requires
            self.wf(),
            self.small(),
        ensures
            r.wf(),
            r.units() == nearest(self.units() * 1000, unit()),
    {
        if self.m == 0 {
            proof {
                lemma_pow2_pos(200);
                lemma_nearest_zero(unit());
            }
            return self;
        }
        let num: u64 = self.m * 1000;
        let (n, d, k) = fit(num, 1);
        let ghost t = (200 + self.e - k) as nat;
        let ghost a = (200 + self.e) as nat;
        proof {
            lemma_pow2_128();
            lemma_pow2_pos(200);
            lemma_rounding_range(n as nat, d as nat);
            assert(k <= 0) by {
                if k > 0 {
                    lemma_pow2_unfold(k as nat);
                    lemma_pow2_pos((k - 1) as nat);
                    assert(n >= num * 2) by (nonlinear_arith)
                        requires
                            n == num * (2 * pow2((k - 1) as nat)),
                            pow2((k - 1) as nat) >= 1,
                    ;
                }
            }
            lemma_scale(num as nat, 1, k as int, n as nat, d as nat, a, 200, t);
            assert(num * pow2(a) == self.units() * 1000) by (nonlinear_arith)
                requires
                    num == self.m * 1000,
                    self.units() == self.m * pow2(a),
            ;
            assert(1 * pow2(200) == unit());
            lemma_nearest(self.units() * 1000, unit(), t, n as nat, d as nat);
        }
        let m: u128 = round_half_even(n, d);
        settled(m as u64, self.e - k)
    }

    /// Small enough that a thousandfold is still counted.
    pub closed spec fn small(self) -> bool {
        -106 <= self.e <= 30
    }

    /// The value in tenths, rounded to a whole number, the even one of two as near: what it
    /// prints as with one decimal.
    pub fn tenths(self) -> (r: u128)
        requires
            self.wf(),
        ensures
            r == half_even(self.units() * 10, unit()),
    {
        let num: u128 = self.m as u128 * 10;
        let ghost a = (200 + self.e) as nat;
        proof {
            lemma_pow2_128();
            lemma_pow2_pos(200);
            assert(num * pow2(a) == self.units() * 10) by (nonlinear_arith)
                requires
                    num == self.m * 10,
                    self.units() == self.m * pow2(a),
            ;
        }
        if self.e >= 0 {
            let p: u128 = power(self.e as u32);
            proof {
                lemma_pow2_adds(200, self.e as nat);
                if self.e < 60 {
                    lemma_pow2_strictly_increases(self.e as nat, 60);
                }
                lemma_pow2_strictly_increases(60, 64);
                assert(num * p < 0x140_0000_0000_0000 * 0x1_0000_0000_0000_0000)
                    by (nonlinear_arith)
                    requires
                        0 <= num < 0x140_0000_0000_0000,
                        0 <= p < 0x1_0000_0000_0000_0000,
                ;
                assert((num * pow2(a)) * 1 == (num * p) * unit()) by (nonlinear_arith)
                    requires
                        unit() * p == pow2(a),
                ;
                lemma_half_even_ratio((num * pow2(a)) as nat, unit(), (num * p) as nat, 1);
            }
            num * p
        } else {
            let p: u128 = power((-self.e) as u32);
            proof {
                lemma_pow2_adds(a, (-self.e) as nat);
                if self.e > -126 {
                    lemma_pow2_strictly_increases((-self.e) as nat, 126);
                }
                lemma_pow2_adds(64, 62);
                lemma2_to64_rest();
                assert((num * pow2(a)) * p == num * unit()) by (nonlinear_arith)
                    requires
                        pow2(a) * p == unit(),
                ;
                lemma_half_even_ratio((num * pow2(a)) as nat, unit(), num as nat, p as nat);
            }
            round_half_even(num, p)
        }
    }
}

/// A span of `secs` seconds and `nanos` nanoseconds as a double of seconds, in units: both parts
/// rounded, then their sum.
pub open spec fn seconds_units(secs: nat, nanos: nat) -> nat {
    nearest(nearest(secs, 1) + nearest(nanos, 1_000_000_000), unit())
}

/// The nearest double to a whole number of seconds.
fn whole(secs: u64) -> (r: Double)
    requires
        secs > 0,
    ensures
        r.wf(),
        r.m > 0,
        r.units() == nearest(secs as nat, 1),
        -52 <= r.e <= 13,
        r.e <= 0 ==> r.m == secs * pow2((-r.e) as nat),
{
    let (n, d, k) = fit(secs, 1);
    proof {
        lemma_pow2_128();
        lemma_rounding_range(n as nat, d as nat);
        lemma_scale(secs as nat, 1, k as int, n as nat, d as nat, 0, 0, (200 - k) as nat);
        assert(secs * pow2(0) == secs && 1 * pow2(0) == 1);
        lemma_nearest(secs as nat, 1, (200 - k) as nat, n as nat, d as nat);
        if k >= 0 {
            assert(half_even(n as nat, 1) == n);
            if k > 52 {
                if k > 53 {
                    lemma_pow2_strictly_increases(53, k as nat);
                }
                assert(secs * pow2(k as nat) >= pow2(k as nat)) by (nonlinear_arith)
                    requires
                        secs >= 1,
                        pow2(k as nat) >= 0,
                ;
            }
        }
    }
    let m: u128 = round_half_even(n, d);
    settled(m as u64, -k)
}

/// The nearest double to a part of a second that is not nothing.
fn fraction(nanos: u32) -> (r: Double)
    requires
        0 < nanos < 1_000_000_000,
    ensures
        r.wf(),
        r.m > 0,
        r.units() == nearest(nanos as nat, 1_000_000_000),
        -106 <= r.e <= -53,
        r.m < pow2((-r.e) as nat),
{
    let (n, d, k) = fit(nanos as u64, 1_000_000_000);
    proof {
        lemma_pow2_128();
        lemma_rounding_range(n as nat, d as nat);
        lemma_scale(
            nanos as nat,
            1_000_000_000,
            k as int,
            n as nat,
            d as nat,
            0,
            0,
            (200 - k) as nat,
        );
        assert(nanos * pow2(0) == nanos && 1_000_000_000 * pow2(0) == 1_000_000_000);
        lemma_nearest(nanos as nat, 1_000_000_000, (200 - k) as nat, n as nat, d as nat);
        // Less than one, and by more than rounding can add.
        let p = pow2((if k < 0 {
            0
        } else {
            k
        }) as nat);
        assert(k > 0);
        assert(n <= 999_999_999 * p) by (nonlinear_arith)
            requires
                n == nanos * p,
                nanos <= 999_999_999,
        ;
        assert(k >= 53) by {
            if k < 53 {
                if k < 52 {
                    lemma_pow2_strictly_increases(k as nat, 52);
                }
            }
        }
        if k > 53 {
            lemma_pow2_strictly_increases(53, k as nat);
        }
        lemma_fundamental_div_mod(n as int, d as int);
        assert(half_even(n as nat, d as nat) < p);
        lemma_pow2_unfold(k as nat);
        if k > 54 {
            lemma_pow2_strictly_increases(54, k as nat);
        }
    }
    let m: u128 = round_half_even(n, d);
    settled(m as u64, -k)
}

/// `secs` seconds and `nanos` nanoseconds as a double of seconds.
pub fn seconds(secs: u64, nanos: u32) -> (r: Double)
    requires
        nanos < 1_000_000_000,
    ensures
        r.wf(),
        r.small(),
        r.units() == seconds_units(secs as nat, nanos as nat),
        r.is_zero() == (secs == 0 && nanos == 0),
{
    proof {
        lemma_nearest_zero(1);
        lemma_nearest_zero(1_000_000_000);
    }
    if secs == 0 && nanos == 0 {
        proof {
            lemma_pow2_pos(200);
            lemma_nearest_zero(unit());
        }
        return Double { m: 0, e: 0 };
    }
    if secs == 0 {
        let f = fraction(nanos);
        proof {
            f.lemma_exact();
        }
        return f;
    }
    let w = whole(secs);
    if nanos == 0 {
        proof {
            w.lemma_exact();
        }
        return w;
    }
    let f = fraction(nanos);
    let s: i32 = w.e - f.e;
    proof {
        lemma_pow2_128();
        lemma_pow2_strictly_increases(s as nat, 126);
        lemma_pow2_adds(64, 62);
        lemma2_to64_rest();
    }
    let d: u128 = power(s as u32);
    let mf: u128 = f.m as u128;
    let more: u128 = mf / d;
    let r: u128 = mf % d;
    let ghost n = (w.m * d + f.m) as nat;
    proof {
        lemma_fundamental_div_mod(mf as int, d as int);
        assert(more <= mf) by (nonlinear_arith)
            requires
                more == mf / d,
                d > 0,
        ;
        assert(n == (w.m + more) * d + r) by (nonlinear_arith)
            requires
                n == w.m * d + mf,
                mf == d * more + r,
        ;
        lemma_fundamental_div_mod_converse(n as int, d as int, w.m + more, r as int);
        lemma_sum_range(secs as nat, w.m as nat, w.e as int, f.m as nat, f.e as int, n);
        lemma_rounding_range(n, d as nat);
        lemma_sum_units(w.m as nat, w.e as int, f.m as nat, f.e as int, n);
        lemma_pow2_pos(200);
        lemma_nearest(w.units() + f.units(), unit(), (200 + w.e) as nat, n, d as nat);
    }
    let q: u64 = w.m + more as u64;
    let m: u64 = if 2 * r < d || (2 * r == d && q % 2 == 0) {
        q
    } else {
        q + 1
    };
    assert(m == half_even(n, d as nat));
    settled(m, w.e)
}

/// A whole double and a part of one add up to less than the next power of two.
proof fn lemma_sum_range(secs: nat, mw: nat, ew: int, mf: nat, ef: int, n: nat)
    requires
        0x10_0000_0000_0000 <= mw < 0x20_0000_0000_0000,
        -52 <= ew <= 13,
        -106 <= ef <= -53,
        ew <= 0 ==> mw == secs * pow2((-ew) as nat),
        mf < pow2((-ef) as nat),
        n == mw * pow2((ew - ef) as nat) + mf,
    ensures
        0x10_0000_0000_0000 * pow2((ew - ef) as nat) <= n < 0x20_0000_0000_0000 * pow2(
            (ew - ef) as nat,
        ),
{
    let d = pow2((ew - ef) as nat);
    lemma_pow2_128();
    lemma_pow2_pos((ew - ef) as nat);
    assert(0x10_0000_0000_0000 * d <= mw * d) by (nonlinear_arith)
        requires
            0x10_0000_0000_0000 <= mw,
            d > 0,
    ;
    if ew <= 0 {
        let p = pow2((-ew) as nat);
        let q = pow2((53 + ew) as nat);
        lemma_pow2_pos((-ew) as nat);
        lemma_pow2_adds((-ew) as nat, (53 + ew) as nat);
        lemma_pow2_adds((-ew) as nat, (ew - ef) as nat);
        assert(secs < q) by (nonlinear_arith)
            requires
                secs * p < 0x20_0000_0000_0000,
                p * q == 0x20_0000_0000_0000,
                p > 0,
        ;
        assert(mw * d + p * d <= 0x20_0000_0000_0000 * d) by (nonlinear_arith)
            requires
                mw == secs * p,
                secs + 1 <= q,
                p * q == 0x20_0000_0000_0000,
                d > 0,
                p > 0,
        ;
    } else {
        lemma_pow2_strictly_increases((-ef) as nat, (ew - ef) as nat);
        assert(mw * d + d <= 0x20_0000_0000_0000 * d) by (nonlinear_arith)
            requires
                mw + 1 <= 0x20_0000_0000_0000,
                d > 0,
        ;
    }
}

/// The sum of two doubles, in units, over the spacing of the larger.
proof fn lemma_sum_units(mw: nat, ew: int, mf: nat, ef: int, n: nat)
    requires
        -52 <= ew <= 13,
        -106 <= ef <= -53,
        n == mw * pow2((ew - ef) as nat) + mf,
    ensures
        (mw * pow2((200 + ew) as nat) + mf * pow2((200 + ef) as nat)) * unit() * pow2(
            (ew - ef) as nat,
        ) == n * (unit() * pow2((200 + ew) as nat)),
{
    let d = pow2((ew - ef) as nat);
    let t = pow2((200 + ew) as nat);
    let b = pow2((200 + ef) as nat);
    let u = unit();
    lemma_pow2_adds((ew - ef) as nat, (200 + ef) as nat);
    assert((mw * t + mf * b) * u * d == n * (u * t)) by (nonlinear_arith)
        requires
            n == mw * d + mf,
            d * b == t,
    ;
}

/// How many whole times `den` units go into `num` units, the ratio rounded to a double first.
pub open spec fn times(num: nat, den: nat) -> nat {
    nearest(num, den) / unit()
}

impl Double {
    /// The value is nothing.
    pub closed spec fn is_zero(self) -> bool {
        self.m == 0
    }

    /// How many whole times `other` goes into this, up to the largest `u64`; without end where
    /// `other` is nothing.
    pub fn times_in(self, other: Double) -> (r: u64)
        requires
            self.wf(),
            self.small(),
            other.wf(),
            other.small(),
            !self.is_zero(),
        ensures
            other.is_zero() ==> r == u64::MAX,
            !other.is_zero() && times(self.units(), other.units()) <= u64::MAX ==> r == times(
                self.units(),
                other.units(),
            ),
            !other.is_zero() && times(self.units(), other.units()) > u64::MAX ==> r == u64::MAX,
    {
        if other.m == 0 {
            return u64::MAX;
        }
        let (n, d, k) = fit(self.m, other.m);
        let e: i32 = self.e - other.e - k;
        proof {
            lemma_pow2_128();
            lemma_rounding_range(n as nat, d as nat);
            assert(k <= 53) by {
                if k > 53 {
                    if k > 54 {
                        lemma_pow2_strictly_increases(54, k as nat);
                    }
                    assert(n >= 0x10_0000_0000_0000 * 0x40_0000_0000_0000) by (nonlinear_arith)
                        requires
                            n == self.m * pow2(k as nat),
                            self.m >= 0x10_0000_0000_0000,
                            pow2(k as nat) >= 0x40_0000_0000_0000,
                    ;
                }
            }
        }
        let m: u128 = round_half_even(n, d);
        let ghost v = nearest(self.units(), other.units());
        let ghost t = (200 + e) as nat;
        proof {
            let (a, b) = ((200 + self.e) as nat, (200 + other.e) as nat);
            lemma_scale(self.m as nat, other.m as nat, k as int, n as nat, d as nat, a, b, t);
            lemma_pow2_pos(b);
            assert(other.m * pow2(b) > 0) by (nonlinear_arith)
                requires
                    other.m > 0,
                    pow2(b) > 0,
            ;
            lemma_nearest(self.units(), other.units(), t, n as nat, d as nat);
            assert(v == m * pow2(t));
            lemma_pow2_pos(200);
        }
        if e >= 12 {
            proof {
                lemma_pow2_adds(200, e as nat);
                if e > 12 {
                    lemma_pow2_strictly_increases(12, e as nat);
                }
                lemma2_to64();
                lemma_whole(v, m as nat, e as nat);
                assert(m * pow2(e as nat) >= 0x10_0000_0000_0000 * 4096) by (nonlinear_arith)
                    requires
                        m >= 0x10_0000_0000_0000,
                        pow2(e as nat) >= 4096,
                ;
            }
            u64::MAX
        } else if e >= 0 {
            let p: u128 = power(e as u32);
            proof {
                lemma_pow2_adds(200, e as nat);
                lemma_pow2_strictly_increases(e as nat, 12);
                lemma2_to64();
                lemma_whole(v, m as nat, e as nat);
                assert(m * p <= 0x20_0000_0000_0000 * 4096) by (nonlinear_arith)
                    requires
                        m <= 0x20_0000_0000_0000,
                        p <= 4096,
                ;
            }
            let all: u128 = m * p;
            if all > u64::MAX as u128 {
                u64::MAX
            } else {
                all as u64
            }
        } else if e < -60 {
            proof {
                lemma_part(v, m as nat, (-e) as nat);
                lemma_pow2_strictly_increases(54, (-e) as nat);
                assert((m as nat) / pow2((-e) as nat) == 0) by (nonlinear_arith)
                    requires
                        0 <= m < pow2((-e) as nat),
                ;
            }
            0
        } else {
            let p: u128 = power((-e) as u32);
            proof {
                lemma_part(v, m as nat, (-e) as nat);
                assert(m / p <= m) by (nonlinear_arith)
                    requires
                        p > 0,
                ;
            }
            (m / p) as u64
        }
    }
}

impl Double {
    /// The value over two to the power `k`, in tenths, rounded to a whole number.
    pub fn tenths_over(self, k: u32) -> (r: u128)
        requires
            self.wf(),
            self.small(),
            k <= 20,
        ensures
            r == half_even(self.units() * 10, unit() * pow2(k as nat)),
    {
        let less = Double { m: self.m, e: self.e - k as i32 };
        proof {
            let (a, b) = ((200 + less.e) as nat, k as nat);
            let (pa, pb, u) = (pow2(a), pow2(b), unit());
            lemma_pow2_adds(a, b);
            lemma_pow2_pos(200);
            lemma_pow2_pos(b);
            assert(self.units() * 10 * u == less.units() * 10 * (u * pb)) by (nonlinear_arith)
                requires
                    self.units() == self.m * (pa * pb),
                    less.units() == self.m * pa,
            ;
            assert(u * pb > 0) by (nonlinear_arith)
                requires
                    u > 0,
                    pb > 0,
            ;
            lemma_half_even_ratio(self.units() * 10, u * pb, less.units() * 10, u);
        }
        less.tenths()
    }
}

/// The whole part of a value that is whole.
proof fn lemma_whole(v: nat, m: nat, e: nat)
    requires
        v == m * pow2(200 + e),
    ensures
        v / unit() == m * pow2(e),
{
    lemma_pow2_pos(200);
    lemma_pow2_adds(200, e);
    let (u, p) = (unit(), pow2(e));
    assert(v == (m * p) * u + 0) by (nonlinear_arith)
        requires
            v == m * pow2(200 + e),
            u * p == pow2(200 + e),
    ;
    lemma_fundamental_div_mod_converse(v as int, u as int, (m * p) as int, 0);
}

/// The whole part of a value with a binary point inside its digits.
proof fn lemma_part(v: nat, m: nat, e: nat)
    requires
        e <= 200,
        v == m * pow2((200 - e) as nat),
    ensures
        v / unit() == m / pow2(e),
{
    lemma_pow2_pos(200);
    lemma_pow2_pos(e);
    lemma_pow2_adds((200 - e) as nat, e);
    let (u, p, b) = (unit(), pow2(e), pow2((200 - e) as nat));
    assert(v * p == m * u) by (nonlinear_arith)
        requires
            v == m * b,
            b * p == u,
    ;
    lemma_half_even_ratio(v, u, m, p);
}

/// A whole number as a double prints as it is up to 53 bits, rounded to 53 bits above.
pub proof fn lemma_nearest_whole(n: nat)
    requires
        n < 0x20_0000_0000_0000,
    ensures
        nearest(n, 1) == n * unit(),
{
    lemma_pow2_128();
    lemma_pow2_pos(200);
    if n == 0 {
        lemma_nearest_zero(1);
    } else {
        lemma_nearest_whole_from(n, n, 0);
    }
}

/// The number `n` shifted up until it has 53 bits.
proof fn lemma_nearest_whole_from(n: nat, v: nat, k: nat)
    requires
        0 < n < 0x20_0000_0000_0000,
        v == n * pow2(k),
        v < 0x20_0000_0000_0000,
        k <= 53,
    ensures
        nearest(n, 1) == n * unit(),
    decreases 54 - k,
{
    lemma_pow2_128();
    if v >= 0x10_0000_0000_0000 {
        let t = (200 - k) as nat;
        lemma_scale(n, 1, k as int, v, 1, 0, 0, t);
        assert(n * pow2(0) == n && 1 * pow2(0) == 1);
        lemma_nearest(n, 1, t, v, 1);
        assert(half_even(v, 1) == v);
        lemma_pow2_adds(k, t);
        assert(v * pow2(t) == n * unit()) by (nonlinear_arith)
            requires
                v == n * pow2(k),
                pow2(k) * pow2(t) == unit(),
        ;
    } else {
        lemma_pow2_unfold(k + 1);
        assert(n * (2 * pow2(k)) == 2 * (n * pow2(k))) by (nonlinear_arith);
        if k == 53 {
            assert(v >= pow2(53)) by (nonlinear_arith)
                requires
                    v == n * pow2(53),
                    n >= 1,
            ;
        }
        lemma_nearest_whole_from(n, 2 * v, k + 1);
    }
}

/// Rounding to a whole number errs by half at most.
pub proof fn lemma_half_even_near(a: nat, b: nat)
    requires
        b > 0,
    ensures
        a / b <= half_even(a, b) <= a / b + 1,
        -(b as int) <= 2 * (half_even(a, b) * b - a) <= b,
{
    let q = (a / b) as int;
    let r = (a % b) as int;
    let h = half_even(a, b) as int;
    lemma_fundamental_div_mod(a as int, b as int);
    assert(h == q || h == q + 1);
    assert(h * b == b * q || h * b == b * q + b) by (nonlinear_arith)
        requires
            h == q || h == q + 1,
    ;
    if h == q {
        assert(h * b - a == -r) by (nonlinear_arith)
            requires
                h == q,
                a == b * q + r,
        ;
    } else {
        assert(h * b - a == b - r) by (nonlinear_arith)
            requires
                h == q + 1,
                a == b * q + r,
        ;
    }
}

/// Rounding to a whole number keeps the order.
proof fn lemma_half_even_mono(a: nat, c: nat, b: nat)
    requires
        b > 0,
        a <= c,
    ensures
        a / b <= c / b,
        half_even(a, b) <= half_even(c, b),
{
    lemma_fundamental_div_mod(a as int, b as int);
    lemma_fundamental_div_mod(c as int, b as int);
    let (q, r) = ((a / b) as int, (a % b) as int);
    let (s, t) = ((c / b) as int, (c % b) as int);
    assert(q <= s) by (nonlinear_arith)
        requires
            a == b * q + r,
            c == b * s + t,
            0 <= r < b,
            0 <= t < b,
            a <= c,
    ;
    if q == s {
        assert(r <= t);
    }
}

/// Where the 53 bits above the spacing of `v` lie.
proof fn lemma_spacing_of(v: nat)
    ensures
        v < pow2(spacing(v) + 53),
        v >= pow2(52) ==> pow2(spacing(v) + 52) <= v,
        spacing(v) > 0 ==> pow2(53) <= v,
    decreases v,
{
    if v >= pow2(53) {
        lemma_pow2_pos(53);
        let half = v / 2;
        lemma_spacing_of(half);
        lemma_pow2_unfold(53);
        lemma_pow2_unfold(spacing(v) + 53);
        lemma_pow2_unfold(spacing(v) + 52);
        assert(half >= pow2(52));
    }
}

proof fn lemma_spacing_mono(v: nat, w: nat)
    requires
        v <= w,
    ensures
        spacing(v) <= spacing(w),
    decreases w,
{
    if w >= pow2(53) {
        lemma_pow2_pos(53);
        lemma_spacing_mono(v / 2, w / 2);
    }
}

/// The spacing of a ratio, against its numerator.
proof fn lemma_ratio_spacing(a: nat, d: nat)
    requires
        d > 0,
    ensures
        ({
            let v = a / d;
            let t = spacing(v);
            &&& a < pow2(53) * (d * pow2(t))
            &&& v >= pow2(52) ==> pow2(52) * (d * pow2(t)) <= a
            &&& d * pow2(t) > 0
        }),
{
    let v = a / d;
    let t = spacing(v);
    let p = pow2(t);
    lemma_fundamental_div_mod(a as int, d as int);
    lemma_spacing_of(v);
    lemma_pow2_adds(52, t);
    lemma_pow2_adds(53, t);
    lemma_pow2_pos(t);
    assert(d * p > 0) by (nonlinear_arith)
        requires
            d > 0,
            p > 0,
    ;
    assert(a < pow2(53) * (d * p)) by (nonlinear_arith)
        requires
            a == d * v + a % d,
            a % d < d,
            v + 1 <= pow2(53) * p,
            d > 0,
    ;
    if v >= pow2(52) {
        assert(pow2(52) * (d * p) <= a) by (nonlinear_arith)
            requires
                a == d * v + a % d,
                a % d >= 0,
                pow2(52) * p <= v,
                d > 0,
        ;
    }
}

/// The nearest double errs by the fraction `2^-53` of the exact ratio at most.
proof fn lemma_nearest_error(num: nat, den: nat)
    requires
        den > 0,
        pow2(52) * den <= num * unit(),
    ensures
        pow2(53) * (nearest(num, den) * den - num * unit()) <= num * unit(),
        -(num * unit()) <= pow2(53) * (nearest(num, den) * den - num * unit()),
{
    let a = num * unit();
    let t = spacing(a / den);
    let p = pow2(t);
    let b = den * p;
    let h = half_even(a, b);
    lemma_ratio_spacing(a, den);
    assert(a / den >= pow2(52)) by (nonlinear_arith)
        requires
            pow2(52) * den <= a,
            den > 0,
    ;
    lemma_half_even_near(a, b);
    lemma_pow2_unfold(53);
    assert((h * p) * den == h * b) by (nonlinear_arith)
        requires
            b == den * p,
    ;
    let e = h * b - a;
    let m = pow2(52);
    assert(2 * m * e <= a) by (nonlinear_arith)
        requires
            2 * e <= b,
            m * b <= a,
            m >= 0,
    ;
    assert(-(a as int) <= 2 * m * e) by (nonlinear_arith)
        requires
            -(b as int) <= 2 * e,
            m * b <= a,
            m >= 0,
    ;
}

/// The nearest double keeps the order.
proof fn lemma_nearest_mono(num: nat, other: nat, den: nat)
    requires
        den > 0,
        num <= other,
    ensures
        nearest(num, den) <= nearest(other, den),
{
    let (a, c) = (num * unit(), other * unit());
    lemma_pow2_pos(200);
    assert(a <= c) by (nonlinear_arith)
        requires
            a == num * unit(),
            c == other * unit(),
            num <= other,
    ;
    lemma_half_even_mono(a, c, den);
    let (t, s) = (spacing(a / den), spacing(c / den));
    lemma_spacing_mono(a / den, c / den);
    let (p, r) = (pow2(t), pow2(s));
    lemma_ratio_spacing(a, den);
    lemma_ratio_spacing(c, den);
    let (h, g) = (half_even(a, den * p), half_even(c, den * r));
    if t == s {
        lemma_half_even_mono(a, c, den * p);
        assert(h * p <= g * p) by (nonlinear_arith)
            requires
                h <= g,
                p >= 0,
        ;
    } else {
        lemma_spacing_of(c / den);
        lemma_half_even_near(a, den * p);
        lemma_half_even_near(c, den * r);
        let b = den * p;
        let d = den * r;
        lemma_fundamental_div_mod(a as int, b as int);
        lemma_fundamental_div_mod(c as int, d as int);
        let (q, k) = (a / b, c / d);
        assert(q < pow2(53)) by (nonlinear_arith)
            requires
                a == b * q + a % b,
                a % b >= 0,
                a < pow2(53) * b,
                b > 0,
        ;
        lemma_pow2_unfold(53);
        lemma_pow2_pos(52);
        assert(k >= pow2(52)) by (nonlinear_arith)
            requires
                c == d * k + c % d,
                c % d < d,
                pow2(52) * d <= c,
                d > 0,
        ;
        lemma_pow2_unfold(t + 1);
        if t + 1 < s {
            lemma_pow2_strictly_increases(t + 1, s);
        }
        let m = pow2(52);
        assert(h * p <= g * r) by (nonlinear_arith)
            requires
                h <= 2 * m,
                g >= m,
                r >= 2 * p,
                p >= 0,
                m >= 0,
        ;
    }
}

/// A ratio of one is one.
proof fn lemma_nearest_one(n: nat)
    requires
        n > 0,
    ensures
        nearest(n, n) == unit(),
{
    lemma_nearest_whole(1);
    let u = unit();
    assert(n * u / n == u) by (nonlinear_arith)
        requires
            n > 0,
    ;
    assert(1 * u / 1 == u);
    let p = pow2(spacing(u));
    lemma_pow2_pos(spacing(u));
    assert(n * p > 0) by (nonlinear_arith)
        requires
            n > 0,
            p > 0,
    ;
    assert((n * u) * (1 * p) == (1 * u) * (n * p)) by (nonlinear_arith);
    lemma_half_even_ratio(n * u, n * p, 1 * u, 1 * p);
}

/// What is no smaller goes in once at least.
pub proof fn lemma_times_once(num: nat, den: nat)
    requires
        0 < den <= num,
    ensures
        times(num, den) >= 1,
{
    lemma_nearest_mono(den, num, den);
    lemma_nearest_one(den);
    lemma_pow2_pos(200);
    let (y, u) = (nearest(num, den), unit());
    assert(y / u >= 1) by (nonlinear_arith)
        requires
            y >= u,
            u > 0,
    ;
}

/// How many units a nanosecond has, at least.
proof fn lemma_unit_large()
    ensures
        pow2(53) * 4_000_000_000 <= unit(),
        unit() > 0,
{
    lemma2_to64();
    lemma2_to64_rest();
    lemma_pow2_adds(53, 32);
    lemma_pow2_strictly_increases(85, 200);
}

/// Spans in seconds keep their order.
pub proof fn lemma_seconds_mono(secs: nat, nanos: nat, more: nat, rest: nat)
    requires
        nanos < 1_000_000_000,
        rest < 1_000_000_000,
        more < 0x20_0000_0000_0000,
        secs < more || (secs == more && nanos <= rest),
    ensures
        seconds_units(secs, nanos) <= seconds_units(more, rest),
{
    let u = unit();
    lemma_unit_large();
    lemma_nearest_whole(secs);
    lemma_nearest_whole(more);
    let (f, g) = (nearest(nanos, 1_000_000_000), nearest(rest, 1_000_000_000));
    if secs < more {
        lemma_nearest_mono(nanos, 1_000_000_000, 1_000_000_000);
        lemma_nearest_one(1_000_000_000);
        assert(secs * u + u <= more * u) by (nonlinear_arith)
            requires
                secs + 1 <= more,
                u >= 0,
        ;
    } else {
        lemma_nearest_mono(nanos, rest, 1_000_000_000);
    }
    lemma_nearest_mono((secs * u + f) as nat, (more * u + g) as nat, u);
}

/// No time is no seconds.
pub proof fn lemma_seconds_zero()
    ensures
        seconds_units(0, 0) == 0,
{
    lemma_pow2_pos(200);
    lemma_nearest_zero(1);
    lemma_nearest_zero(1_000_000_000);
    lemma_nearest_zero(unit());
}

/// The nearest double to a double is that double.
proof fn lemma_nearest_twice(num: nat, den: nat)
    requires
        den > 0,
        pow2(52) * den <= num * unit(),
    ensures
        nearest(nearest(num, den), unit()) == nearest(num, den),
        nearest(num, den) > 0,
{
    let a = num * unit();
    let t = spacing(a / den);
    let b = den * pow2(t);
    let h = half_even(a, b);
    let f = nearest(num, den);
    let u = unit();
    lemma_pow2_pos(200);
    lemma_pow2_pos(52);
    lemma_pow2_unfold(53);
    lemma_pow2_pos(t);
    lemma_ratio_spacing(a, den);
    assert(a / den >= pow2(52)) by (nonlinear_arith)
        requires
            pow2(52) * den <= a,
            den > 0,
    ;
    lemma_half_even_near(a, b);
    let q = a / b;
    lemma_fundamental_div_mod(a as int, b as int);
    assert(pow2(52) <= q < pow2(53)) by (nonlinear_arith)
        requires
            a == b * q + a % b,
            0 <= a % b < b,
            pow2(52) * b <= a < pow2(53) * b,
            b > 0,
    ;
    assert(f == h * pow2(t) && f > 0) by (nonlinear_arith)
        requires
            f == h * pow2(t),
            h >= 1,
            pow2(t) > 0,
    ;
    if h < pow2(53) {
        assert(f * u == h * (u * pow2(t))) by (nonlinear_arith)
            requires
                f == h * pow2(t),
        ;
        lemma_nearest(f, u, t, h, 1);
        assert(half_even(h, 1) == h);
    } else {
        let half = pow2(52);
        lemma_pow2_unfold(t + 1);
        assert(f * u == half * (u * pow2(t + 1)) && f == half * pow2(t + 1)) by (nonlinear_arith)
            requires
                f == h * pow2(t),
                h == 2 * half,
                pow2(t + 1) == 2 * pow2(t),
        ;
        lemma_nearest(f, u, t + 1, half, 1);
        assert(half_even(half, 1) == half);
    }
}

/// A span in seconds errs by thirteen eighths of the fraction `2^-53` of itself at most, and by ten
/// eighths from eight seconds on: the nanoseconds are rounded once, and the sum once more unless
/// there are no seconds to add.
pub proof fn lemma_seconds_error(secs: nat, nanos: nat)
    requires
        nanos < 1_000_000_000,
        secs < 0x20_0000_0000_0000,
        secs > 0 || nanos > 0,
    ensures
        ({
            let y = 1_000_000_000 * seconds_units(secs, nanos);
            let x = (1_000_000_000 * secs + nanos) * unit();
            &&& y > 0
            &&& 8 * (pow2(53) * (y - x)) <= 13 * x
            &&& -(13 * x) <= 8 * (pow2(53) * (y - x))
            &&& secs >= 8 ==> 8 * (pow2(53) * (y - x)) <= 10 * x
            &&& secs >= 8 ==> -(10 * x) <= 8 * (pow2(53) * (y - x))
        }),
{
    let u = unit() as int;
    let m = pow2(53) as int;
    let k: int = 1_000_000_000;
    lemma_unit_large();
    lemma_pow2_128();
    lemma_pow2_unfold(53);
    lemma_pow2_pos(52);
    lemma_nearest_whole(secs);
    let f = nearest(nanos, 1_000_000_000) as int;
    let n = nanos as int;
    if nanos == 0 {
        lemma_nearest_zero(1_000_000_000);
    } else {
        assert(pow2(52) * 1_000_000_000 <= nanos * unit()) by (nonlinear_arith)
            requires
                nanos >= 1,
                pow2(53) * 4_000_000_000 <= unit(),
                pow2(53) == 2 * pow2(52),
        ;
        lemma_nearest_error(nanos, 1_000_000_000);
        lemma_nearest_twice(nanos, 1_000_000_000);
    }
    let s = (secs * u + f) as int;
    let x = (k * secs + n) * u;
    let e = k * f - n * u;
    let y = seconds_units(secs, nanos) as int;
    assert(m * e <= n * u && -(n * u) <= m * e) by {
        assert(e == f * 1_000_000_000 - n * u);
        if nanos == 0 {
            assert(f == 0 && n * u == 0 && e == 0);
        }
    }
    if secs == 0 {
        assert(s == f && y == f);
        assert(x == n * u && k * y - x == e);
        assert(x >= 0) by (nonlinear_arith)
            requires
                x == n * u,
                n >= 0,
                u >= 0,
        ;
    } else {
        assert(k * s - x == e) by (nonlinear_arith)
            requires
                s == secs * u + f,
                x == (k * secs + n) * u,
                e == k * f - n * u,
        ;
        assert(2 * (n * u) <= x && (secs >= 8 ==> 8 * (n * u) <= x)) by (nonlinear_arith)
            requires
                x == (k * secs + n) * u,
                0 <= n < k,
                secs >= 1,
                u >= 0,
        ;
        assert(x >= k * u) by (nonlinear_arith)
            requires
                x == (k * secs + n) * u,
                secs >= 1,
                n >= 0,
                k >= 0,
                u >= 0,
        ;
        assert(0 <= n * u) by (nonlinear_arith)
            requires
                n >= 0,
                u >= 0,
        ;
        // The nanoseconds add little to the sum.
        assert(16 * e <= x && -x <= 16 * e) by (nonlinear_arith)
            requires
                m * e <= n * u,
                -(n * u) <= m * e,
                2 * (n * u) <= x,
                m >= 8,
        ;
        // The sum is large enough to have 53 bits.
        assert(s >= pow2(52)) by (nonlinear_arith)
            requires
                k * s - x == e,
                -x <= 16 * e,
                x >= k * u,
                u >= m * 4_000_000_000,
                m == 2 * pow2(52),
                k == 1_000_000_000,
                m > 0,
        ;
        let un = unit();
        assert(pow2(52) * un <= (s as nat) * un) by (nonlinear_arith)
            requires
                s >= pow2(52),
                un >= 0,
        ;
        lemma_nearest_error(s as nat, un);
        assert(y == nearest(s as nat, un));
        let d = y - s;
        assert(y * u - s * u == d * u) by (nonlinear_arith)
            requires
                d == y - s,
        ;
        assert(m * d <= s && -s <= m * d) by (nonlinear_arith)
            requires
                m * (d * u) <= s * u,
                -(s * u) <= m * (d * u),
                u > 0,
        ;
        // Both errors together.
        let both = k * y - x;
        assert(both == k * d + e) by (nonlinear_arith)
            requires
                both == k * y - x,
                k * s - x == e,
                d == y - s,
        ;
        assert(m * (k * d) <= k * s && -(k * s) <= m * (k * d)) by (nonlinear_arith)
            requires
                m * d <= s,
                -s <= m * d,
                k >= 0,
        ;
        assert(m * both == m * (k * d) + m * e) by (nonlinear_arith)
            requires
                both == k * d + e,
        ;
        assert(k * y > 0) by (nonlinear_arith)
            requires
                y == s + d,
                -s <= m * d,
                s >= pow2(52),
                pow2(52) >= 1,
                m >= 2,
                k > 0,
        ;
    }
}

/// Three bounded errors, in fractions `1 / m` (that is, `g`, `h` and eight of them), do not carry a
/// ratio across the whole number next to it, from which it is `c` parts away at least.
proof fn lemma_floor_kept(
    n: int,
    p: int,
    m: int,
    u: int,
    a: int,
    b: int,
    q: int,
    k: int,
    c: int,
    g: int,
    h: int,
)
    requires
        0 < p <= n,
        0 < c,
        0 <= g <= 13,
        0 <= h <= 13,
        32 * ((8 + g + h) * n) <= 31 * (m * c),
        m >= 1024,
        u > 0,
        a > 0,
        b > 0,
        m * (a - n * u) <= g * (n * u),
        -(g * (n * u)) <= m * (a - n * u),
        m * (b - p * u) <= h * (p * u),
        -(h * (p * u)) <= m * (b - p * u),
        m * (q * b - a * u) <= 8 * (a * u),
        -(8 * (a * u)) <= m * (q * b - a * u),
        k * p + c <= n,
        n + c <= (k + 1) * p,
        k >= 0,
    ensures
        k * u <= q < (k + 1) * u,
{
    let (x, z) = (n * u, p * u);
    let t = 8 + g + h;
    // Upper and lower bounds of each, times `m`.
    assert(m * a <= (m + g) * x && (m - g) * x <= m * a) by (nonlinear_arith)
        requires
            m * (a - x) <= g * x,
            -(g * x) <= m * (a - x),
    ;
    assert(m * b <= (m + h) * z && (m - h) * z <= m * b) by (nonlinear_arith)
        requires
            m * (b - z) <= h * z,
            -(h * z) <= m * (b - z),
    ;
    let w = q * b;
    assert(m * w <= (m + 8) * (a * u) && (m - 8) * (a * u) <= m * w) by (nonlinear_arith)
        requires
            m * (w - a * u) <= 8 * (a * u),
            -(8 * (a * u)) <= m * (w - a * u),
    ;
    assert(m * (m * w) <= (m + 8) * ((m + g) * x) * u) by (nonlinear_arith)
        requires
            m * w <= (m + 8) * (a * u),
            m * a <= (m + g) * x,
            m > 0,
            u > 0,
    ;
    assert((m - 8) * ((m - g) * x) * u <= m * (m * w)) by (nonlinear_arith)
        requires
            (m - 8) * (a * u) <= m * w,
            (m - g) * x <= m * a,
            m >= 8,
            u > 0,
    ;
    let v = u * u;
    assert(v > 0) by (nonlinear_arith)
        requires
            v == u * u,
            u > 0,
    ;
    let (mm, gm, hm, mc) = (m * m, g * m, h * m, m * c);
    assert(32 * (t * (m * n)) <= 31 * (mm * c)) by (nonlinear_arith)
        requires
            32 * (t * n) <= 31 * mc,
            mc == m * c,
            mm == m * m,
            m >= 0,
    ;
    assert(mc > 0) by (nonlinear_arith)
        requires
            mc == m * c,
            m > 0,
            c > 0,
    ;
    assert(8 * n <= mc) by (nonlinear_arith)
        requires
            32 * (t * n) <= 31 * mc,
            t >= 8,
            n > 0,
            mc > 0,
    ;
    assert(mm * c >= 1024 * mc) by (nonlinear_arith)
        requires
            mm == m * m,
            mc == m * c,
            m >= 1024,
            c > 0,
    ;
    assert(t * (m * n) == 8 * (m * n) + gm * n + hm * n) by (nonlinear_arith)
        requires
            t == 8 + g + h,
            gm == g * m,
            hm == h * m,
    ;
    assert(0 <= g * n <= 13 * n && 0 <= hm * c <= 13 * mc) by (nonlinear_arith)
        requires
            0 <= g <= 13,
            0 <= h <= 13,
            hm == h * m,
            mc == m * c,
            n > 0,
            m > 0,
            c > 0,
    ;
    if q >= (k + 1) * u {
        let edge = (k + 1) * u;
        assert(w >= edge * b) by (nonlinear_arith)
            requires
                w == q * b,
                q >= edge,
                b > 0,
        ;
        assert(edge >= 0) by (nonlinear_arith)
            requires
                edge == (k + 1) * u,
                k >= 0,
                u > 0,
        ;
        assert(m * (m * w) >= m * (edge * ((m - h) * z))) by (nonlinear_arith)
            requires
                w >= edge * b,
                (m - h) * z <= m * b,
                m > 0,
                edge >= 0,
        ;
        assert(m * (edge * ((m - h) * z)) == (m * (m - h)) * (((k + 1) * p) * (u * u)))
            by (nonlinear_arith)
            requires
                edge == (k + 1) * u,
                z == p * u,
        ;
        assert((m + 8) * ((m + g) * x) * u == ((m + 8) * (m + g)) * (n * (u * u)))
            by (nonlinear_arith)
            requires
                x == n * u,
        ;
        assert((m * (m - h)) * (((k + 1) * p) * v) >= (m * (m - h)) * ((n + c) * v))
            by (nonlinear_arith)
            requires
                (k + 1) * p >= n + c,
                v > 0,
                m >= 1024,
                h <= 13,
        ;
        assert(((m * (m - h)) * (n + c)) * v <= (((m + 8) * (m + g)) * n) * v)
            by (nonlinear_arith)
            requires
                (m * (m - h)) * ((n + c) * v) <= ((m + 8) * (m + g)) * (n * v),
        ;
        assert(m * (m - h) == mm - hm) by (nonlinear_arith)
            requires
                mm == m * m,
                hm == h * m,
        ;
        assert((m + 8) * (m + g) == mm + 8 * m + gm + 8 * g) by (nonlinear_arith)
            requires
                mm == m * m,
                gm == g * m,
        ;
        assert((mm - hm) * (n + c) == mm * n + mm * c - hm * n - hm * c) by (nonlinear_arith);
        assert((mm + 8 * m + gm + 8 * g) * n == mm * n + 8 * (m * n) + gm * n + 8 * (g * n))
            by (nonlinear_arith);
        assert(false) by (nonlinear_arith)
            requires
                ((m * (m - h)) * (n + c)) * v <= (((m + 8) * (m + g)) * n) * v,
                (m * (m - h)) * (n + c) > ((m + 8) * (m + g)) * n,
                v > 0,
        ;
    }
    if q < k * u {
        let edge = k * u;
        assert(edge >= 0) by (nonlinear_arith)
            requires
                edge == k * u,
                k >= 0,
                u > 0,
        ;
        assert(w <= edge * b - b) by (nonlinear_arith)
            requires
                w == q * b,
                q <= edge - 1,
                b > 0,
        ;
        assert(m * (m * w) <= m * (edge * ((m + h) * z))) by (nonlinear_arith)
            requires
                w <= edge * b,
                m * b <= (m + h) * z,
                m > 0,
                edge >= 0,
                b > 0,
        ;
        assert(m * (edge * ((m + h) * z)) == (m * (m + h)) * ((k * p) * (u * u))) by (nonlinear_arith)
            requires
                edge == k * u,
                z == p * u,
        ;
        assert((m - 8) * ((m - g) * x) * u == ((m - 8) * (m - g)) * (n * (u * u)))
            by (nonlinear_arith)
            requires
                x == n * u,
        ;
        assert((m * (m + h)) * ((k * p) * v) <= (m * (m + h)) * ((n - c) * v)) by (nonlinear_arith)
            requires
                k * p <= n - c,
                v > 0,
                m >= 8,
                h >= 0,
        ;
        assert((((m - 8) * (m - g)) * n) * v <= ((m * (m + h)) * (n - c)) * v) by (nonlinear_arith)
            requires
                ((m - 8) * (m - g)) * (n * v) <= (m * (m + h)) * ((n - c) * v),
        ;
        assert(m * (m + h) == mm + hm) by (nonlinear_arith)
            requires
                mm == m * m,
                hm == h * m,
        ;
        assert((m - 8) * (m - g) == mm - 8 * m - gm + 8 * g) by (nonlinear_arith)
            requires
                mm == m * m,
                gm == g * m,
        ;
        assert((mm + hm) * (n - c) == mm * n - mm * c + hm * n - hm * c) by (nonlinear_arith);
        assert((mm - 8 * m - gm + 8 * g) * n == mm * n - 8 * (m * n) - gm * n + 8 * (g * n))
            by (nonlinear_arith);
        assert(false) by (nonlinear_arith)
            requires
                (((m - 8) * (m - g)) * n) * v <= ((m * (m + h)) * (n - c)) * v,
                ((m - 8) * (m - g)) * n > (m * (m + h)) * (n - c),
                v > 0,
        ;
    }
}

/// The whole part of the ratio of two spans, through doubles of seconds, is that of the exact ratio,
/// where the one is further from a multiple of the other than the fraction `2^-51` of itself.
pub proof fn lemma_times_floor(n: nat, p: nat)
    requires
        0 < p < n,
        n / 1_000_000_000 < 0x20_0000_0000_0000,
        n < 0x8_0000_0000_0000 * (n % p),
        n < 0x8_0000_0000_0000 * (p - n % p),
    ensures
        times(
            seconds_units(n / 1_000_000_000, n % 1_000_000_000),
            seconds_units(p / 1_000_000_000, p % 1_000_000_000),
        ) == n / p,
{
    let k: int = 1_000_000_000;
    let (ns, nn) = (n / 1_000_000_000, n % 1_000_000_000);
    let (ps, pn) = (p / 1_000_000_000, p % 1_000_000_000);
    let a = seconds_units(ns, nn);
    let b = seconds_units(ps, pn);
    let u = unit();
    let m = pow2(53);
    lemma_unit_large();
    lemma_pow2_128();
    lemma_seconds_error(ns, nn);
    lemma_seconds_error(ps, pn);
    assert(1_000_000_000 * ns + nn == n && 1_000_000_000 * ps + pn == p);
    assert(ps < ns || (ps == ns && pn <= nn));
    lemma_seconds_mono(ps, pn, ns, nn);
    assert(a > 0 && b > 0);
    assert(pow2(52) * b <= a * u) by (nonlinear_arith)
        requires
            b <= a,
            a > 0,
            pow2(52) <= u,
    ;
    lemma_nearest_error(a, b);
    let q = nearest(a, b) as int;
    let (ka, kb) = (k * a, k * b);
    let eighths: int = (8 * m) as int;
    let g: int = if ns >= 8 {
        10
    } else {
        13
    };
    // The same bound for the ratio of the two in nanoseconds.
    assert(eighths * (q * kb - ka * u) <= 8 * (ka * u) && -(8 * (ka * u)) <= eighths * (q * kb - ka
        * u)) by (nonlinear_arith)
        requires
            m * (q * b - a * u) <= a * u,
            -(a * u) <= m * (q * b - a * u),
            ka == k * a,
            kb == k * b,
            eighths == 8 * m,
            k > 0,
    ;
    assert(eighths * (ka - n * u) == 8 * (m * (ka - n * u)) && eighths * (kb - p * u) == 8 * (m * (kb
        - p * u))) by (nonlinear_arith)
        requires
            eighths == 8 * m,
    ;
    let f = (n / p) as int;
    lemma_fundamental_div_mod(n as int, p as int);
    let c: int = if n % p <= p - n % p {
        (n % p) as int
    } else {
        p - n % p
    };
    assert(f * p + c <= n && n + c <= (f + 1) * p) by (nonlinear_arith)
        requires
            n == p * f + n % p,
            c <= n % p,
            c <= p - n % p,
    ;
    let mc = eighths * c;
    assert(mc == 0x100_0000_0000_0000 * c) by (nonlinear_arith)
        requires
            mc == eighths * c,
            eighths == 0x100_0000_0000_0000,
    ;
    assert(32 * ((8 + g + 13) * n) <= 31 * mc) by {
        if ns >= 8 {
            assert((8 + g + 13) * n == 31 * n);
        } else {
            assert((8 + g + 13) * n == 34 * n);
        }
    }
    lemma_floor_kept(n as int, p as int, eighths, u as int, ka, kb, q, f, c, g, 13);
    assert(q / (u as int) == f) by (nonlinear_arith)
        requires
            f * u <= q < (f + 1) * u,
            u > 0,
    ;
}

} // verus!
