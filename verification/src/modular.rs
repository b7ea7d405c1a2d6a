//! Greatest common divisors and inverses modulo `n`.

use vstd::prelude::*;
use vstd::arithmetic::div_mod::{
    lemma_fundamental_div_mod, lemma_mod_multiples_basic, lemma_mod_multiples_vanish,
    lemma_small_mod,
};

verus! {

/// The greatest common divisor of `a` and `b`, by Euclid's recursion;
/// `gcd(0, 0)` is 0.
pub open spec fn gcd(a: nat, b: nat) -> nat
    decreases b,
{
    if b == 0 {
        a
    } else {
        gcd(b, a % b)
    }
}

/// Whether `a` and `n` share no factor but 1, for a positive modulus `n`.
pub open spec fn coprime(a: int, n: int) -> bool {
    n > 0 && gcd(n as nat, (a % n) as nat) == 1
}

/// Whether `x` is the inverse of `a` modulo `n`, taken from `0..n`.
pub open spec fn is_inverse(a: int, x: int, n: int) -> bool {
    0 <= x < n && (a * x) % n == 1int % n
}

/// The value of `0..n` that inverts `a` modulo `n`, where there is one.
pub open spec fn inverse_of(a: int, n: int) -> int {
    choose|x: int| is_inverse(a, x, n)
}

/// A sum of a multiple of `u` and `v` is divisible by whatever divides both.
proof fn lemma_divides_combination(d: int, u: int, v: int, q: int)
    requires
        d > 0,
        u % d == 0,
        v % d == 0,
    ensures
        (u * q + v) % d == 0,
{
    lemma_fundamental_div_mod(u, d);
    lemma_fundamental_div_mod(v, d);
    let k = (u / d) * q + v / d;
    assert(u * q + v == k * d) by (nonlinear_arith)
        requires
            u == d * (u / d),
            v == d * (v / d),
            k == (u / d) * q + v / d,
    ;
    lemma_mod_multiples_basic(k, d);
}

/// The gcd divides both of its arguments.
pub proof fn lemma_gcd_divides(a: nat, b: nat)
    requires
        a > 0 || b > 0,
    ensures
        gcd(a, b) > 0,
        a % gcd(a, b) == 0,
        b % gcd(a, b) == 0,
    decreases b,
{
    if b == 0 {
        assert(a % a == 0) by (nonlinear_arith)
            requires
                a > 0,
        ;
        assert(0nat % a == 0) by (nonlinear_arith)
            requires
                a > 0,
        ;
    } else {
        let r = a % b;
        lemma_gcd_divides(b, r);
        let g = gcd(b, r) as int;
        lemma_fundamental_div_mod(a as int, b as int);
        lemma_divides_combination(g, b as int, r as int, a as int / b as int);
        assert(b as int * (a as int / b as int) + r as int == a as int) by (nonlinear_arith)
            requires
                a as int == b as int * (a as int / b as int) + a as int % b as int,
                r as int == a as int % b as int,
        ;
    }
}

/// Whatever divides both arguments divides their gcd.
pub proof fn lemma_gcd_greatest(a: nat, b: nat, d: nat)
    requires
        d > 0,
        a % d == 0,
        b % d == 0,
    ensures
        gcd(a, b) % d == 0,
    decreases b,
{
    if b != 0 {
        let r = a % b;
        lemma_fundamental_div_mod(a as int, b as int);
        lemma_divides_combination(d as int, b as int, a as int, -(a as int / b as int));
        assert(b as int * (-(a as int / b as int)) + a as int == r as int) by (nonlinear_arith)
            requires
                a as int == b as int * (a as int / b as int) + a as int % b as int,
                r as int == a as int % b as int,
        ;
        lemma_gcd_greatest(b, r, d);
    }
}

/// Where a factor above 1 divides both `a` and `n`, the two are not coprime.
pub proof fn lemma_common_factor(a: int, n: int, d: int)
    requires
        d > 1,
        a % d == 0,
        n % d == 0,
    ensures
        !coprime(a, n),
{
    if n > 0 {
        let r = a % n;
        lemma_fundamental_div_mod(a, n);
        lemma_divides_combination(d, n, a, -(a / n));
        assert(n * (-(a / n)) + a == r) by (nonlinear_arith)
            requires
                a == n * (a / n) + r,
        ;
        lemma_gcd_greatest(n as nat, r as nat, d as nat);
        assert(1int % d == 1) by (nonlinear_arith)
            requires
                d > 1,
        ;
    }
}

/// One step of the extended algorithm keeps a coefficient congruent to its
/// remainder.
proof fn lemma_euclid_step(a: int, n: int, x0: int, x1: int, r0: int, r1: int, q: int, k: int)
    requires
        n > 0,
        (x0 * a - r0) % n == 0,
        (x1 * a - r1) % n == 0,
    ensures
        ((x0 - q * x1 + n * k) * a - (r0 - q * r1)) % n == 0,
{
    let u = (x0 * a - r0) / n;
    let v = (x1 * a - r1) / n;
    lemma_fundamental_div_mod(x0 * a - r0, n);
    lemma_fundamental_div_mod(x1 * a - r1, n);
    let w = u - q * v + k * a;
    assert((x0 - q * x1 + n * k) * a - (r0 - q * r1) == w * n) by (nonlinear_arith)
        requires
            x0 * a - r0 == n * u,
            x1 * a - r1 == n * v,
            w == u - q * v + k * a,
    ;
    lemma_mod_multiples_basic(w, n);
}

/// Where the gcd of `n` and `a mod n` is not 1, nothing inverts `a`.
pub proof fn lemma_no_inverse(a: int, n: int, x: int)
    requires
        !coprime(a, n),
    ensures
        !is_inverse(a, x, n),
{
    if n > 0 && is_inverse(a, x, n) {
        let r = a % n;
        let g = gcd(n as nat, r as nat) as int;
        lemma_gcd_divides(n as nat, r as nat);
        if n == 1 {
            assert(gcd(1, 0) == 1) by {
                reveal_with_fuel(gcd, 2);
            }
        } else {
            // 1 == a * x - n * s == r * x + n * (t * x - s), and g divides the right side
            lemma_fundamental_div_mod(a, n);
            lemma_fundamental_div_mod(a * x, n);
            let t = a / n;
            let s = (a * x) / n;
            vstd::arithmetic::div_mod::lemma_small_mod(1, n as nat);
            assert(n * (t * x - s) % g == 0) by {
                lemma_divides_combination(g, n, 0, t * x - s);
            }
            lemma_divides_combination(g, r, n * (t * x - s), x);
            assert(r * x + n * (t * x - s) == 1) by (nonlinear_arith)
                requires
                    a == n * t + r,
                    a * x == n * s + 1,
            ;
            assert(1int % g == 1) by (nonlinear_arith)
                requires
                    g > 1,
            ;
        }
    }
}

/// At most one value of `0..n` inverts `a` modulo `n`.
pub proof fn lemma_inverse_unique(a: int, n: int, x: int, y: int)
    requires
        is_inverse(a, x, n),
        is_inverse(a, y, n),
    ensures
        x == y,
{
    if n > 1 {
        // x - y == (a * y) * x - (a * x) * y + n * (..), a multiple of n below n in size
        lemma_fundamental_div_mod(a * x, n);
        lemma_fundamental_div_mod(a * y, n);
        vstd::arithmetic::div_mod::lemma_small_mod(1, n as nat);
        let s = (a * x) / n;
        let t = (a * y) / n;
        let k = t * x - s * y;
        assert(x - y == -n * k) by (nonlinear_arith)
            requires
                a * x == n * s + 1,
                a * y == n * t + 1,
                k == t * x - s * y,
        ;
        assert(k == 0) by (nonlinear_arith)
            requires
                x - y == -n * k,
                -n < x - y < n,
                n > 0,
        ;
    }
}

/// The remainder of `x` modulo a positive `n`, taken from `0..n` whatever the
/// sign of `x`.
pub fn rem_euclid(x: i64, n: i64) -> (r: i64)
    requires
        n > 0,
    ensures
        r == x as int % n as int,
        0 <= r < n,
{
    if x >= 0 {
        x % n
    } else {
        // x == -(y + 1) with y == n * q + m, so x == n * (-q - 1) + (n - 1 - m)
        let y: i64 = -(x + 1);
        let m: i64 = y % n;
        proof {
            let ghost q = y as int / n as int;
            lemma_fundamental_div_mod(y as int, n as int);
            assert(x as int == n as int * (-q - 1) + (n as int - 1 - m as int)) by (nonlinear_arith)
                requires
                    y as int == n as int * q + m as int,
                    x as int == -(y as int + 1),
            ;
            lemma_mod_multiples_vanish(-q - 1, n as int - 1 - m as int, n as int);
            vstd::arithmetic::div_mod::lemma_small_mod((n - 1 - m) as nat, n as nat);
        }
        n - 1 - m
    }
}

/// The inverse of `a` modulo `module`, by the extended Euclidean algorithm.
///
/// The result is the one value of `0..module` whose product with `a` is
/// congruent to 1, and there is none exactly when `a` and `module` are not
/// coprime (a modulus that is not positive has no inverses at all).
pub fn mod_inv(a: i32, module: i32) -> (r: Option<i32>)
    ensures
        r is Some <==> coprime(a as int, module as int),
        r is Some ==> is_inverse(a as int, r->Some_0 as int, module as int),
        r is None ==> forall|x: int| !is_inverse(a as int, x, module as int),
{
    if module <= 0 {
        return None;
    }
    let n: i64 = module as i64;
    let a0: i64 = rem_euclid(a as i64, n);
    let mut r0: i64 = n;
    let mut r1: i64 = a0;
    let mut x0: i64 = 0;
    let mut x1: i64 = if n == 1 { 0 } else { 1 };
    proof {
        let ghost ai = a as int;
        let ghost ni = n as int;
        assert((0 * ai - ni) % ni == 0) by {
            lemma_mod_multiples_basic(-1, ni);
        }
        assert((x1 as int * ai - a0 as int) % ni == 0) by {
            lemma_fundamental_div_mod(ai, ni);
            if ni != 1 {
                assert(x1 as int * ai - a0 as int == (ai / ni) * ni) by (nonlinear_arith)
                    requires
                        x1 == 1,
                        ai == ni * (ai / ni) + ai % ni,
                        a0 as int == ai % ni,
                ;
                lemma_mod_multiples_basic(ai / ni, ni);
            }
        }
    }
    while r1 != 0
        invariant
            0 < n <= i32::MAX,
            n == module,
            0 < r0 <= n,
            0 <= r1 < n,
            0 <= x0 < n,
            0 <= x1 < n,
            gcd(r0 as nat, r1 as nat) == gcd(n as nat, (a as int % n as int) as nat),
            (x0 as int * a as int - r0 as int) % (n as int) == 0,
            (x1 as int * a as int - r1 as int) % (n as int) == 0,
        decreases r1,
    {
        let q: i64 = r0 / r1;
        let r2: i64 = r0 % r1;
        assert(q <= r0) by {
            vstd::arithmetic::div_mod::lemma_div_nonincreasing(r0 as int, r1 as int);
        }
        assert(q * x1 <= n * n) by (nonlinear_arith)
            requires
                0 <= q <= n,
                0 <= x1 < n,
        ;
        assert(0 <= q * x1) by (nonlinear_arith)
            requires
                0 <= q,
                0 <= x1,
        ;
        assert(n * n <= 0x7fff_ffff * 0x7fff_ffff) by (nonlinear_arith)
            requires
                0 < n <= 0x7fff_ffff,
        ;
        let t: i64 = (q * x1) % n;
        let x2: i64 = if x0 >= t {
            x0 - t
        } else {
            x0 + n - t
        };
        proof {
            let ghost k: int = if x0 >= t {
                (q * x1) as int / n as int
            } else {
                (q * x1) as int / n as int + 1
            };
            lemma_fundamental_div_mod((q * x1) as int, n as int);
            lemma_fundamental_div_mod(r0 as int, r1 as int);
            assert(x2 as int == x0 as int - q as int * x1 as int + n as int * k) by (nonlinear_arith)
                requires
                    (q * x1) as int == q as int * x1 as int,
                    (q * x1) as int == n as int * ((q * x1) as int / n as int) + t as int,
                    x2 as int == if x0 >= t { x0 as int - t as int } else { x0 as int + n as int - t as int },
                    k == if x0 >= t { (q * x1) as int / n as int } else { (q * x1) as int / n as int + 1 },
            ;
            assert(r2 as int == r0 as int - q as int * r1 as int) by (nonlinear_arith)
                requires
                    r0 as int == r1 as int * q as int + r2 as int,
            ;
            lemma_euclid_step(a as int, n as int, x0 as int, x1 as int, r0 as int, r1 as int, q as int, k);
        }
        r0 = r1;
        r1 = r2;
        x0 = x1;
        x1 = x2;
    }
    if r0 == 1 {
        proof {
            let ghost ai = a as int;
            let ghost ni = n as int;
            let ghost xi = x0 as int;
            lemma_fundamental_div_mod(xi * ai - 1, ni);
            let u = (xi * ai - 1) / ni;
            assert(ai * xi == ni * u + 1) by (nonlinear_arith)
                requires
                    xi * ai - 1 == ni * u,
            ;
            lemma_mod_multiples_vanish(u, 1, ni);
        }
        Some(x0 as i32)
    } else {
        proof {
            assert forall|x: int| !is_inverse(a as int, x, module as int) by {
                lemma_no_inverse(a as int, module as int, x);
            }
        }
        None
    }
}

/// Whether `a` has an inverse modulo `n`.
pub fn is_coprime(a: i32, n: i32) -> (b: bool)
    ensures
        b == coprime(a as int, n as int),
{
    mod_inv(a, n).is_some()
}

/// The values coprime with 26 are those that neither 2 nor 13 divides.
pub proof fn lemma_coprime_26(a: int)
    ensures
        coprime(a, 26) <==> a % 2 != 0 && a % 13 != 0,
{
    let r = a % 26;
    if a % 2 == 0 {
        lemma_common_factor(a, 26, 2);
    } else if a % 13 == 0 {
        lemma_common_factor(a, 26, 13);
    } else {
        // the gcd divides 26 and a; of the divisors of 26 only 1 divides a
        let g = gcd(26, r as nat) as int;
        lemma_gcd_divides(26, r as nat);
        assert(1 <= g <= 26) by {
            if g > 26 {
                lemma_small_mod(26, g as nat);
            }
        }
        // 26 leaves a remainder with every other value up to 26
        assert(26int % 3 != 0 && 26int % 4 != 0 && 26int % 5 != 0 && 26int % 6 != 0
            && 26int % 7 != 0 && 26int % 8 != 0 && 26int % 9 != 0 && 26int % 10 != 0
            && 26int % 11 != 0 && 26int % 12 != 0 && 26int % 14 != 0 && 26int % 15 != 0
            && 26int % 16 != 0 && 26int % 17 != 0 && 26int % 18 != 0 && 26int % 19 != 0
            && 26int % 20 != 0 && 26int % 21 != 0 && 26int % 22 != 0 && 26int % 23 != 0
            && 26int % 24 != 0 && 26int % 25 != 0);
        if g != 1 {
            // g is a multiple of 2 or of 13, and divides r, which is a up to a multiple of 26
            let f: int = if g == 13 { 13 } else { 2 };
            lemma_fundamental_div_mod(r, g);
            lemma_fundamental_div_mod(a, 26);
            let k = (r / g) * (g / f) + (26int / f) * (a / 26);
            assert(a == k * f) by (nonlinear_arith)
                requires
                    r == g * (r / g),
                    a == 26 * (a / 26) + r,
                    g == f * (g / f),
                    26 == f * (26int / f),
                    k == (r / g) * (g / f) + (26int / f) * (a / 26),
            ;
            lemma_mod_multiples_basic(k, f);
        }
    }
}

/// An odd divisor of an even number divides its half.
proof fn lemma_odd_divisor_halves(g: int, q: int, m: int)
    requires
        g % 2 == 1,
        g * q == 2 * m,
    ensures
        q % 2 == 0,
        g * (q / 2) == m,
{
    assert(q % 2 == 0) by (nonlinear_arith)
        requires
            g % 2 == 1,
            g * q == 2 * m,
    {
        // g == 2 * a + 1, so g * q == 2 * (a * q) + q, and q is even with it
        let a = g / 2;
        assert(g * q == 2 * (a * q) + q) by (nonlinear_arith)
            requires
                g == 2 * a + 1,
        ;
    }
    assert(g * (q / 2) == m) by (nonlinear_arith)
        requires
            q == 2 * (q / 2),
            g * q == 2 * m,
    ;
}

/// The values coprime with 256 are the odd ones.
pub proof fn lemma_coprime_256(a: int)
    ensures
        coprime(a, 256) <==> a % 2 != 0,
{
    if a % 2 == 0 {
        lemma_common_factor(a, 256, 2);
    } else {
        // the gcd divides a, so it is odd, and an odd divisor of 256 divides 128, 64, ... and 1
        let r = a % 256;
        let g = gcd(256, r as nat) as int;
        lemma_gcd_divides(256, r as nat);
        lemma_fundamental_div_mod(256, g);
        lemma_fundamental_div_mod(r, g);
        lemma_fundamental_div_mod(a, 256);
        if g % 2 == 0 {
            let k = (r / g) * (g / 2) + 128 * (a / 256);
            assert(a == 2 * k) by (nonlinear_arith)
                requires
                    r == g * (r / g),
                    a == 256 * (a / 256) + r,
                    g == 2 * (g / 2),
                    k == (r / g) * (g / 2) + 128 * (a / 256),
            ;
        }
        let q = 256int / g;
        lemma_odd_divisor_halves(g, q, 128);
        lemma_odd_divisor_halves(g, q / 2, 64);
        lemma_odd_divisor_halves(g, q / 2 / 2, 32);
        lemma_odd_divisor_halves(g, q / 2 / 2 / 2, 16);
        lemma_odd_divisor_halves(g, q / 2 / 2 / 2 / 2, 8);
        lemma_odd_divisor_halves(g, q / 2 / 2 / 2 / 2 / 2, 4);
        lemma_odd_divisor_halves(g, q / 2 / 2 / 2 / 2 / 2 / 2, 2);
        lemma_odd_divisor_halves(g, q / 2 / 2 / 2 / 2 / 2 / 2 / 2, 1);
        let u = q / 2 / 2 / 2 / 2 / 2 / 2 / 2 / 2;
        assert(g == 1) by (nonlinear_arith)
            requires
                g * u == 1,
                g > 0,
        ;
    }
}

} // verus!
