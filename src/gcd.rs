//! Greatest common divisor of two unsigned integers of one width, computed
//! with shifts and subtraction only (Stein's algorithm).
use vstd::prelude::*;
use vstd::arithmetic::div_mod::{
    lemma_fundamental_div_mod, lemma_mod_multiples_basic, lemma_mod_self_0, lemma_small_mod,
    lemma_truncate_middle,
};
use vstd::arithmetic::power2::{pow2, lemma2_to64, lemma_pow2_adds, lemma_pow2_pos, lemma_pow2_unfold};
use crate::unsigned::UnsignedInt;

verus! {

/// The greatest common divisor, defined by Euclid's recursion on remainders.
/// `gcd_nat(0, 0)` is `0`.
pub open spec fn gcd_nat(a: nat, b: nat) -> nat
    decreases b,
{
    if b == 0 {
        a
    } else {
        gcd_nat(b, a % b)
    }
}

/// `d` is a positive divisor of `n`.
pub open spec fn divides(d: nat, n: nat) -> bool {
    d > 0 && n % d == 0
}

proof fn lemma_divides_sum(d: int, x: int, y: int)
    requires
        d > 0,
        x % d == 0,
        y % d == 0,
    ensures
        (x + y) % d == 0,
        (x - y) % d == 0,
{
    lemma_fundamental_div_mod(x, d);
    lemma_fundamental_div_mod(y, d);
    let p = x / d;
    let q = y / d;
    assert(x + y == (p + q) * d && x - y == (p - q) * d) by (nonlinear_arith)
        requires
            x == d * p + 0,
            y == d * q + 0,
    ;
    lemma_mod_multiples_basic(p + q, d);
    lemma_mod_multiples_basic(p - q, d);
}

proof fn lemma_divides_multiple(d: int, x: int, k: int)
    requires
        d > 0,
        x % d == 0,
    ensures
        (x * k) % d == 0,
{
    lemma_fundamental_div_mod(x, d);
    let p = x / d;
    assert(x * k == (p * k) * d) by (nonlinear_arith)
        requires
            x == d * p + 0,
    ;
    lemma_mod_multiples_basic(p * k, d);
}

proof fn lemma_divides_le(d: int, n: int)
    requires
        d > 0,
        n > 0,
        n % d == 0,
    ensures
        d <= n,
{
    lemma_fundamental_div_mod(n, d);
    let p = n / d;
    assert(d <= n) by (nonlinear_arith)
        requires
            n == d * p + 0,
            d > 0,
            n > 0,
    ;
}

proof fn lemma_divides_antisymmetric(a: int, b: int)
    requires
        a > 0,
        b > 0,
        a % b == 0,
        b % a == 0,
    ensures
        a == b,
{
    lemma_divides_le(a, b);
    lemma_divides_le(b, a);
}

/// An odd number has odd divisors only.
proof fn lemma_divisor_of_odd(g: int, y: int)
    requires
        g > 0,
        y % 2 == 1,
        y % g == 0,
    ensures
        g % 2 == 1,
{
    lemma_fundamental_div_mod(y, g);
    lemma_fundamental_div_mod(g, 2);
    let q = y / g;
    let h = g / 2;
    if g % 2 == 0 {
        assert(y == (h * q) * 2) by (nonlinear_arith)
            requires
                y == g * q + 0,
                g == 2 * h + 0,
        ;
        lemma_mod_multiples_basic(h * q, 2);
    }
}

/// An odd divisor of `2 * m` divides `m`.
proof fn lemma_odd_divides_half(g: int, m: int)
    requires
        g > 0,
        g % 2 == 1,
        (2 * m) % g == 0,
    ensures
        m % g == 0,
{
    lemma_fundamental_div_mod(2 * m, g);
    let q = (2 * m) / g;
    lemma_fundamental_div_mod(q, 2);
    let r = q / 2;
    if q % 2 == 1 {
        lemma_fundamental_div_mod(g, 2);
        let h = g / 2;
        assert(2 * m == 2 * (2 * h * r + h + r) + 1) by (nonlinear_arith)
            requires
                2 * m == g * q + 0,
                q == 2 * r + 1,
                g == 2 * h + 1,
        ;
    } else {
        assert(m == r * g) by (nonlinear_arith)
            requires
                2 * m == g * q + 0,
                q == 2 * r + 0,
        ;
        lemma_mod_multiples_basic(r, g);
    }
}

/// An odd divisor of `x * 2^k` divides `x`.
proof fn lemma_odd_divides_unshifted(g: int, x: int, k: nat)
    requires
        g > 0,
        g % 2 == 1,
        (x * pow2(k)) % g == 0,
    ensures
        x % g == 0,
    decreases k,
{
    if k == 0 {
        lemma2_pow2_zero();
        assert(x * pow2(k) == x);
    } else {
        lemma_pow2_unfold(k);
        let prev = pow2((k - 1) as nat);
        assert(x * pow2(k) == 2 * (x * prev)) by (nonlinear_arith)
            requires
                pow2(k) == 2 * prev,
        ;
        lemma_odd_divides_half(g, x * prev);
        lemma_odd_divides_unshifted(g, x, (k - 1) as nat);
    }
}

proof fn lemma2_pow2_zero()
    ensures
        pow2(0) == 1,
{
    lemma2_to64();
}

/// For `a` and `b` not both zero, `gcd_nat(a, b)` is positive and divides both.
pub proof fn lemma_gcd_divides(a: nat, b: nat)
    requires
        a > 0 || b > 0,
    ensures
        divides(gcd_nat(a, b), a),
        divides(gcd_nat(a, b), b),
    decreases b,
{
    if b == 0 {
        lemma_mod_self_0(a as int);
        lemma_small_mod(0, a);
    } else {
        let r = a % b;
        lemma_gcd_divides(b, r);
        let g = gcd_nat(b, r);
        lemma_fundamental_div_mod(a as int, b as int);
        lemma_divides_multiple(g as int, b as int, a as int / b as int);
        lemma_divides_sum(g as int, b * (a as int / b as int), r as int);
    }
}

/// Every common divisor of `a` and `b` divides `gcd_nat(a, b)`.
pub proof fn lemma_common_divisor_divides_gcd(a: nat, b: nat, c: nat)
    requires
        divides(c, a),
        divides(c, b),
    ensures
        divides(c, gcd_nat(a, b)),
    decreases b,
{
    if b > 0 {
        let r = a % b;
        lemma_fundamental_div_mod(a as int, b as int);
        lemma_divides_multiple(c as int, b as int, a as int / b as int);
        lemma_divides_sum(c as int, a as int, b * (a as int / b as int));
        lemma_common_divisor_divides_gcd(b, r, c);
    }
}

/// Two pairs not both zero whose gcds divide each other have the same gcd.
proof fn lemma_gcd_equal_by_divisibility(a: nat, b: nat, c: nat, d: nat)
    requires
        a > 0 || b > 0,
        c > 0 || d > 0,
        divides(gcd_nat(a, b), c),
        divides(gcd_nat(a, b), d),
        divides(gcd_nat(c, d), a),
        divides(gcd_nat(c, d), b),
    ensures
        gcd_nat(a, b) == gcd_nat(c, d),
{
    lemma_gcd_divides(a, b);
    lemma_gcd_divides(c, d);
    lemma_common_divisor_divides_gcd(c, d, gcd_nat(a, b));
    lemma_common_divisor_divides_gcd(a, b, gcd_nat(c, d));
    lemma_divides_antisymmetric(gcd_nat(a, b) as int, gcd_nat(c, d) as int);
}

/// The gcd does not depend on the order of its arguments.
pub proof fn lemma_gcd_commutative(a: nat, b: nat)
    ensures
        gcd_nat(a, b) == gcd_nat(b, a),
{
    if a > 0 || b > 0 {
        lemma_gcd_divides(a, b);
        lemma_gcd_divides(b, a);
        lemma_gcd_equal_by_divisibility(a, b, b, a);
    }
}

/// Zero is neutral: `gcd(a, 0) == a` and `gcd(0, a) == a`.
pub proof fn lemma_gcd_zero(a: nat)
    ensures
        gcd_nat(a, 0) == a,
        gcd_nat(0, a) == a,
{
    lemma_gcd_commutative(0, a);
}

/// For `a` and `b` not both zero, `gcd_nat(a, b)` divides both with zero
/// remainder, and no common divisor of the two is larger.
pub proof fn lemma_gcd_is_greatest_common_divisor(a: nat, b: nat)
    requires
        a > 0 || b > 0,
    ensures
        gcd_nat(a, b) > 0,
        a % gcd_nat(a, b) == 0,
        b % gcd_nat(a, b) == 0,
        forall|c: nat| divides(c, a) && divides(c, b) ==> c <= gcd_nat(a, b),
{
    lemma_gcd_divides(a, b);
    assert forall|c: nat| divides(c, a) && divides(c, b) implies c <= gcd_nat(a, b) by {
        lemma_common_divisor_divides_gcd(a, b, c);
        lemma_divides_le(c as int, gcd_nat(a, b) as int);
    }
}

/// Subtracting the smaller argument from the larger keeps the gcd.
proof fn lemma_gcd_subtract(a: nat, b: nat)
    requires
        0 < a <= b,
    ensures
        gcd_nat(a, (b - a) as nat) == gcd_nat(a, b),
{
    let d = (b - a) as nat;
    lemma_gcd_divides(a, b);
    lemma_gcd_divides(a, d);
    lemma_divides_sum(gcd_nat(a, b) as int, b as int, a as int);
    lemma_divides_sum(gcd_nat(a, d) as int, d as int, a as int);
    lemma_gcd_equal_by_divisibility(a, b, a, d);
}

/// Factors of two on one side do not change the gcd with an odd number.
proof fn lemma_gcd_drop_twos(x: nat, k: nat, y: nat)
    requires
        x > 0,
        y % 2 == 1,
    ensures
        gcd_nat(x * pow2(k), y) == gcd_nat(x, y),
{
    let xs = x * pow2(k);
    lemma_gcd_divides(xs, y);
    lemma_gcd_divides(x, y);
    let g1 = gcd_nat(xs, y);
    let g2 = gcd_nat(x, y);
    lemma_divides_multiple(g2 as int, x as int, pow2(k) as int);
    lemma_divisor_of_odd(g1 as int, y as int);
    lemma_odd_divides_unshifted(g1 as int, x as int, k);
    lemma_gcd_equal_by_divisibility(xs, y, x, y);
}

/// A common factor comes out of the gcd.
proof fn lemma_gcd_scale(k: nat, a: nat, b: nat)
    requires
        k > 0,
    ensures
        gcd_nat(k * a, k * b) == k * gcd_nat(a, b),
    decreases b,
{
    if b > 0 {
        lemma_truncate_middle(a as int, k as int, b as int);
        assert(k * b > 0) by (nonlinear_arith)
            requires
                k > 0,
                b > 0,
        ;
        let r = a % b;
        lemma_gcd_scale(k, b, r);
        assert((k * a) % (k * b) == k * r);
        assert(gcd_nat(k * a, k * b) == gcd_nat(k * b, k * r));
    } else {
        assert(k * b == 0) by (nonlinear_arith)
            requires
                b == 0,
        ;
    }
}

/// The gcd of two numbers with their factors of two split off.
proof fn lemma_gcd_shared_twos(x: nat, s: nat, y: nat, t: nat)
    requires
        x % 2 == 1,
        y > 0,
        s <= t,
    ensures
        gcd_nat(x * pow2(s), y * pow2(t)) == gcd_nat(x, y) * pow2(s),
{
    let e = (t - s) as nat;
    lemma_pow2_adds(e, s);
    lemma_pow2_pos(s);
    lemma_pow2_pos(e);
    let ys = y * pow2(e);
    assert(y * pow2(t) == pow2(s) * ys && x * pow2(s) == pow2(s) * x) by (nonlinear_arith)
        requires
            pow2(t) == pow2(e) * pow2(s),
            ys == y * pow2(e),
    ;
    lemma_gcd_scale(pow2(s), x, ys);
    lemma_gcd_commutative(x, ys);
    lemma_gcd_drop_twos(y, e, x);
    lemma_gcd_commutative(y, x);
    let g = gcd_nat(x, y);
    assert(gcd_nat(x, ys) == g);
    assert(pow2(s) * g == g * pow2(s)) by (nonlinear_arith);
}

/// Splitting `v` as `(v / 2^t) * 2^t`.
proof fn lemma_split_twos(v: nat, t: nat)
    requires
        v % pow2(t) == 0,
    ensures
        v == (v / pow2(t)) * pow2(t),
{
    lemma_pow2_pos(t);
    lemma_fundamental_div_mod(v as int, pow2(t) as int);
    assert(pow2(t) * (v / pow2(t)) == (v / pow2(t)) * pow2(t)) by (nonlinear_arith);
}

/// An odd number has no factor of two to strip.
proof fn lemma_odd_has_no_twos(v: nat, t: nat)
    requires
        v % 2 == 1,
        v % pow2(t) == 0,
    ensures
        t == 0,
{
    if t > 0 {
        lemma_pow2_unfold(t);
        let prev = pow2((t - 1) as nat);
        lemma_split_twos(v, t);
        let q = v / pow2(t);
        assert(v == (q * prev) * 2) by (nonlinear_arith)
            requires
                v == q * pow2(t),
                pow2(t) == 2 * prev,
        ;
        lemma_mod_multiples_basic((q * prev) as int, 2);
    }
}

/// Greatest common divisor of `num1` and `num2`, using comparison, subtraction
/// and shifts only. `gcd(a, 0) == a`, `gcd(0, b) == b`.
pub fn gcd<T: UnsignedInt>(num1: T, num2: T) -> (r: T)
    ensures
        r.to_nat() == gcd_nat(num1.to_nat(), num2.to_nat()),
{
    let ghost a = num1.to_nat();
    let ghost b = num2.to_nat();
    proof {
        lemma_gcd_zero(a);
        lemma_gcd_zero(b);
        num1.lemma_fits();
    }
    if num1.is_zero() {
        return num2;
    } else if num2.is_zero() {
        return num1;
    }
    let mut u = num1;
    let mut v = num2;
    let twos_u = u.trailing_zero_bits();
    let twos_v = v.trailing_zero_bits();
    u = u.shift_right(twos_u);
    v = v.shift_right(twos_v);
    let min_twos = if twos_u < twos_v {
        twos_u
    } else {
        twos_v
    };
    // Both are odd now; the factor 2^min_twos that they shared is put back at
    // the end. Each round subtracts the smaller from the larger, which keeps
    // the gcd, and strips the new factors of two from the smaller.
    let ghost odd_gcd = gcd_nat(u.to_nat(), v.to_nat());
    proof {
        lemma_split_twos(a, twos_u as nat);
        lemma_split_twos(b, twos_v as nat);
        if twos_u <= twos_v {
            lemma_gcd_shared_twos(u.to_nat(), twos_u as nat, v.to_nat(), twos_v as nat);
        } else {
            lemma_gcd_shared_twos(v.to_nat(), twos_v as nat, u.to_nat(), twos_u as nat);
            lemma_gcd_commutative(a, b);
            lemma_gcd_commutative(u.to_nat(), v.to_nat());
        }
        assert(gcd_nat(a, b) == odd_gcd * pow2(min_twos as nat));
    }
    loop
        invariant
            u.to_nat() % 2 == 1,
            v.to_nat() > 0,
            gcd_nat(u.to_nat(), v.to_nat()) == odd_gcd,
            gcd_nat(a, b) == odd_gcd * pow2(min_twos as nat),
            min_twos < T::width(),
            a > 0,
            a == num1.to_nat(),
            b == num2.to_nat(),
            b > 0,
            a < pow2(T::width()),
        decreases u.to_nat() + v.to_nat(),
    {
        let ghost p0 = u.to_nat();
        let ghost q0 = v.to_nat();
        if u.exceeds(v) {
            std::mem::swap(&mut u, &mut v);
            proof {
                lemma_gcd_commutative(p0, q0);
            }
        }
        let ghost p = u.to_nat();
        let ghost q = v.to_nat();
        assert(p % 2 == 1 || q % 2 == 1);
        v = v.minus(u);
        proof {
            lemma_gcd_subtract(p, q);
        }
        if v.is_zero() {
            proof {
                lemma_gcd_zero(p);
                lemma_gcd_divides(a, b);
                lemma_divides_le(gcd_nat(a, b) as int, a as int);
                assert(gcd_nat(p, q) == odd_gcd);
                assert(p == odd_gcd);
            }
            return u.shift_left(min_twos);
        }
        let twos = u.trailing_zero_bits();
        u = u.shift_right(twos);
        proof {
            let d = (q - p) as nat;
            lemma_split_twos(p, twos as nat);
            assert(gcd_nat(p, d) == odd_gcd);
            if p % 2 == 1 {
                lemma_odd_has_no_twos(p, twos as nat);
                lemma2_to64();
                assert(pow2(twos as nat) == 1);
                assert(p / 1 == p);
            } else {
                assert(d % 2 == 1);
                lemma_gcd_drop_twos(u.to_nat(), twos as nat, d);
                assert(p == u.to_nat() * pow2(twos as nat));
            }
            lemma_pow2_pos(twos as nat);
        }
    }
}

/// `gcd` is a function of its arguments: two results that meet its contract
/// for the same arguments are the same value, so calling it twice with the
/// same arguments gives the same result.
pub proof fn lemma_gcd_result_unique<T: UnsignedInt>(num1: T, num2: T, r1: T, r2: T)
    requires
        r1.to_nat() == gcd_nat(num1.to_nat(), num2.to_nat()),
        r2.to_nat() == gcd_nat(num1.to_nat(), num2.to_nat()),
    ensures
        r1 == r2,
{
    r1.lemma_same_number(r2);
}

} // verus!
