use vstd::arithmetic::div_mod::{lemma_fundamental_div_mod, lemma_mod_multiples_basic};
use vstd::arithmetic::power2::{lemma_pow2_pos, lemma_pow2_unfold, pow2};
use vstd::bits::{
    lemma_u64_low_bits_mask_is_mod, lemma_u64_pow2_no_overflow, lemma_u64_shl_is_mul,
    lemma_u64_shr_is_div, low_bits_mask,
};
use vstd::std_specs::bits::{axiom_u64_trailing_zeros, u64_trailing_zeros};
use vstd::prelude::*;

verus! {

/// Whether `d` divides `n`. Only 0 is divided by 0.
pub open spec fn divides(d: nat, n: nat) -> bool {
    if d == 0 {
        n == 0
    } else {
        n % d == 0
    }
}

/// Whether `g` is the greatest common divisor of `a` and `b`: it divides
/// both, and whatever divides both divides it.
pub open spec fn is_gcd(g: nat, a: nat, b: nat) -> bool {
    &&& divides(g, a)
    &&& divides(g, b)
    &&& forall|d: nat| #[trigger] divides(d, a) && divides(d, b) ==> divides(d, g)
}

/// A product is divided by each of its factors.
pub proof fn lemma_divides_product(d: nat, k: nat)
    ensures
        divides(d, d * k),
        divides(d, k * d),
{
    if d > 0 {
        lemma_mod_multiples_basic(k as int, d as int);
        assert(d * k == k * d) by (nonlinear_arith);
    } else {
        assert(d * k == 0) by (nonlinear_arith)
            requires
                d == 0,
        ;
        assert(k * d == 0) by (nonlinear_arith)
            requires
                d == 0,
        ;
    }
}

/// What `d` divides is `d` times the quotient.
pub proof fn lemma_divides_quotient(d: nat, n: nat)
    requires
        divides(d, n),
        d > 0,
    ensures
        n == d * (n / d),
{
    lemma_fundamental_div_mod(n as int, d as int);
}

/// A divisor of two numbers divides their difference.
pub proof fn lemma_divides_difference(d: nat, a: nat, b: nat)
    requires
        divides(d, a),
        divides(d, b),
        a <= b,
    ensures
        divides(d, (b - a) as nat),
{
    if d > 0 {
        lemma_divides_quotient(d, a);
        lemma_divides_quotient(d, b);
        let x = a / d;
        let y = b / d;
        assert(x <= y) by (nonlinear_arith)
            requires
                d > 0,
                a == d * x,
                b == d * y,
                a <= b,
        ;
        assert(b - a == d * ((y - x) as nat)) by (nonlinear_arith)
            requires
                a == d * x,
                b == d * y,
                x <= y,
        ;
        lemma_divides_product(d, (y - x) as nat);
    }
}

/// A divisor of two numbers divides their sum.
pub proof fn lemma_divides_sum(d: nat, a: nat, b: nat)
    requires
        divides(d, a),
        divides(d, b),
    ensures
        divides(d, a + b),
{
    if d > 0 {
        lemma_divides_quotient(d, a);
        lemma_divides_quotient(d, b);
        let x = a / d;
        let y = b / d;
        assert(a + b == d * (x + y)) by (nonlinear_arith)
            requires
                a == d * x,
                b == d * y,
        ;
        lemma_divides_product(d, x + y);
    }
}

/// A divisor of a number divides its multiples.
pub proof fn lemma_divides_multiple(d: nat, a: nat, m: nat)
    requires
        divides(d, a),
    ensures
        divides(d, a * m),
        divides(d, m * a),
{
    if d > 0 {
        lemma_divides_quotient(d, a);
        let x = a / d;
        assert(a * m == d * (x * m)) by (nonlinear_arith)
            requires
                a == d * x,
        ;
        assert(m * a == d * (x * m)) by (nonlinear_arith)
            requires
                a == d * x,
        ;
        lemma_divides_product(d, x * m);
    } else {
        assert(a * m == 0 && m * a == 0) by (nonlinear_arith)
            requires
                a == 0,
        ;
    }
}

/// A divisor of a positive number is not greater than it.
pub proof fn lemma_divisor_bound(d: nat, n: nat)
    requires
        divides(d, n),
        n > 0,
    ensures
        1 <= d <= n,
{
    lemma_divides_quotient(d, n);
    let x = n / d;
    assert(d <= n) by (nonlinear_arith)
        requires
            n == d * x,
            n > 0,
            d > 0,
            x >= 0,
    ;
}

/// Two numbers that divide each other are equal.
pub proof fn lemma_divides_antisymmetric(a: nat, b: nat)
    requires
        divides(a, b),
        divides(b, a),
    ensures
        a == b,
{
    if a > 0 && b > 0 {
        lemma_divisor_bound(a, b);
        lemma_divisor_bound(b, a);
    }
}

/// Two numbers have at most one greatest common divisor.
pub proof fn lemma_gcd_unique(g: nat, h: nat, a: nat, b: nat)
    requires
        is_gcd(g, a, b),
        is_gcd(h, a, b),
    ensures
        g == h,
{
    assert(divides(g, a) && divides(g, b));
    assert(divides(h, a) && divides(h, b));
    lemma_divides_antisymmetric(g, h);
}

/// An odd number that divides the double of a number divides the number.
pub proof fn lemma_odd_divides_half(d: nat, a: nat)
    requires
        d % 2 == 1,
        divides(d, 2 * a),
    ensures
        divides(d, a),
{
    lemma_divides_quotient(d, 2 * a);
    let k = (2 * a) / d;
    if k % 2 == 1 {
        let x = d / 2;
        let y = k / 2;
        assert(d * k == 2 * (2 * x * y + x + y) + 1) by (nonlinear_arith)
            requires
                d == 2 * x + 1,
                k == 2 * y + 1,
        ;
        assert(false);
    }
    let m = k / 2;
    assert(a == d * m) by (nonlinear_arith)
        requires
            2 * a == d * k,
            k == 2 * m,
    ;
    lemma_divides_product(d, m);
}

/// Whatever divides an odd number is odd.
pub proof fn lemma_divisor_of_odd(d: nat, b: nat)
    requires
        b % 2 == 1,
        divides(d, b),
    ensures
        d % 2 == 1,
{
    lemma_divisor_bound(d, b);
    lemma_divides_quotient(d, b);
    let k = b / d;
    if d % 2 == 0 {
        let x = d / 2;
        assert(b == 2 * (x * k)) by (nonlinear_arith)
            requires
                b == d * k,
                d == 2 * x,
        ;
        assert(false);
    }
}

/// Doubling both sides keeps divisibility, and so does halving them.
pub proof fn lemma_divides_doubled(e: nat, a: nat)
    ensures
        divides(e, a) <==> divides(2 * e, 2 * a),
{
    if e > 0 {
        if divides(e, a) {
            lemma_divides_quotient(e, a);
            let k = a / e;
            assert(2 * a == (2 * e) * k) by (nonlinear_arith)
                requires
                    a == e * k,
            ;
            lemma_divides_product(2 * e, k);
        }
        if divides(2 * e, 2 * a) {
            lemma_divides_quotient(2 * e, 2 * a);
            let k = (2 * a) / (2 * e);
            assert(a == e * k) by (nonlinear_arith)
                requires
                    2 * a == (2 * e) * k,
            ;
            lemma_divides_product(e, k);
        }
    }
}

/// The greatest common divisor of two doubles is the double of the
/// greatest common divisor.
pub proof fn lemma_gcd_doubled(g: nat, a: nat, b: nat)
    requires
        is_gcd(g, a, b),
    ensures
        is_gcd(2 * g, 2 * a, 2 * b),
{
    lemma_divides_doubled(g, a);
    lemma_divides_doubled(g, b);
    assert forall|d: nat| #[trigger] divides(d, 2 * a) && divides(d, 2 * b) implies divides(
        d,
        2 * g,
    ) by {
        if d % 2 == 1 {
            lemma_odd_divides_half(d, a);
            lemma_odd_divides_half(d, b);
            assert(divides(d, g));
            lemma_divides_multiple(d, g, 2);
        } else {
            let e = d / 2;
            lemma_divides_doubled(e, a);
            lemma_divides_doubled(e, b);
            assert(divides(e, g));
            lemma_divides_doubled(e, g);
        }
    }
}

/// Doubling one of two numbers, the other being odd, keeps their greatest
/// common divisor.
pub proof fn lemma_gcd_double_one(g: nat, a: nat, b: nat)
    requires
        b % 2 == 1,
        is_gcd(g, a, b),
    ensures
        is_gcd(g, 2 * a, b),
        is_gcd(g, b, 2 * a),
{
    lemma_divides_multiple(g, a, 2);
    assert forall|d: nat| #[trigger] divides(d, 2 * a) && divides(d, b) implies divides(d, g) by {
        lemma_divisor_of_odd(d, b);
        lemma_odd_divides_half(d, a);
    }
    assert forall|d: nat| #[trigger] divides(d, b) && divides(d, 2 * a) implies divides(d, g) by {
        lemma_divisor_of_odd(d, b);
        lemma_odd_divides_half(d, a);
    }
}

/// The order of the two numbers does not matter.
pub proof fn lemma_gcd_symmetric(g: nat, a: nat, b: nat)
    requires
        is_gcd(g, a, b),
    ensures
        is_gcd(g, b, a),
{
    assert forall|d: nat| #[trigger] divides(d, b) && divides(d, a) implies divides(d, g) by {
        assert(divides(d, a) && divides(d, b));
    }
}

/// Multiplying two numbers by the same power of 2 multiplies their greatest
/// common divisor by it.
pub proof fn lemma_gcd_shifted(g: nat, a: nat, b: nat, t: nat)
    requires
        is_gcd(g, a, b),
    ensures
        is_gcd(g * pow2(t), a * pow2(t), b * pow2(t)),
    decreases t,
{
    if t == 0 {
        assert(pow2(0) == 1) by {
            vstd::arithmetic::power2::lemma2_to64();
        }
        assert(g * 1 == g && a * 1 == a && b * 1 == b) by (nonlinear_arith);
    } else {
        let p = pow2((t - 1) as nat);
        lemma_gcd_shifted(g, a, b, (t - 1) as nat);
        lemma_pow2_unfold(t);
        lemma_gcd_doubled(g * p, a * p, b * p);
        assert(2 * (g * p) == g * (2 * p) && 2 * (a * p) == a * (2 * p) && 2 * (b * p) == b * (2
            * p)) by (nonlinear_arith);
    }
}

/// Multiplying one of two numbers by a power of 2, the other being odd,
/// keeps their greatest common divisor.
pub proof fn lemma_gcd_shift_one(g: nat, a: nat, b: nat, t: nat)
    requires
        b % 2 == 1,
        is_gcd(g, a, b),
    ensures
        is_gcd(g, a * pow2(t), b),
        is_gcd(g, b, a * pow2(t)),
    decreases t,
{
    if t == 0 {
        assert(pow2(0) == 1) by {
            vstd::arithmetic::power2::lemma2_to64();
        }
        assert(a * 1 == a) by (nonlinear_arith);
        lemma_gcd_symmetric(g, a, b);
    } else {
        let p = pow2((t - 1) as nat);
        lemma_gcd_shift_one(g, a, b, (t - 1) as nat);
        lemma_pow2_unfold(t);
        lemma_gcd_double_one(g, a * p, b);
        assert(2 * (a * p) == a * (2 * p)) by (nonlinear_arith);
    }
}

/// An odd number that divides a number times a power of 2 divides the number.
pub proof fn lemma_odd_divides_unshifted(d: nat, a: nat, t: nat)
    requires
        d % 2 == 1,
        divides(d, a * pow2(t)),
    ensures
        divides(d, a),
    decreases t,
{
    if t == 0 {
        assert(pow2(0) == 1) by {
            vstd::arithmetic::power2::lemma2_to64();
        }
        assert(a * 1 == a) by (nonlinear_arith);
    } else {
        let p = pow2((t - 1) as nat);
        lemma_pow2_unfold(t);
        assert(a * (2 * p) == 2 * (a * p)) by (nonlinear_arith);
        lemma_odd_divides_half(d, a * p);
        lemma_odd_divides_unshifted(d, a, (t - 1) as nat);
    }
}

/// A number other than 0, shifted right by the number of its trailing zeros,
/// is odd, and the number is that odd part times a power of 2.
pub proof fn lemma_odd_part(i: u64)
    requires
        i != 0,
    ensures
        u64_trailing_zeros(i) < 64,
        (i >> u64_trailing_zeros(i)) % 2 == 1,
        i == (i >> u64_trailing_zeros(i)) * pow2(u64_trailing_zeros(i) as nat),
{
    axiom_u64_trailing_zeros(i);
    let t: u64 = u64_trailing_zeros(i) as u64;
    let o: u64 = i >> t;
    assert(o % 2 == 1) by (bit_vector)
        requires
            o & 1 == 1,
    ;
    lemma_u64_pow2_no_overflow(t as nat);
    lemma_u64_shl_is_mul(1, t);
    let mask: u64 = ((1u64 << t) - 1) as u64;
    let rest: u64 = (64 - t) as u64;
    assert(mask == low_bits_mask(t as nat));
    assert(i << rest == 0);
    assert(i & mask == 0) by (bit_vector)
        requires
            t < 64,
            rest == 64 - t,
            i << rest == 0,
            mask == (1u64 << t) - 1,
    ;
    lemma_u64_low_bits_mask_is_mod(i, t as nat);
    lemma_u64_shr_is_div(i, t);
    lemma_pow2_pos(t as nat);
    lemma_fundamental_div_mod(i as int, pow2(t as nat) as int);
    assert(i == o * pow2(t as nat)) by (nonlinear_arith)
        requires
            i == pow2(t as nat) * (i as int / pow2(t as nat) as int) + 0,
            o == i as int / pow2(t as nat) as int,
    ;
}

/// Whether `a` and `b` have the same common divisors as `c` and `e`.
pub open spec fn same_common_divisors(a: nat, b: nat, c: nat, e: nat) -> bool {
    forall|d: nat|
        #![trigger divides(d, a)]
        #![trigger divides(d, c)]
        (divides(d, a) && divides(d, b)) <==> (divides(d, c) && divides(d, e))
}

/// Subtracting the smaller of two numbers from the greater keeps their
/// common divisors.
pub proof fn lemma_subtract_keeps_divisors(a: nat, b: nat, c: nat, e: nat)
    requires
        a <= b,
        same_common_divisors(a, b, c, e),
    ensures
        same_common_divisors(a, (b - a) as nat, c, e),
{
    assert forall|d: nat|
        #![trigger divides(d, a)]
        #![trigger divides(d, c)]
        (divides(d, a) && divides(d, (b - a) as nat)) <==> (divides(d, c) && divides(d, e)) by {
        if divides(d, a) && divides(d, (b - a) as nat) {
            lemma_divides_sum(d, a, (b - a) as nat);
        }
        if divides(d, a) && divides(d, b) {
            lemma_divides_difference(d, a, b);
        }
    }
}

/// Taking a power of 2 out of one of two numbers, the other being odd,
/// keeps their common divisors.
pub proof fn lemma_unshift_keeps_divisors(a: nat, o: nat, t: nat, c: nat, e: nat)
    requires
        a % 2 == 1,
        same_common_divisors(a, o * pow2(t), c, e),
    ensures
        same_common_divisors(a, o, c, e),
{
    assert forall|d: nat|
        #![trigger divides(d, a)]
        #![trigger divides(d, c)]
        (divides(d, a) && divides(d, o)) <==> (divides(d, c) && divides(d, e)) by {
        if divides(d, a) && divides(d, o) {
            lemma_divides_multiple(d, o, pow2(t));
        }
        if divides(d, a) && divides(d, o * pow2(t)) {
            lemma_divisor_of_odd(d, a);
            lemma_odd_divides_unshifted(d, o, t);
        }
    }
}

/// A number that has, together with 0, the common divisors of two numbers
/// is their greatest common divisor.
pub proof fn lemma_gcd_reached(a: nat, c: nat, e: nat)
    requires
        same_common_divisors(a, 0, c, e),
    ensures
        is_gcd(a, c, e),
{
    lemma_divides_product(a, 1);
    assert(a * 1 == a) by (nonlinear_arith);
    assert(divides(a, a) && divides(a, 0));
    assert forall|d: nat| #[trigger] divides(d, c) && divides(d, e) implies divides(d, a) by {
        assert(divides(d, a) && divides(d, 0));
    }
}

/// The greatest common divisor of the odd parts of two numbers, times the
/// greatest power of 2 that divides both, is the greatest common divisor of
/// the numbers.
pub proof fn lemma_gcd_of_odd_parts(g: nat, a: nat, tu: nat, b: nat, tv: nat)
    requires
        a % 2 == 1,
        b % 2 == 1,
        is_gcd(g, a, b),
    ensures
        is_gcd(
            g * pow2(
                if tu < tv {
                    tu
                } else {
                    tv
                },
            ),
            a * pow2(tu),
            b * pow2(tv),
        ),
{
    let k = if tu < tv {
        tu
    } else {
        tv
    };
    let ru = (tu - k) as nat;
    let rv = (tv - k) as nat;
    assert(pow2(0) == 1) by {
        vstd::arithmetic::power2::lemma2_to64();
    }
    if tu < tv {
        lemma_gcd_symmetric(g, a, b);
        lemma_gcd_shift_one(g, b, a, rv);
        assert(a * pow2(ru) == a) by (nonlinear_arith)
            requires
                pow2(ru) == 1,
        ;
    } else {
        lemma_gcd_shift_one(g, a, b, ru);
        assert(b * pow2(rv) == b) by (nonlinear_arith)
            requires
                pow2(rv) == 1,
        ;
    }
    assert(is_gcd(g, a * pow2(ru), b * pow2(rv)));
    lemma_gcd_shifted(g, a * pow2(ru), b * pow2(rv), k);
    vstd::arithmetic::power2::lemma_pow2_adds(ru, k);
    vstd::arithmetic::power2::lemma_pow2_adds(rv, k);
    assert(a * pow2(ru) * pow2(k) == a * pow2(tu)) by (nonlinear_arith)
        requires
            pow2(tu) == pow2(ru) * pow2(k),
    ;
    assert(b * pow2(rv) * pow2(k) == b * pow2(tv)) by (nonlinear_arith)
        requires
            pow2(tv) == pow2(rv) * pow2(k),
    ;
}

/// The greatest common divisor of `u` and `v`, by the binary algorithm:
/// powers of 2 are taken out by shifts, and the odd parts are reduced by
/// subtraction alone.
pub fn gcd(u: u64, v: u64) -> (g: u64)
    ensures
        is_gcd(g as nat, u as nat, v as nat),
{
    if u == 0 {
        proof {
            lemma_divides_product(v as nat, 1);
            assert(v * 1 == v) by (nonlinear_arith);
        }
        return v;
    } else if v == 0 {
        proof {
            lemma_divides_product(u as nat, 1);
            assert(u * 1 == u) by (nonlinear_arith);
        }
        return u;
    }
    let mut a: u64 = u;
    let mut b: u64 = v;
    proof {
        lemma_odd_part(u);
        lemma_odd_part(v);
    }
    let twos_u: u32 = a.trailing_zeros();
    a >>= twos_u;
    let twos_v: u32 = b.trailing_zeros();
    b >>= twos_v;
    let twos_gcd: u32 = if twos_u < twos_v {
        twos_u
    } else {
        twos_v
    };
    let ghost odd_u: nat = a as nat;
    let ghost odd_v: nat = b as nat;

    loop
        invariant
            u != 0,
            v != 0,
            a % 2 == 1,
            b % 2 == 1,
            odd_u % 2 == 1,
            odd_v % 2 == 1,
            u == odd_u * pow2(twos_u as nat),
            v == odd_v * pow2(twos_v as nat),
            twos_gcd == if twos_u < twos_v {
                twos_u
            } else {
                twos_v
            },
            twos_gcd < 64,
            same_common_divisors(a as nat, b as nat, odd_u, odd_v),
        decreases a + b,
    {
        if b < a {
            let t: u64 = a;
            a = b;
            b = t;
        }
        proof {
            lemma_subtract_keeps_divisors(a as nat, b as nat, odd_u, odd_v);
        }
        b -= a;

        if b == 0 {
            proof {
                lemma_gcd_reached(a as nat, odd_u, odd_v);
                lemma_gcd_of_odd_parts(
                    a as nat,
                    odd_u,
                    twos_u as nat,
                    odd_v,
                    twos_v as nat,
                );
                let whole: nat = a as nat * pow2(twos_gcd as nat);
                lemma_divisor_bound(whole, u as nat);
                lemma_u64_shl_is_mul(a, twos_gcd as u64);
            }
            return a << twos_gcd;
        }
        proof {
            lemma_odd_part(b);
            lemma_unshift_keeps_divisors(
                a as nat,
                (b >> u64_trailing_zeros(b)) as nat,
                u64_trailing_zeros(b) as nat,
                odd_u,
                odd_v,
            );
            lemma_pow2_pos(u64_trailing_zeros(b) as nat);
            assert((b >> u64_trailing_zeros(b)) <= b) by (nonlinear_arith)
                requires
                    b == (b >> u64_trailing_zeros(b)) * pow2(u64_trailing_zeros(b) as nat),
                    pow2(u64_trailing_zeros(b) as nat) > 0,
            ;
        }
        b >>= b.trailing_zeros();
    }
}

} // verus!
