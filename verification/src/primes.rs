//! Prime numbers, as far as the proof that the field is one needs them:
//! the prime factors of `p - 1` and the lemma of Euclid for each of them.

use vstd::arithmetic::div_mod::{
    lemma_fundamental_div_mod, lemma_fundamental_div_mod_converse, lemma_mod_bound,
    lemma_mul_mod_noop_left, lemma_mul_mod_noop_right, lemma_small_mod,
};
use vstd::arithmetic::mul::{lemma_mul_is_associative, lemma_mul_is_commutative};
use vstd::prelude::*;

verus! {

/// Whether `q` is prime: at least two, and divisible by no number strictly
/// between one and itself.
pub open spec fn is_prime(q: int) -> bool {
    q >= 2 && forall|r: int| 1 < r < q ==> #[trigger] (q % r) != 0
}

/// A product of two numbers above `b` is above `b * b`.
proof fn lemma_product_above(r: int, s: int, b: int)
    by (nonlinear_arith)
    requires
        r > b,
        s > b,
        b >= 1,
    ensures
        r * s >= (b + 1) * (b + 1),
{
}

/// A number without divisor from two up to `b`, where `(b + 1)^2` exceeds
/// it, has no divisor strictly between one and itself.
pub proof fn lemma_trial_division(q: int, b: int, r: int)
    requires
        q > 1,
        b >= 1,
        (b + 1) * (b + 1) > q,
        forall|k: int| 2 <= k <= b ==> #[trigger] (q % k) != 0,
        1 < r < q,
    ensures
        q % r != 0,
{
    if q % r == 0 {
        let s = q / r;
        lemma_fundamental_div_mod(q, r);
        assert(q == r * s);
        assert(s > 1 && s < q) by (nonlinear_arith)
            requires
                q == r * s,
                1 < r < q,
        ;
        lemma_mul_is_commutative(r, s);
        lemma_fundamental_div_mod_converse(q, s, r, 0);
        assert(q % s == 0);
        if r > b && s > b {
            lemma_product_above(r, s, b);
        }
    }
}

/// Two is prime.
pub proof fn lemma_prime_2()
    ensures
        is_prime(2),
{
}

/// Three is prime.
pub proof fn lemma_prime_3()
    ensures
        is_prime(3),
{
    assert forall|r: int| 1 < r < 3 implies #[trigger] (3int % r) != 0 by {
        assert(r == 2);
    }
}

/// Five is prime.
pub proof fn lemma_prime_5()
    ensures
        is_prime(5),
{
    assert forall|r: int| 1 < r < 5 implies #[trigger] (5int % r) != 0 by {
        assert(r == 2 || r == 3 || r == 4);
    }
}

/// Seventeen is prime.
pub proof fn lemma_prime_17()
    ensures
        is_prime(17),
{
    assert forall|k: int| 2 <= k <= 4 implies #[trigger] (17int % k) != 0 by {
        assert(k == 2 || k == 3 || k == 4);
    }
    assert forall|r: int| 1 < r < 17 implies #[trigger] (17int % r) != 0 by {
        lemma_trial_division(17, 4, r);
    }
}

/// An odd number is divisible by no even number.
proof fn lemma_odd_by_even(q: int, r: int)
    requires
        q % 2 == 1,
        r > 0,
        r % 2 == 0,
    ensures
        q % r != 0,
{
    if q % r == 0 {
        let s = q / r;
        let h = r / 2;
        lemma_fundamental_div_mod(q, r);
        assert(q == 2 * (h * s)) by (nonlinear_arith)
            requires
                q == r * s,
                r == 2 * h,
        ;
    }
}

/// 257 has no divisor from two to sixteen.
proof fn lemma_small_divisors_257(r: int)
    requires
        2 <= r <= 16,
    ensures
        257int % r != 0,
{
    if r % 2 == 0 {
        lemma_odd_by_even(257, r);
    } else if r == 3 {
        assert(257int % 3 != 0);
    } else if r == 5 {
        assert(257int % 5 != 0);
    } else if r == 7 {
        assert(257int % 7 != 0);
    } else if r == 9 {
        assert(257int % 9 != 0);
    } else if r == 11 {
        assert(257int % 11 != 0);
    } else if r == 13 {
        assert(257int % 13 != 0);
    } else if r == 15 {
        assert(257int % 15 != 0);
    }
}

/// 257 is prime.
pub proof fn lemma_prime_257()
    ensures
        is_prime(257),
{
    assert forall|k: int| 2 <= k <= 16 implies #[trigger] (257int % k) != 0 by {
        lemma_small_divisors_257(k);
    }
    assert forall|r: int| 1 < r < 257 implies #[trigger] (257int % r) != 0 by {
        lemma_trial_division(257, 16, r);
    }
}

/// 65537 has no divisor from two to 256.
proof fn lemma_small_divisors_65537(r: int)
    requires
        2 <= r <= 256,
    ensures
        65537int % r != 0,
{
    if r % 2 == 0 {
        lemma_odd_by_even(65537, r);
    } else if r == 3 {
        assert(65537int % 3 != 0);
    } else if r == 5 {
        assert(65537int % 5 != 0);
    } else if r == 7 {
        assert(65537int % 7 != 0);
    } else if r == 9 {
        assert(65537int % 9 != 0);
    } else if r == 11 {
        assert(65537int % 11 != 0);
    } else if r == 13 {
        assert(65537int % 13 != 0);
    } else if r == 15 {
        assert(65537int % 15 != 0);
    } else if r == 17 {
        assert(65537int % 17 != 0);
    } else if r == 19 {
        assert(65537int % 19 != 0);
    } else if r == 21 {
        assert(65537int % 21 != 0);
    } else if r == 23 {
        assert(65537int % 23 != 0);
    } else if r == 25 {
        assert(65537int % 25 != 0);
    } else if r == 27 {
        assert(65537int % 27 != 0);
    } else if r == 29 {
        assert(65537int % 29 != 0);
    } else if r == 31 {
        assert(65537int % 31 != 0);
    } else if r == 33 {
        assert(65537int % 33 != 0);
    } else if r == 35 {
        assert(65537int % 35 != 0);
    } else if r == 37 {
        assert(65537int % 37 != 0);
    } else if r == 39 {
        assert(65537int % 39 != 0);
    } else if r == 41 {
        assert(65537int % 41 != 0);
    } else if r == 43 {
        assert(65537int % 43 != 0);
    } else if r == 45 {
        assert(65537int % 45 != 0);
    } else if r == 47 {
        assert(65537int % 47 != 0);
    } else if r == 49 {
        assert(65537int % 49 != 0);
    } else if r == 51 {
        assert(65537int % 51 != 0);
    } else if r == 53 {
        assert(65537int % 53 != 0);
    } else if r == 55 {
        assert(65537int % 55 != 0);
    } else if r == 57 {
        assert(65537int % 57 != 0);
    } else if r == 59 {
        assert(65537int % 59 != 0);
    } else if r == 61 {
        assert(65537int % 61 != 0);
    } else if r == 63 {
        assert(65537int % 63 != 0);
    } else if r == 65 {
        assert(65537int % 65 != 0);
    } else if r == 67 {
        assert(65537int % 67 != 0);
    } else if r == 69 {
        assert(65537int % 69 != 0);
    } else if r == 71 {
        assert(65537int % 71 != 0);
    } else if r == 73 {
        assert(65537int % 73 != 0);
    } else if r == 75 {
        assert(65537int % 75 != 0);
    } else if r == 77 {
        assert(65537int % 77 != 0);
    } else if r == 79 {
        assert(65537int % 79 != 0);
    } else if r == 81 {
        assert(65537int % 81 != 0);
    } else if r == 83 {
        assert(65537int % 83 != 0);
    } else if r == 85 {
        assert(65537int % 85 != 0);
    } else if r == 87 {
        assert(65537int % 87 != 0);
    } else if r == 89 {
        assert(65537int % 89 != 0);
    } else if r == 91 {
        assert(65537int % 91 != 0);
    } else if r == 93 {
        assert(65537int % 93 != 0);
    } else if r == 95 {
        assert(65537int % 95 != 0);
    } else if r == 97 {
        assert(65537int % 97 != 0);
    } else if r == 99 {
        assert(65537int % 99 != 0);
    } else if r == 101 {
        assert(65537int % 101 != 0);
    } else if r == 103 {
        assert(65537int % 103 != 0);
    } else if r == 105 {
        assert(65537int % 105 != 0);
    } else if r == 107 {
        assert(65537int % 107 != 0);
    } else if r == 109 {
        assert(65537int % 109 != 0);
    } else if r == 111 {
        assert(65537int % 111 != 0);
    } else if r == 113 {
        assert(65537int % 113 != 0);
    } else if r == 115 {
        assert(65537int % 115 != 0);
    } else if r == 117 {
        assert(65537int % 117 != 0);
    } else if r == 119 {
        assert(65537int % 119 != 0);
    } else if r == 121 {
        assert(65537int % 121 != 0);
    } else if r == 123 {
        assert(65537int % 123 != 0);
    } else if r == 125 {
        assert(65537int % 125 != 0);
    } else if r == 127 {
        assert(65537int % 127 != 0);
    } else if r == 129 {
        assert(65537int % 129 != 0);
    } else if r == 131 {
        assert(65537int % 131 != 0);
    } else if r == 133 {
        assert(65537int % 133 != 0);
    } else if r == 135 {
        assert(65537int % 135 != 0);
    } else if r == 137 {
        assert(65537int % 137 != 0);
    } else if r == 139 {
        assert(65537int % 139 != 0);
    } else if r == 141 {
        assert(65537int % 141 != 0);
    } else if r == 143 {
        assert(65537int % 143 != 0);
    } else if r == 145 {
        assert(65537int % 145 != 0);
    } else if r == 147 {
        assert(65537int % 147 != 0);
    } else if r == 149 {
        assert(65537int % 149 != 0);
    } else if r == 151 {
        assert(65537int % 151 != 0);
    } else if r == 153 {
        assert(65537int % 153 != 0);
    } else if r == 155 {
        assert(65537int % 155 != 0);
    } else if r == 157 {
        assert(65537int % 157 != 0);
    } else if r == 159 {
        assert(65537int % 159 != 0);
    } else if r == 161 {
        assert(65537int % 161 != 0);
    } else if r == 163 {
        assert(65537int % 163 != 0);
    } else if r == 165 {
        assert(65537int % 165 != 0);
    } else if r == 167 {
        assert(65537int % 167 != 0);
    } else if r == 169 {
        assert(65537int % 169 != 0);
    } else if r == 171 {
        assert(65537int % 171 != 0);
    } else if r == 173 {
        assert(65537int % 173 != 0);
    } else if r == 175 {
        assert(65537int % 175 != 0);
    } else if r == 177 {
        assert(65537int % 177 != 0);
    } else if r == 179 {
        assert(65537int % 179 != 0);
    } else if r == 181 {
        assert(65537int % 181 != 0);
    } else if r == 183 {
        assert(65537int % 183 != 0);
    } else if r == 185 {
        assert(65537int % 185 != 0);
    } else if r == 187 {
        assert(65537int % 187 != 0);
    } else if r == 189 {
        assert(65537int % 189 != 0);
    } else if r == 191 {
        assert(65537int % 191 != 0);
    } else if r == 193 {
        assert(65537int % 193 != 0);
    } else if r == 195 {
        assert(65537int % 195 != 0);
    } else if r == 197 {
        assert(65537int % 197 != 0);
    } else if r == 199 {
        assert(65537int % 199 != 0);
    } else if r == 201 {
        assert(65537int % 201 != 0);
    } else if r == 203 {
        assert(65537int % 203 != 0);
    } else if r == 205 {
        assert(65537int % 205 != 0);
    } else if r == 207 {
        assert(65537int % 207 != 0);
    } else if r == 209 {
        assert(65537int % 209 != 0);
    } else if r == 211 {
        assert(65537int % 211 != 0);
    } else if r == 213 {
        assert(65537int % 213 != 0);
    } else if r == 215 {
        assert(65537int % 215 != 0);
    } else if r == 217 {
        assert(65537int % 217 != 0);
    } else if r == 219 {
        assert(65537int % 219 != 0);
    } else if r == 221 {
        assert(65537int % 221 != 0);
    } else if r == 223 {
        assert(65537int % 223 != 0);
    } else if r == 225 {
        assert(65537int % 225 != 0);
    } else if r == 227 {
        assert(65537int % 227 != 0);
    } else if r == 229 {
        assert(65537int % 229 != 0);
    } else if r == 231 {
        assert(65537int % 231 != 0);
    } else if r == 233 {
        assert(65537int % 233 != 0);
    } else if r == 235 {
        assert(65537int % 235 != 0);
    } else if r == 237 {
        assert(65537int % 237 != 0);
    } else if r == 239 {
        assert(65537int % 239 != 0);
    } else if r == 241 {
        assert(65537int % 241 != 0);
    } else if r == 243 {
        assert(65537int % 243 != 0);
    } else if r == 245 {
        assert(65537int % 245 != 0);
    } else if r == 247 {
        assert(65537int % 247 != 0);
    } else if r == 249 {
        assert(65537int % 249 != 0);
    } else if r == 251 {
        assert(65537int % 251 != 0);
    } else if r == 253 {
        assert(65537int % 253 != 0);
    } else if r == 255 {
        assert(65537int % 255 != 0);
    }
}

/// 65537 is prime.
pub proof fn lemma_prime_65537()
    ensures
        is_prime(65537),
{
    assert forall|k: int| 2 <= k <= 256 implies #[trigger] (65537int % k) != 0 by {
        lemma_small_divisors_65537(k);
    }
    assert forall|r: int| 1 < r < 65537 implies #[trigger] (65537int % r) != 0 by {
        lemma_trial_division(65537, 256, r);
    }
}

/// Modulo a prime every number that is not a multiple of it has an
/// inverse.
pub proof fn lemma_inverse_mod_prime(q: int, r: int)
    requires
        is_prime(q),
        0 < r < q,
    ensures
        exists|u: int| #[trigger] ((u * r) % q) == 1,
    decreases r,
{
    if r == 1 {
        assert((1 * r) % q == 1) by {
            lemma_small_mod(1, q as nat);
        }
    } else {
        let k = q / r;
        let s = q % r;
        lemma_fundamental_div_mod(q, r);
        lemma_mod_bound(q, r);
        assert(q % r != 0);
        lemma_inverse_mod_prime(q, s);
        let v = choose|v: int| #[trigger] ((v * s) % q) == 1;
        // s = q - r k, so v s = v q - (v k) r, which is -(v k) r modulo q
        let u = -(v * k);
        assert(u * r == v * s - v * q) by (nonlinear_arith)
            requires
                u == -(v * k),
                q == r * k + s,
        ;
        assert((v * s - v * q) % q == (v * s) % q) by {
            lemma_mul_is_commutative(v, q);
            vstd::arithmetic::div_mod::lemma_mod_multiples_vanish(-v, v * s, q);
            assert(q * (-v) + v * s == v * s - v * q) by (nonlinear_arith);
        }
        assert((u * r) % q == 1);
    }
}

/// Euclid's lemma: a prime that divides a product divides one of the
/// factors.
pub proof fn lemma_euclid(q: int, m: int, c: int)
    requires
        is_prime(q),
        (m * c) % q == 0,
        m % q != 0,
    ensures
        c % q == 0,
{
    let r = m % q;
    lemma_mod_bound(m, q);
    lemma_inverse_mod_prime(q, r);
    let u = choose|u: int| #[trigger] ((u * r) % q) == 1;
    // c = 1 * c = (u r) c = u (m c) = 0 modulo q
    assert(((u * r) * c) % q == c % q) by {
        lemma_mul_mod_noop_left(u * r, c, q);
        assert(1 * c == c);
    }
    assert((u * r) % q == (u * m) % q) by {
        lemma_mul_mod_noop_right(u, m, q);
    }
    assert(((u * m) * c) % q == c % q) by {
        lemma_mul_mod_noop_left(u * m, c, q);
        lemma_mul_mod_noop_left(u * r, c, q);
    }
    assert((u * (m * c)) % q == 0) by {
        lemma_mul_mod_noop_right(u, m * c, q);
        assert(u * 0 == 0);
        lemma_small_mod(0, q as nat);
    }
    lemma_mul_is_associative(u, m, c);
}

/// A number that is no multiple of the prime `q` and divides `q * x`
/// divides `x`.
pub proof fn lemma_cancel_prime(q: int, m: int, x: int)
    requires
        is_prime(q),
        m > 0,
        m % q != 0,
        (q * x) % m == 0,
    ensures
        x % m == 0,
{
    let c = (q * x) / m;
    lemma_fundamental_div_mod(q * x, m);
    assert(q * x == m * c);
    assert((m * c) % q == 0) by {
        lemma_mul_is_commutative(q, x);
        vstd::arithmetic::div_mod::lemma_mod_multiples_basic(x, q);
    }
    lemma_euclid(q, m, c);
    let d = c / q;
    lemma_fundamental_div_mod(c, q);
    assert(c == q * d);
    assert(q * x == q * (m * d)) by (nonlinear_arith)
        requires
            q * x == m * c,
            c == q * d,
    ;
    assert(x == m * d) by (nonlinear_arith)
        requires
            q * x == q * (m * d),
            q >= 2,
    ;
    lemma_mul_is_commutative(m, d);
    lemma_fundamental_div_mod_converse(x, m, d, 0);
}

} // verus!
