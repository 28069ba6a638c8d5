//! The primality service's decision core: an exact integer primality
//! check, and the exact JSON reply for a well-formed request. Parsing
//! the request line is the surrounding process's job; it hands in the
//! method string and the number, already reduced to an integer when the
//! number is a whole one.

use vstd::prelude::*;
use vstd::arithmetic::div_mod::{
    lemma_div_by_self, lemma_div_is_ordered, lemma_div_is_ordered_by_denominator,
    lemma_fundamental_div_mod, lemma_mod_multiples_basic,
};
use vstd::arithmetic::mul::lemma_mul_inequality;
use vstd::string::StringExecFns;
use crate::text::str_eq;

verus! {

/// Primality over the integers: at least two, and no proper divisor.
pub open spec fn spec_prime(n: int) -> bool {
    n >= 2 && (forall|d: int| 2 <= d < n ==> #[trigger] (n % d) != 0)
}

/// `i <= n / i` says exactly that `i * i` does not exceed `n`.
proof fn lemma_sqrt_bound(n: int, i: int)
    requires
        n >= 0,
        i >= 1,
    ensures
        (i <= n / i) <==> (i * i <= n),
{
    lemma_fundamental_div_mod(n, i);
    if i <= n / i {
        lemma_mul_inequality(i, n / i, i);
        assert((n / i) * i == i * (n / i)) by (nonlinear_arith);
    }
    if i * i <= n && n / i < i {
        lemma_mul_inequality(n / i, i - 1, i);
        assert((n / i) * i == i * (n / i)) by (nonlinear_arith);
        assert((i - 1) * i == i * i - i) by (nonlinear_arith);
    }
}

/// A divisor of `n` at or past a cutoff whose square exceeds `n` pairs
/// with a cofactor strictly below the cutoff.
proof fn lemma_large_divisor(n: int, i: int, d: int)
    requires
        n >= 2,
        2 <= i,
        i * i > n,
        i <= d < n,
        n % d == 0,
    ensures
        2 <= n / d < i,
        n % (n / d) == 0,
{
    let q = n / d;
    lemma_fundamental_div_mod(n, d);
    assert(n == d * q);
    lemma_div_is_ordered(d, n, d);
    lemma_div_by_self(d);
    assert(q >= 1);
    assert(q != 1) by {
        if q == 1 {
            assert(d * 1 == d) by (nonlinear_arith);
        }
    }
    lemma_div_is_ordered_by_denominator(n, i, d);
    lemma_sqrt_bound(n, i);
    lemma_mod_multiples_basic(d, q);
    assert(d * q == q * d) by (nonlinear_arith);
}

/// Decides primality of `n` exactly, by trial division up to the
/// square root.
pub fn is_prime(n: i64) -> (r: bool)
    ensures
        r == spec_prime(n as int),
{
    if n <= 1 {
        return false;
    }
    let nu = n as u64;
    let mut i: u64 = 2;
    while i <= nu / i
        invariant
            nu as int == n as int,
            nu >= 2,
            2 <= i,
            forall|d: int| 2 <= d < i ==> #[trigger] ((n as int) % d) != 0,
        decreases nu - i,
    {
        proof {
            lemma_sqrt_bound(nu as int, i as int);
            lemma_mul_inequality(2, i as int, i as int);
            assert(2 * (i as int) <= nu as int);
        }
        if nu % i == 0 {
            assert((n as int) % (i as int) == 0);
            return false;
        }
        i = i + 1;
    }
    proof {
        lemma_sqrt_bound(nu as int, i as int);
        assert forall|d: int| 2 <= d < nu implies #[trigger] ((n as int) % d) != 0 by {
            if d >= i && (n as int) % d == 0 {
                lemma_large_divisor(nu as int, i as int, d);
                let q = (nu as int) / d;
                assert((n as int) % q != 0);
                assert(false);
            }
        }
    }
    true
}

/// The exact reply text for a well-formed request.
pub open spec fn prime_response_text(prime: bool) -> Seq<char> {
    if prime {
        "{\"method\":\"isPrime\",\"prime\":true}"@
    } else {
        "{\"method\":\"isPrime\",\"prime\":false}"@
    }
}

/// The reply to one request: `None` when the method is not `isPrime`
/// (the caller then answers with its malformed-request bytes), else the
/// exact JSON reply, whose `prime` field is true exactly when the
/// request's number was a whole number (`Some`) and prime. A request
/// whose number is not whole is handed in as `None` and is never prime.
pub fn prime_time_response(method: &str, number: Option<i64>) -> (r: Option<String>)
    ensures
        r is Some <==> method@ == "isPrime"@,
        method@ == "isPrime"@ ==> (r matches Some(t) && t@ == prime_response_text(
            (number matches Some(n) && spec_prime(n as int)),
        )),
{
    if str_eq(method, "isPrime") {
        let p = match number {
            Option::Some(n) => is_prime(n),
            Option::None => false,
        };
        if p {
            Some(String::from_str("{\"method\":\"isPrime\",\"prime\":true}"))
        } else {
            Some(String::from_str("{\"method\":\"isPrime\",\"prime\":false}"))
        }
    } else {
        None
    }
}

} // verus!
