//! The prime-check service: is the number in the request a prime?

use vstd::prelude::*;

verus! {

/// The one method the service knows.
pub const IS_PRIME: &'static str = "isPrime";

/// A whole number greater than 1 that only 1 and itself divide.
pub open spec fn is_prime_number(n: int) -> bool {
    &&& n > 1
    &&& forall|d: int| 1 < d < n ==> #[trigger] (n % d) != 0
}

/// A number as a request carries it: whole, or with a fractional part.
#[derive(Clone, Copy, Debug, PartialEq, Eq, Structural)]
pub enum Number {
    /// A whole number.
    Integer(i64),
    /// Anything else. No such number is prime.
    Fraction,
}

/// A request: a method and the number to apply it to.
pub struct Request {
    pub method: String,
    pub number: Number,
}

/// The answer to a well-formed request.
pub struct Response {
    pub method: String,
    pub prime: bool,
}

/// The request asks for a method other than [`IS_PRIME`].
#[derive(Clone, Copy, Debug, PartialEq, Eq, Structural)]
pub struct InvalidMethod;

impl Response {
    /// The answer that says whether the number was prime.
    pub fn new(prime: bool) -> (response: Self)
        ensures
            response.method@ == IS_PRIME@,
            response.prime == prime,
    {
        Response { method: String::from_str(IS_PRIME), prime }
    }
}

/// A number with no divisor from 2 up to its square root has none at all.
proof fn lemma_divisors_come_in_pairs(n: int, bound: int)
    requires
        n > 1,
        bound >= 2,
        bound > n / bound,
        forall|d: int| 1 < d < bound ==> #[trigger] (n % d) != 0,
    ensures
        is_prime_number(n),
{
    assert forall|d: int| 1 < d < n implies #[trigger] (n % d) != 0 by {
        if d >= bound && n % d == 0 {
            let e = n / d;
            assert(n == d * e) by (nonlinear_arith)
                requires
                    e == n / d,
                    n % d == 0,
                    d > 0,
            ;
            assert(n < bound * bound) by (nonlinear_arith)
                requires
                    bound > n / bound,
                    bound >= 2,
                    n > 1,
            ;
            assert(1 < e) by (nonlinear_arith)
                requires
                    n == d * e,
                    1 < d < n,
            ;
            assert(e < bound) by (nonlinear_arith)
                requires
                    n == d * e,
                    d >= bound,
                    bound >= 2,
                    n < bound * bound,
            ;
            assert(n % e == 0) by (nonlinear_arith)
                requires
                    n == d * e,
                    e > 0,
            ;
        }
    }
}

/// Whether `num` is a prime number.
pub fn is_prime(num: Number) -> (prime: bool)
    ensures
        prime == match num {
            Number::Integer(n) => is_prime_number(n as int),
            Number::Fraction => false,
        },
{
    let n = match num {
        Number::Integer(n) => n,
        Number::Fraction => {
            return false;
        },
    };
    if n <= 1 {
        return false;
    }
    let mut i: i64 = 2;
    while i <= n / i
        invariant
            num == Number::Integer(n),
            n > 1,
            2 <= i <= n,
            forall|d: int| 1 < d < i ==> #[trigger] (n as int % d) != 0,
        decreases n - i,
    {
        assert(i < n) by (nonlinear_arith)
            requires
                2 <= i <= n / i,
                n > 1,
        ;
        if n % i == 0 {
            assert(n as int % i as int == 0);
            return false;
        }
        i += 1;
    }
    proof {
        lemma_divisors_come_in_pairs(n as int, i as int);
    }
    true
}

/// Answers a request: with the verdict on its number, or with an error if
/// it asks for anything but [`IS_PRIME`].
pub fn handle_prime_request(request: &Request) -> (r: Result<Response, InvalidMethod>)
    ensures
        r is Ok <==> request.method@ == IS_PRIME@,
        r matches Ok(response) ==> {
            &&& response.method@ == IS_PRIME@
            &&& response.prime == match request.number {
                Number::Integer(n) => is_prime_number(n as int),
                Number::Fraction => false,
            }
        },
{
    if request.method != String::from_str(IS_PRIME) {
        return Err(InvalidMethod);
    }
    Ok(Response::new(is_prime(request.number)))
}

} // verus!
