//! Primes below a bound.
use vstd::prelude::*;
use vstd::arithmetic::div_mod::{lemma_fundamental_div_mod, lemma_mod_multiples_basic};

verus! {

pub open spec fn is_prime(p: int) -> bool {
    p >= 2 && forall|d: int| 2 <= d < p ==> #[trigger] (p % d) != 0
}

/// `s` lists exactly the primes below `n`, in increasing order.
pub open spec fn primes_below(s: Seq<u32>, n: int) -> bool {
    &&& forall|i: int| 0 <= i < s.len() ==> is_prime(s[i] as int) && s[i] < n
    &&& forall|i: int, j: int| 0 <= i < j < s.len() ==> s[i] < s[j]
    &&& forall|p: int| 2 <= p < n && is_prime(p) ==> s.contains(p as u32)
}

proof fn lemma_divides_trans(m: int, d: int, p: int)
    requires
        m > 0,
        d > 0,
        p > 0,
        m % d == 0,
        d % p == 0,
    ensures
        m % p == 0,
{
    lemma_fundamental_div_mod(m, d);
    lemma_fundamental_div_mod(d, p);
    let k = (d / p) * (m / d);
    assert(m == k * p) by (nonlinear_arith)
        requires
            m == d * (m / d),
            d == p * (d / p),
            k == (d / p) * (m / d),
    ;
    lemma_mod_multiples_basic(k, p);
}

/// Every integer from 2 up has a prime factor no larger than itself.
pub proof fn lemma_prime_factor(m: int) -> (p: int)
    requires
        m >= 2,
    ensures
        2 <= p <= m,
        is_prime(p),
        m % p == 0,
    decreases m,
{
    if is_prime(m) {
        assert(m % m == 0) by {
            lemma_mod_multiples_basic(1, m);
        }
        m
    } else {
        let d = choose|d: int| 2 <= d < m && #[trigger] (m % d) == 0;
        let p = lemma_prime_factor(d);
        lemma_divides_trans(m, d, p);
        p
    }
}

/// All primes less than `n`, in increasing order; e.g. `sieve(7)` is
/// `[2, 3, 5]`.
pub fn sieve(n: u32) -> (primes: Vec<u32>)
    ensures
        primes_below(primes@, n as int),
{
    let mut primes: Vec<u32> = Vec::new();
    if n <= 2 {
        return primes;
    }
    let mut i: u32 = 2;
    while i < n
        invariant
            2 <= i <= n,
            primes_below(primes@, i as int),
        decreases n - i,
    {
        let mut no_factor = true;
        let mut j: usize = 0;
        while j < primes.len() && no_factor
            invariant
                j <= primes@.len(),
                primes_below(primes@, i as int),
                2 <= i < n,
                no_factor == forall|k: int| 0 <= k < j ==> (i as int) % (primes@[k] as int) != 0,
            decreases primes@.len() - j,
        {
            if i % primes[j] == 0 {
                no_factor = false;
            }
            j = j + 1;
        }
        proof {
            if no_factor {
                if !is_prime(i as int) {
                    let p = lemma_prime_factor(i as int);
                    assert(p < i) by {
                        if p == i {
                            assert(is_prime(i as int));
                        }
                    }
                    assert(primes@.contains(p as u32));
                    let k = choose|k: int| 0 <= k < primes@.len() && primes@[k] == p as u32;
                    assert((i as int) % (primes@[k] as int) != 0);
                }
            } else {
                let k = choose|k: int| 0 <= k < j && !((i as int) % (primes@[k] as int) != 0);
                assert(2 <= primes@[k] < i);
                assert(!is_prime(i as int));
            }
        }
        if no_factor {
            let ghost before = primes@;
            primes.push(i);
            proof {
                assert forall|p: int| 2 <= p < i + 1 && is_prime(p) implies primes@.contains(
                    p as u32,
                ) by {
                    if p < i {
                        let k = choose|k: int| 0 <= k < before.len() && before[k] == p as u32;
                        assert(primes@[k] == p as u32);
                    } else {
                        assert(primes@[before.len() as int] == i);
                    }
                }
            }
        } else {
            proof {
                assert forall|p: int| 2 <= p < i + 1 && is_prime(p) implies primes@.contains(
                    p as u32,
                ) by {
                    if p == i {
                        assert(false);
                    }
                }
            }
        }
        i = i + 1;
    }
    primes
}

} // verus!
