use vstd::prelude::*;

verus! {

/// Greatest common divisor by Euclid's recurrence: repeatedly replace the
/// larger number with its remainder modulo the smaller, until one is zero.
pub open spec fn spec_gcd(n: nat, m: nat) -> nat
    decreases m,
{
    if m == 0 {
        n
    } else if n == 0 {
        m
    } else if m < n {
        spec_gcd(m, (n % m) as nat)
    } else {
        spec_gcd(n, (m % n) as nat)
    }
}

/// Greatest common divisor of two nonzero numbers.
pub fn gcd(n: u64, m: u64) -> (d: u64)
    requires
        m != 0 && n != 0,
    ensures
        d == spec_gcd(n as nat, m as nat),
{
    let mut a = n;
    let mut b = m;
    while b != 0
        invariant
            a != 0,
            spec_gcd(a as nat, b as nat) == spec_gcd(n as nat, m as nat),
        decreases b,
    {
        if b < a {
            let t: u64 = b;
            b = a;
            a = t;
        }
        b = b % a;
    }
    a
}

} // verus!
