use vstd::prelude::*;

use vstd::arithmetic::div_mod::{
    lemma_div_is_ordered, lemma_div_multiples_vanish, lemma_div_multiples_vanish_fancy,
    lemma_fundamental_div_mod,
};
use vstd::arithmetic::power2::{
    lemma2_to64, lemma2_to64_rest, lemma_pow2_adds, lemma_pow2_pos, lemma_pow2_strictly_increases,
    lemma_pow2_unfold, pow2,
};

verus! {

/// The floor of the base-two logarithm: the position of the highest set bit.
pub open spec fn floor_log2(n: nat) -> nat
    decreases n,
{
    if n < 2 {
        0
    } else {
        1 + floor_log2(n / 2)
    }
}

/// `floor_log2(n)` brackets `n` between two neighbouring powers of two.
pub proof fn lemma_floor_log2(n: nat)
    requires
        n > 0,
    ensures
        pow2(floor_log2(n)) <= n < pow2(floor_log2(n) + 1),
    decreases n,
{
    if n < 2 {
        lemma2_to64();
    } else {
        lemma_floor_log2(n / 2);
        lemma_pow2_unfold(floor_log2(n));
        lemma_pow2_unfold(floor_log2(n) + 1);
    }
}

/// The bracketing characterizes `floor_log2`.
pub proof fn lemma_floor_log2_unique(n: nat, e: nat)
    requires
        pow2(e) <= n < pow2(e + 1),
    ensures
        floor_log2(n) == e,
{
    lemma_pow2_pos(e);
    lemma_floor_log2(n);
    let l = floor_log2(n);
    if l < e {
        if l + 1 < e {
            lemma_pow2_strictly_increases(l + 1, e);
        }
        assert(pow2(l + 1) <= pow2(e));
    }
    if l > e {
        if e + 1 < l {
            lemma_pow2_strictly_increases(e + 1, l);
        }
        assert(pow2(e + 1) <= pow2(l));
    }
}

/// The IEEE 754 double bit pattern nearest to an integer magnitude, rounding
/// ties to the even mantissa. A magnitude below two to the 53rd is encoded
/// exactly; a larger one is first rounded to the nearest multiple of the
/// scale that its 53-bit mantissa leaves over.
pub open spec fn double_bits_of_mag(n: nat) -> int {
    if n == 0 {
        0
    } else {
        let e = floor_log2(n);
        if e <= 52 {
            (1023 + e) * pow2(52) + (n * pow2((52 - e) as nat) - pow2(52))
        } else {
            let d = pow2((e - 52) as nat);
            let keep0 = n as int / d as int;
            let rem = n as int % d as int;
            let half = d as int / 2;
            let keep = if rem > half || (rem == half && keep0 % 2 == 1) {
                keep0 + 1
            } else {
                keep0
            };
            if keep == pow2(53) {
                (1024 + e) * pow2(52) as int
            } else {
                (1023 + e) * pow2(52) + (keep - pow2(52))
            }
        }
    }
}

/// The IEEE 754 double bit pattern nearest to an integer: the sign bit set
/// for a negative one, and the magnitude encoded as `double_bits_of_mag`.
pub open spec fn double_bits_of_int(i: int) -> int {
    if i >= 0 {
        double_bits_of_mag(i as nat)
    } else {
        pow2(63) + double_bits_of_mag((-i) as nat)
    }
}

/// Below two to the 53rd the encoding is exact: no two such magnitudes
/// share a bit pattern, so only integers beyond that bound lose precision.
pub proof fn lemma_small_mag_encoding_injective(a: nat, b: nat)
    requires
        a < pow2(53),
        b < pow2(53),
        double_bits_of_mag(a) == double_bits_of_mag(b),
    ensures
        a == b,
{
    lemma2_to64();
    lemma2_to64_rest();
    if a != b {
        if a == 0 || b == 0 {
            let n = if a == 0 {
                b
            } else {
                a
            };
            lemma_small_mag_frac_bounds(n);
            assert(double_bits_of_mag(n) >= 1023 * pow2(52)) by (nonlinear_arith)
                requires
                    double_bits_of_mag(n) == (1023 + floor_log2(n)) * pow2(52) + (n * pow2(
                        (52 - floor_log2(n)) as nat,
                    ) - pow2(52)),
                    n * pow2((52 - floor_log2(n)) as nat) - pow2(52) >= 0,
                    pow2(52) >= 1,
            ;
            assert(double_bits_of_mag(0) == 0);
            assert(false);
        } else {
            let ea = floor_log2(a);
            let eb = floor_log2(b);
            lemma_small_mag_frac_bounds(a);
            lemma_small_mag_frac_bounds(b);
            let ra = a * pow2((52 - ea) as nat) - pow2(52);
            let rb = b * pow2((52 - eb) as nat) - pow2(52);
            let x = double_bits_of_mag(a);
            vstd::arithmetic::div_mod::lemma_fundamental_div_mod_converse(
                x,
                pow2(52) as int,
                1023 + ea as int,
                ra,
            );
            vstd::arithmetic::div_mod::lemma_fundamental_div_mod_converse(
                x,
                pow2(52) as int,
                1023 + eb as int,
                rb,
            );
            assert(ea == eb && ra == rb);
            lemma_pow2_pos((52 - ea) as nat);
            assert(a == b) by (nonlinear_arith)
                requires
                    a * pow2((52 - ea) as nat) == b * pow2((52 - ea) as nat),
                    pow2((52 - ea) as nat) >= 1,
            ;
            assert(false);
        }
    }
}

/// For a positive magnitude below two to the 53rd, the encoding's exponent
/// field stays at or below 52 and its mantissa part fills exactly 52 bits.
proof fn lemma_small_mag_frac_bounds(n: nat)
    requires
        0 < n < pow2(53),
    ensures
        floor_log2(n) <= 52,
        pow2(52) <= n * pow2((52 - floor_log2(n)) as nat) < pow2(53),
        double_bits_of_mag(n) == (1023 + floor_log2(n)) * pow2(52) + (n * pow2(
            (52 - floor_log2(n)) as nat,
        ) - pow2(52)),
{
    let e = floor_log2(n);
    lemma_floor_log2(n);
    if e > 52 {
        lemma_pow2_strictly_increases(53, e);
        assert(pow2(53) <= pow2(e));
        assert(false);
    }
    lemma_pow2_adds((e + 1) as nat, (52 - e) as nat);
    lemma_pow2_adds(e as nat, (52 - e) as nat);
    lemma_pow2_pos((52 - e) as nat);
    assert(pow2(52) <= n * pow2((52 - e) as nat) && n * pow2((52 - e) as nat) < pow2(53))
        by (nonlinear_arith)
        requires
            pow2(e as nat) <= n,
            n < pow2((e + 1) as nat),
            pow2((52 - e) as nat) >= 1,
            pow2((e + 1) as nat) * pow2((52 - e) as nat) == pow2(53),
            pow2(e as nat) * pow2((52 - e) as nat) == pow2(52),
    ;
}

/// Two to a small power, as a machine word.
fn pow2_u64(k: u64) -> (r: u64)
    requires
        k < 64,
    ensures
        r == pow2(k as nat),
        r >= 1,
{
    proof {
        lemma2_to64();
        lemma2_to64_rest();
    }
    let mut r: u64 = 1;
    let mut i: u64 = 0;
    #[verifier::loop_isolation(false)]
    while i < k
        invariant
            i <= k,
            r == pow2(i as nat),
        decreases k - i,
    {
        proof {
            lemma_pow2_unfold((i + 1) as nat);
            if i + 1 < 64 {
                lemma_pow2_strictly_increases((i + 1) as nat, 64);
            }
        }
        r = r * 2;
        i = i + 1;
    }
    proof {
        lemma_pow2_pos(k as nat);
    }
    r
}

/// Encode an unsigned 64-bit magnitude as the nearest double's bit pattern.
pub fn double_bits_from_mag_u64(n: u64) -> (r: u64)
    ensures
        r as int == double_bits_of_mag(n as nat),
        r < 0x8000000000000000,
{
    if n == 0 {
        return 0;
    }
    proof {
        lemma2_to64();
        lemma2_to64_rest();
    }
    let mut t: u64 = n;
    let mut e: u64 = 0;
    #[verifier::loop_isolation(false)]
    while t >= 2
        invariant
            e < 64,
            t as int == n as int / pow2(e as nat) as int,
            t >= 1,
        decreases t,
    {
        proof {
            lemma_pow2_pos(e as nat);
            let p = pow2(e as nat) as int;
            lemma_fundamental_div_mod(n as int, p);
            assert((n as int) >= 2 * p) by (nonlinear_arith)
                requires
                    n as int == p * (t as int) + (n as int % p),
                    n as int % p >= 0,
                    t >= 2,
                    p > 0,
            ;
            lemma_pow2_unfold((e + 1) as nat);
            if e + 1 >= 64 {
                lemma_pow2_strictly_increases(64, (e + 2) as nat);
                assert(pow2((e + 1) as nat) >= pow2(64));
                assert(false);
            }
            vstd::arithmetic::div_mod::lemma_div_denominator(n as int, p, 2);
        }
        t = t / 2;
        e = e + 1;
    }
    proof {
        lemma_pow2_pos(e as nat);
        let p = pow2(e as nat) as int;
        lemma_fundamental_div_mod(n as int, p);
        lemma_pow2_unfold((e + 1) as nat);
        assert(pow2(e as nat) <= n as nat && (n as nat) < pow2((e + 1) as nat))
            by (nonlinear_arith)
            requires
                n as int == p * 1 + (n as int % p),
                0 <= n as int % p < p,
                p == pow2(e as nat),
                pow2((e + 1) as nat) == 2 * pow2(e as nat),
        ;
        lemma_floor_log2_unique(n as nat, e as nat);
    }
    let p52 = pow2_u64(52);
    if e <= 52 {
        let shift = pow2_u64(52 - e);
        proof {
            lemma_pow2_adds((e + 1) as nat, (52 - e) as nat);
            lemma_pow2_adds(e as nat, (52 - e) as nat);
            assert((n as int) * (shift as int) < pow2(53) && (n as int) * (shift as int) >= pow2(
                52,
            )) by (nonlinear_arith)
                requires
                    pow2(e as nat) <= n as nat,
                    (n as nat) < pow2((e + 1) as nat),
                    shift == pow2((52 - e) as nat),
                    shift >= 1,
                    pow2((e + 1) as nat) * pow2((52 - e) as nat) == pow2(53),
                    pow2(e as nat) * pow2((52 - e) as nat) == pow2(52),
            ;
            assert((1023 + e as int) * (p52 as int) <= 1075 * (p52 as int)) by (nonlinear_arith)
                requires
                    e <= 52,
                    p52 >= 1,
            ;
        }
        let frac = n * shift;
        let r = (1023 + e) * p52 + (frac - p52);
        return r;
    }
    let d = pow2_u64(e - 52);
    let keep0 = n / d;
    let rem = n % d;
    let half = d / 2;
    let round_up = rem > half || (rem == half && keep0 % 2 == 1);
    let keep: u64 = if round_up {
        proof {
            lemma_pow2_adds((e - 52) as nat, 53);
            lemma_div_is_ordered(n as int, pow2((e + 1) as nat) as int - 1, d as int);
            lemma_div_multiples_vanish_fancy(pow2(53) as int - 1, d as int - 1, d as int);
            assert((pow2((e + 1) as nat) - 1) as int / d as int == pow2(53) - 1)
                by (nonlinear_arith)
                requires
                    d >= 1,
                    pow2((e - 52) as nat) * pow2(53) == pow2((e + 1) as nat),
                    d == pow2((e - 52) as nat),
                    (d as int * (pow2(53) - 1) + (d as int - 1)) / d as int == pow2(53) - 1,
            ;
        }
        keep0 + 1
    } else {
        keep0
    };
    proof {
        lemma_pow2_adds((e - 52) as nat, 52);
        lemma_pow2_adds((e - 52) as nat, 53);
        lemma_pow2_pos((e - 52) as nat);
        lemma_div_is_ordered(pow2(e as nat) as int, n as int, d as int);
        lemma_div_multiples_vanish(pow2(52) as int, d as int);
        assert(pow2(e as nat) as int / d as int == pow2(52)) by (nonlinear_arith)
            requires
                d >= 1,
                pow2((e - 52) as nat) * pow2(52) == pow2(e as nat),
                d == pow2((e - 52) as nat),
                (d as int * pow2(52)) / d as int == pow2(52),
        ;
        lemma_div_is_ordered(n as int, pow2((e + 1) as nat) as int - 1, d as int);
        lemma_div_multiples_vanish_fancy(pow2(53) as int - 1, d as int - 1, d as int);
        assert((pow2((e + 1) as nat) - 1) as int / d as int == pow2(53) - 1) by (nonlinear_arith)
            requires
                d >= 1,
                pow2((e - 52) as nat) * pow2(53) == pow2((e + 1) as nat),
                d == pow2((e - 52) as nat),
                (d as int * (pow2(53) - 1) + (d as int - 1)) / d as int == pow2(53) - 1,
        ;
        assert(keep0 >= p52);
        assert(keep <= pow2(53));
        assert((1024 + e as int) * (p52 as int) <= 1087 * (p52 as int)) by (nonlinear_arith)
            requires
                e <= 63,
                p52 >= 1,
        ;
    }
    let p53 = pow2_u64(53);
    if keep == p53 {
        let r = (1024 + e) * p52;
        r
    } else {
        let r = (1023 + e) * p52 + (keep - p52);
        r
    }
}

/// Two to a small power, as a double word.
fn pow2_u128(k: u64) -> (r: u128)
    requires
        k < 128,
    ensures
        r == pow2(k as nat),
        r >= 1,
{
    proof {
        lemma2_to64();
        lemma2_to64_rest();
        lemma_pow2_adds(64, 64);
        assert(pow2(128) == 0x100000000000000000000000000000000) by (nonlinear_arith)
            requires
                pow2(64) == 0x10000000000000000,
                pow2(128) == pow2(64) * pow2(64),
        ;
    }
    let mut r: u128 = 1;
    let mut i: u64 = 0;
    #[verifier::loop_isolation(false)]
    while i < k
        invariant
            i <= k,
            r == pow2(i as nat),
        decreases k - i,
    {
        proof {
            lemma_pow2_unfold((i + 1) as nat);
            if i + 1 < 128 {
                lemma_pow2_strictly_increases((i + 1) as nat, 128);
            }
        }
        r = r * 2;
        i = i + 1;
    }
    proof {
        lemma_pow2_pos(k as nat);
    }
    r
}

/// Encode an unsigned 128-bit magnitude as the nearest double's bit pattern.
pub fn double_bits_from_mag_u128(n: u128) -> (r: u64)
    ensures
        r as int == double_bits_of_mag(n as nat),
        r < 0x8000000000000000,
{
    if n == 0 {
        return 0;
    }
    proof {
        lemma2_to64();
        lemma2_to64_rest();
        lemma_pow2_adds(64, 64);
        assert(pow2(128) == 0x100000000000000000000000000000000) by (nonlinear_arith)
            requires
                pow2(64) == 0x10000000000000000,
                pow2(128) == pow2(64) * pow2(64),
        ;
    }
    let mut t: u128 = n;
    let mut e: u64 = 0;
    #[verifier::loop_isolation(false)]
    while t >= 2
        invariant
            e < 128,
            t as int == n as int / pow2(e as nat) as int,
            t >= 1,
        decreases t,
    {
        proof {
            lemma_pow2_pos(e as nat);
            let p = pow2(e as nat) as int;
            lemma_fundamental_div_mod(n as int, p);
            assert((n as int) >= 2 * p) by (nonlinear_arith)
                requires
                    n as int == p * (t as int) + (n as int % p),
                    n as int % p >= 0,
                    t >= 2,
                    p > 0,
            ;
            lemma_pow2_unfold((e + 1) as nat);
            if e + 1 >= 128 {
                lemma_pow2_strictly_increases(128, (e + 2) as nat);
                assert(pow2((e + 1) as nat) >= pow2(128));
                assert(false);
            }
            vstd::arithmetic::div_mod::lemma_div_denominator(n as int, p, 2);
        }
        t = t / 2;
        e = e + 1;
    }
    proof {
        lemma_pow2_pos(e as nat);
        let p = pow2(e as nat) as int;
        lemma_fundamental_div_mod(n as int, p);
        lemma_pow2_unfold((e + 1) as nat);
        assert(pow2(e as nat) <= n as nat && (n as nat) < pow2((e + 1) as nat))
            by (nonlinear_arith)
            requires
                n as int == p * 1 + (n as int % p),
                0 <= n as int % p < p,
                p == pow2(e as nat),
                pow2((e + 1) as nat) == 2 * pow2(e as nat),
        ;
        lemma_floor_log2_unique(n as nat, e as nat);
    }
    let p52 = pow2_u64(52);
    if e <= 52 {
        let shift = pow2_u128(52 - e);
        proof {
            lemma_pow2_adds((e + 1) as nat, (52 - e) as nat);
            lemma_pow2_adds(e as nat, (52 - e) as nat);
            assert((n as int) * (shift as int) < pow2(53) && (n as int) * (shift as int) >= pow2(
                52,
            )) by (nonlinear_arith)
                requires
                    pow2(e as nat) <= n as nat,
                    (n as nat) < pow2((e + 1) as nat),
                    shift == pow2((52 - e) as nat),
                    shift >= 1,
                    pow2((e + 1) as nat) * pow2((52 - e) as nat) == pow2(53),
                    pow2(e as nat) * pow2((52 - e) as nat) == pow2(52),
            ;
            assert((1023 + e as int) * (p52 as int) <= 1075 * (p52 as int)) by (nonlinear_arith)
                requires
                    e <= 52,
                    p52 >= 1,
            ;
        }
        let frac = (n * shift) as u64;
        let r = (1023 + e) * p52 + (frac - p52);
        return r;
    }
    let d = pow2_u128(e - 52);
    let keep0_wide = n / d;
    let rem = n % d;
    let half = d / 2;
    proof {
        lemma_pow2_adds((e - 52) as nat, 52);
        lemma_pow2_adds((e - 52) as nat, 53);
        lemma_pow2_pos((e - 52) as nat);
        lemma_div_is_ordered(pow2(e as nat) as int, n as int, d as int);
        lemma_div_multiples_vanish(pow2(52) as int, d as int);
        assert(pow2(e as nat) as int / d as int == pow2(52)) by (nonlinear_arith)
            requires
                d >= 1,
                pow2((e - 52) as nat) * pow2(52) == pow2(e as nat),
                d == pow2((e - 52) as nat),
                (d as int * pow2(52)) / d as int == pow2(52),
        ;
        lemma_div_is_ordered(n as int, pow2((e + 1) as nat) as int - 1, d as int);
        lemma_div_multiples_vanish_fancy(pow2(53) as int - 1, d as int - 1, d as int);
        assert((pow2((e + 1) as nat) - 1) as int / d as int == pow2(53) - 1) by (nonlinear_arith)
            requires
                d >= 1,
                pow2((e - 52) as nat) * pow2(53) == pow2((e + 1) as nat),
                d == pow2((e - 52) as nat),
                (d as int * (pow2(53) - 1) + (d as int - 1)) / d as int == pow2(53) - 1,
        ;
    }
    let keep0 = keep0_wide as u64;
    let round_up = rem > half || (rem == half && keep0 % 2 == 1);
    let keep: u64 = if round_up {
        keep0 + 1
    } else {
        keep0
    };
    proof {
        assert(keep0 >= p52);
        assert(keep <= pow2(53));
        assert((1024 + e as int) * (p52 as int) <= 1151 * (p52 as int)) by (nonlinear_arith)
            requires
                e <= 127,
                p52 >= 1,
        ;
    }
    let p53 = pow2_u64(53);
    if keep == p53 {
        let r = (1024 + e) * p52;
        r
    } else {
        let r = (1023 + e) * p52 + (keep - p52);
        r
    }
}

/// Bits of the double nearest an unsigned 128-bit integer.
pub fn double_bits_from_u128(n: u128) -> (r: u64)
    ensures
        r as int == double_bits_of_int(n as int),
{
    double_bits_from_mag_u128(n)
}

/// Bits of the double nearest a signed 128-bit integer.
pub fn double_bits_from_i128(i: i128) -> (r: u64)
    ensures
        r as int == double_bits_of_int(i as int),
{
    if i >= 0 {
        double_bits_from_mag_u128(i as u128)
    } else {
        let mag: u128 = if i == i128::MIN {
            proof {
                lemma2_to64_rest();
                lemma_pow2_adds(64, 63);
                assert(pow2(127) == 0x80000000000000000000000000000000) by (nonlinear_arith)
                    requires
                        pow2(64) == 0x10000000000000000,
                        pow2(63) == 0x8000000000000000,
                        pow2(127) == pow2(64) * pow2(63),
                ;
            }
            0x80000000000000000000000000000000u128
        } else {
            (-i) as u128
        };
        let bits = double_bits_from_mag_u128(mag);
        proof {
            lemma2_to64_rest();
        }
        let r = bits + 0x8000000000000000;
        r
    }
}

/// The position of the highest set bit of a positive machine word.
fn log2_floor_u64(n: u64) -> (e: u64)
    requires
        n >= 1,
    ensures
        e == floor_log2(n as nat),
        e <= 63,
        pow2(e as nat) <= n as nat,
        (n as nat) < pow2((e + 1) as nat),
{
    proof {
        lemma2_to64();
        lemma2_to64_rest();
    }
    let mut t: u64 = n;
    let mut e: u64 = 0;
    #[verifier::loop_isolation(false)]
    while t >= 2
        invariant
            e < 64,
            t as int == n as int / pow2(e as nat) as int,
            t >= 1,
        decreases t,
    {
        proof {
            lemma_pow2_pos(e as nat);
            let p = pow2(e as nat) as int;
            lemma_fundamental_div_mod(n as int, p);
            assert((n as int) >= 2 * p) by (nonlinear_arith)
                requires
                    n as int == p * (t as int) + (n as int % p),
                    n as int % p >= 0,
                    t >= 2,
                    p > 0,
            ;
            lemma_pow2_unfold((e + 1) as nat);
            if e + 1 >= 64 {
                lemma_pow2_strictly_increases(64, (e + 2) as nat);
                assert(pow2((e + 1) as nat) >= pow2(64));
                assert(false);
            }
            vstd::arithmetic::div_mod::lemma_div_denominator(n as int, p, 2);
        }
        t = t / 2;
        e = e + 1;
    }
    proof {
        lemma_pow2_pos(e as nat);
        let p = pow2(e as nat) as int;
        lemma_fundamental_div_mod(n as int, p);
        lemma_pow2_unfold((e + 1) as nat);
        assert(pow2(e as nat) <= n as nat && (n as nat) < pow2((e + 1) as nat))
            by (nonlinear_arith)
            requires
                n as int == p * 1 + (n as int % p),
                0 <= n as int % p < p,
                p == pow2(e as nat),
                pow2((e + 1) as nat) == 2 * pow2(e as nat),
        ;
        lemma_floor_log2_unique(n as nat, e as nat);
    }
    e
}

/// The double bit pattern that a single-precision bit pattern widens to.
/// The widening is exact for every finite single value; an infinity stays an
/// infinity, and a NaN keeps its payload in the top mantissa bits.
pub open spec fn double_bits_of_single_bits(b: u32) -> int {
    let s = b as int / pow2(31) as int;
    let e = (b as int / pow2(23) as int) % 256;
    let m = b as int % pow2(23) as int;
    if e == 255 {
        s * pow2(63) + 2047 * pow2(52) + m * pow2(29)
    } else if e == 0 && m == 0 {
        s * pow2(63) as int
    } else if e == 0 {
        let l = floor_log2(m as nat);
        s * pow2(63) + (l + 874) * pow2(52) + (m * pow2((52 - l) as nat) - pow2(52))
    } else {
        s * pow2(63) + (e + 896) * pow2(52) + m * pow2(29)
    }
}

/// Widen a single-precision bit pattern to the double bit pattern it
/// denotes: sign kept, exponent re-biased, mantissa shifted up, and a
/// subnormal single normalized into an ordinary double.
pub fn double_bits_from_single_bits(b: u32) -> (r: u64)
    ensures
        r as int == double_bits_of_single_bits(b),
{
    proof {
        lemma2_to64();
        lemma2_to64_rest();
    }
    let s: u64 = (b / 0x80000000) as u64;
    let e: u64 = ((b / 0x800000) % 256) as u64;
    let m: u64 = (b % 0x800000) as u64;
    let p52 = pow2_u64(52);
    let p63: u64 = 0x8000000000000000;
    let p29 = pow2_u64(29);
    if e == 255 {
        let r = s * p63 + 2047 * p52 + m * p29;
        r
    } else if e == 0 && m == 0 {
        s * p63
    } else if e == 0 {
        let l = log2_floor_u64(m);
        proof {
            if l > 22 {
                lemma_pow2_strictly_increases(23, l as nat);
                assert(pow2(l as nat) >= pow2(23));
                assert(false);
            }
            lemma_pow2_adds((l + 1) as nat, (52 - l) as nat);
            lemma_pow2_adds(l as nat, (52 - l) as nat);
        }
        let shift = pow2_u64(52 - l);
        proof {
            assert((m as int) * (shift as int) < pow2(53) && (m as int) * (shift as int) >= pow2(
                52,
            )) by (nonlinear_arith)
                requires
                    pow2(l as nat) <= m as nat,
                    (m as nat) < pow2((l + 1) as nat),
                    shift == pow2((52 - l) as nat),
                    shift >= 1,
                    pow2((l + 1) as nat) * pow2((52 - l) as nat) == pow2(53),
                    pow2(l as nat) * pow2((52 - l) as nat) == pow2(52),
            ;
            assert((l as int + 874) * (p52 as int) <= 896 * (p52 as int)) by (nonlinear_arith)
                requires
                    l <= 22,
                    p52 >= 1,
            ;
        }
        let frac = m * shift - p52;
        let r = s * p63 + (l + 874) * p52 + frac;
        r
    } else {
        proof {
            assert((e as int + 896) * (p52 as int) <= 1150 * (p52 as int)) by (nonlinear_arith)
                requires
                    e <= 254,
                    p52 >= 1,
            ;
            lemma_pow2_adds(23, 29);
            assert((m as int) * (p29 as int) < pow2(52) as int) by (nonlinear_arith)
                requires
                    (m as int) < pow2(23) as int,
                    p29 as int == pow2(29) as int,
                    p29 as int >= 1,
                    (pow2(23) as int) * (pow2(29) as int) == pow2(52) as int,
            ;
        }
        let r = s * p63 + (e + 896) * p52 + m * p29;
        r
    }
}

/// Bits of the double nearest an unsigned 64-bit integer.
pub fn double_bits_from_u64(n: u64) -> (r: u64)
    ensures
        r as int == double_bits_of_int(n as int),
{
    double_bits_from_mag_u64(n)
}

/// Bits of the double nearest a signed 64-bit integer.
pub fn double_bits_from_i64(i: i64) -> (r: u64)
    ensures
        r as int == double_bits_of_int(i as int),
{
    if i >= 0 {
        double_bits_from_mag_u64(i as u64)
    } else {
        let wide: i128 = -(i as i128);
        let mag: u64 = wide as u64;
        let bits = double_bits_from_mag_u64(mag);
        proof {
            lemma2_to64_rest();
        }
        let r = bits + 0x8000000000000000;
        r
    }
}

} // verus!
