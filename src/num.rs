use vstd::prelude::*;

use vstd::arithmetic::power2::{
    lemma2_to64, lemma2_to64_rest, lemma_pow2_adds, lemma_pow2_pos, lemma_pow2_strictly_increases, lemma_pow2_unfold,
    pow2,
};

verus! {

/// `256` to the power `k`.
pub open spec fn pow256(k: nat) -> nat
    decreases k,
{
    if k == 0 {
        1
    } else {
        256 * pow256((k - 1) as nat)
    }
}

/// The `k` bytes of `v`, least significant first.
pub open spec fn le_bytes(v: nat, k: nat) -> Seq<u8> {
    Seq::new(k, |j: int| ((v / pow256(j as nat)) % 256) as u8)
}

/// The number that bytes `s` hold, least significant first.
pub open spec fn le_value(s: Seq<u8>) -> nat
    decreases s.len(),
{
    if s.len() == 0 {
        0
    } else {
        s[0] as nat + 256 * le_value(s.drop_first())
    }
}

proof fn lemma_pow256_pos(k: nat)
    ensures
        pow256(k) >= 1,
    decreases k,
{
    if k > 0 {
        lemma_pow256_pos((k - 1) as nat);
    }
}

/// Bytes read back give the number they were written from.
pub proof fn lemma_le_round_trip(v: nat, k: nat)
    requires
        v < pow256(k),
    ensures
        le_value(le_bytes(v, k)) == v,
    decreases k,
{
    if k == 0 {
        assert(v == 0);
    } else {
        let s = le_bytes(v, k);
        let w = v / 256;
        assert(w < pow256((k - 1) as nat)) by {
            vstd::arithmetic::div_mod::lemma_div_is_ordered(
                v as int,
                256 * pow256((k - 1) as nat) - 1,
                256,
            );
            vstd::arithmetic::div_mod::lemma_fundamental_div_mod(
                256 * pow256((k - 1) as nat) - 1,
                256,
            );
        }
        assert forall|j: int| 0 <= j < k - 1 implies s.drop_first()[j] == le_bytes(
            w,
            (k - 1) as nat,
        )[j] by {
            lemma_pow256_pos(j as nat);
            vstd::arithmetic::div_mod::lemma_div_denominator(v as int, 256, pow256(j as nat) as int);
            assert(pow256((j + 1) as nat) == 256 * pow256(j as nat));
        }
        assert(s.drop_first() =~= le_bytes(w, (k - 1) as nat));
        lemma_le_round_trip(w, (k - 1) as nat);
        assert(pow256(0) == 1);
        assert(s[0] == ((v / 1) % 256) as u8);
        assert(v / 1 == v);
        assert(le_value(s) == s[0] as nat + 256 * le_value(s.drop_first()));
        vstd::arithmetic::div_mod::lemma_fundamental_div_mod(v as int, 256);
    }
}

/// A value read from `k` bytes is below `256^k`.
pub proof fn lemma_le_value_bound(s: Seq<u8>)
    ensures
        le_value(s) < pow256(s.len()),
    decreases s.len(),
{
    if s.len() > 0 {
        lemma_le_value_bound(s.drop_first());
    }
}

/// Appends the `k` low bytes of `v`, least significant first.
pub fn put_le(buf: &mut Vec<u8>, v: u64, k: usize)
    requires
        k <= 8,
        v < pow256(k as nat),
    ensures
        final(buf)@ == old(buf)@ + le_bytes(v as nat, k as nat),
{
    let ghost start = buf@;
    let mut w = v;
    let mut i: usize = 0;
    proof {
        lemma_pow256_pos(0);
        assert(pow256(0) == 1);
        assert((v as nat) / 1 == v);
    }
    while i < k
        invariant
            i <= k <= 8,
            w == (v as nat) / pow256(i as nat),
            pow256(i as nat) >= 1,
            buf@ == start + le_bytes(v as nat, i as nat),
        decreases k - i,
    {
        buf.push((w % 256) as u8);
        proof {
            vstd::arithmetic::div_mod::lemma_div_denominator(v as int, pow256(i as nat) as int, 256);
            assert(pow256((i + 1) as nat) == 256 * pow256(i as nat));
            assert(pow256(i as nat) * 256 == 256 * pow256(i as nat));
            assert(buf@ =~= start + le_bytes(v as nat, (i + 1) as nat));
        }
        w = w / 256;
        i = i + 1;
    }
}

/// The number held by the `k` bytes of `bytes` from `pos`, least significant
/// first.
pub fn get_le(bytes: &Vec<u8>, pos: usize, k: usize) -> (r: u64)
    requires
        k <= 8,
        pos + k <= bytes@.len(),
    ensures
        r == le_value(bytes@.subrange(pos as int, pos + k)),
{
    let n = bytes.len();
    let mut acc: u64 = 0;
    let mut i: usize = k;
    proof {
        assert(bytes@.subrange(pos + k, pos + k).len() == 0);
    }
    while i > 0
        invariant
            i <= k <= 8,
            pos + k <= bytes@.len() == n,
            acc == le_value(bytes@.subrange(pos + i, pos + k)),
        decreases i,
    {
        let ghost s = bytes@.subrange(pos + i - 1, pos + k);
        proof {
            assert(s.drop_first() =~= bytes@.subrange(pos + i, pos + k));
            lemma_le_value_bound(bytes@.subrange(pos + i, pos + k));
            lemma_pow256_le8((k - i) as nat);
            assert(bytes@.subrange(pos + i, pos + k).len() == k - i);
            assert(acc < 0x0100_0000_0000_0000);
            assert(le_value(s) == s[0] as nat + 256 * le_value(s.drop_first()));
        }
        let idx = pos + (i - 1);
        let byte = bytes[idx] as u64;
        acc = acc * 256 + byte;
        i = i - 1;
    }
    acc
}

proof fn lemma_pow256_le8(k: nat)
    requires
        k < 8,
    ensures
        pow256(k) <= 0x0100_0000_0000_0000,
    decreases k,
{
    if k > 0 {
        lemma_pow256_le8((k - 1) as nat);
    }
    assert(pow256(0) == 1);
    assert(pow256(1) == 256);
    assert(pow256(2) == 0x1_0000);
    assert(pow256(3) == 0x100_0000);
    assert(pow256(4) == 0x1_0000_0000);
    assert(pow256(5) == 0x100_0000_0000);
    assert(pow256(6) == 0x1_0000_0000_0000);
    assert(pow256(7) == 0x100_0000_0000_0000);
}

/// `2^52`: the implicit leading bit of a binary64 significand.
pub const TWO52: u64 = 0x10_0000_0000_0000;

/// `2^63`: the sign bit of a binary64.
pub const TWO63: u64 = 0x8000_0000_0000_0000;

/// Unit values that a binary64 field of the record can carry exactly.
pub const DOUBLE_LIMIT: i64 = 0x10_0000_0000_0000;

/// The position of the highest set bit of `m`.
pub open spec fn log2(m: nat) -> nat
    decreases m,
{
    if m < 2 {
        0
    } else {
        1 + log2(m / 2)
    }
}

proof fn lemma_log2_of(m: nat, e: nat)
    requires
        pow2(e) <= m < pow2(e + 1),
    ensures
        log2(m) == e,
    decreases m,
{
    lemma_pow2_unfold(e + 1);
    if e == 0 {
        lemma2_to64();
        lemma2_to64_rest();
    } else {
        lemma_pow2_unfold(e);
        lemma_log2_of(m / 2, (e - 1) as nat);
    }
}

/// The binary64 bit pattern of the value `x / 1024`, for `|x| < 2^52`: the
/// sign bit, the biased exponent of the highest set bit of `|x|`, and the
/// bits below it as the fraction.
pub open spec fn bits_of_units(x: int) -> int {
    if x == 0 {
        0
    } else {
        let m = if x < 0 {
            -x
        } else {
            x
        };
        let e = log2(m as nat);
        (if x < 0 {
            TWO63 as int
        } else {
            0
        }) + (e + 1013) * TWO52 + (m * pow2((52 - e) as nat) - TWO52)
    }
}

/// The value of binary64 bit pattern `b` in units of `1/1024`, rounded
/// toward zero; none for an infinity, a NaN or a magnitude of `2^63` units
/// or more.
pub open spec fn units_of_bits(b: int) -> Option<int> {
    let s = b / (TWO63 as int);
    let ex = (b / (TWO52 as int)) % 2048;
    let f = b % (TWO52 as int);
    if ex > 1075 {
        None
    } else if ex == 0 {
        Some(0)
    } else {
        let mag = TWO52 + f;
        let u = if ex >= 1065 {
            mag * pow2((ex - 1065) as nat)
        } else {
            mag / (pow2((1065 - ex) as nat) as int)
        };
        Some(
            if s == 1 {
                -u
            } else {
                u
            },
        )
    }
}

/// `2^k`.
fn pow2_exec(k: u64) -> (r: u64)
    requires
        k < 64,
    ensures
        r == pow2(k as nat),
{
    let mut p: u64 = 1;
    let mut i: u64 = 0;
    proof {
        lemma2_to64();
        lemma2_to64_rest();
    }
    while i < k
        invariant
            i <= k < 64,
            p == pow2(i as nat),
        decreases k - i,
    {
        proof {
            lemma2_to64();
            lemma2_to64_rest();
            lemma_pow2_unfold((i + 1) as nat);
            if i + 1 < 64 {
                lemma_pow2_strictly_increases((i + 1) as nat, 64);
            }
        }
        p = p * 2;
        i = i + 1;
    }
    p
}

/// The binary64 bit pattern of `x / 1024`; it reads back as `x`.
pub fn units_to_bits(x: i64) -> (r: u64)
    requires
        -DOUBLE_LIMIT < x < DOUBLE_LIMIT,
    ensures
        r == bits_of_units(x as int),
        units_of_bits(r as int) == Some(x as int),
{
    if x == 0 {
        return 0;
    }
    let m: u64 = if x < 0 {
        (-x) as u64
    } else {
        x as u64
    };
    let mut e: u64 = 0;
    let mut p: u64 = 1;
    proof {
        lemma2_to64();
        lemma2_to64_rest();
    }
    while p <= m / 2
        invariant
            1 <= p <= m < TWO52,
            p == pow2(e as nat),
            e <= 52,
        decreases m - p,
    {
        proof {
            lemma2_to64();
            lemma2_to64_rest();
            lemma_pow2_unfold((e + 1) as nat);
            if e + 1 > 52 {
                lemma_pow2_strictly_increases(52, (e + 1) as nat);
            }
        }
        p = p * 2;
        e = e + 1;
    }
    proof {
        lemma2_to64();
        lemma2_to64_rest();
        lemma_pow2_unfold((e + 1) as nat);
        lemma_log2_of(m as nat, e as nat);
        assert(e < 52);
    }
    let q = pow2_exec(52 - e);
    proof {
        lemma_pow2_adds(e as nat, (52 - e) as nat);
        assert((e as nat) + ((52 - e) as nat) == 52);
        lemma2_to64();
        lemma2_to64_rest();
        assert(p * q == TWO52);
        assert(TWO52 <= m * q < 2 * TWO52) by (nonlinear_arith)
            requires
                p <= m < 2 * p,
                p * q == TWO52,
                q > 0,
        ;
    }
    let frac = m * q - TWO52;
    let sign: u64 = if x < 0 {
        TWO63
    } else {
        0
    };
    let ex = e + 1013;
    let r = sign + ex * TWO52 + frac;
    proof {
        let b = r as int;
        assert(ex * TWO52 + frac < TWO63);
        assert(b / (TWO63 as int) == (if x < 0 { 1int } else { 0int }));
        assert((b / (TWO52 as int)) % 2048 == ex);
        assert(b % (TWO52 as int) == frac);
        vstd::arithmetic::div_mod::lemma_div_by_multiple(m as int, q as int);
        assert((TWO52 + frac) / (q as int) == m);
    }
    r
}

/// The value of binary64 bit pattern `b` in units of `1/1024` (see
/// `units_of_bits`).
pub fn bits_to_units(b: u64) -> (r: Option<i64>)
    ensures
        r.is_some() == units_of_bits(b as int).is_some(),
        r.is_some() ==> r.unwrap() == units_of_bits(b as int).unwrap(),
{
    let s = b / TWO63;
    let ex = (b / TWO52) % 2048;
    let f = b % TWO52;
    if ex > 1075 {
        return None;
    }
    if ex == 0 {
        return Some(0);
    }
    let mag = TWO52 + f;
    proof {
        lemma2_to64();
        lemma2_to64_rest();
    }
    let u: u64 = if ex >= 1065 {
        let k = ex - 1065;
        let p = pow2_exec(k);
        proof {
            if k < 10 {
                lemma_pow2_strictly_increases(k as nat, 10);
            }
        }
        assert(mag * p < 0x8000_0000_0000_0000) by (nonlinear_arith)
            requires
                mag < 2 * TWO52,
                p <= 1024,
        ;
        mag * p
    } else {
        let k = 1065 - ex;
        if k > 53 {
            proof {
                lemma2_to64();
                lemma2_to64_rest();
                lemma_pow2_strictly_increases(53, k as nat);
                assert(f < TWO52);
                assert(mag < pow2(53));
                vstd::arithmetic::div_mod::lemma_basic_div(mag as int, pow2(k as nat) as int);
            }
            0
        } else {
            let p = pow2_exec(k);
            proof {
                lemma_pow2_pos(k as nat);
                vstd::arithmetic::div_mod::lemma_div_is_ordered_by_denominator(mag as int, 1, p as int);
                vstd::arithmetic::div_mod::lemma_div_basics(mag as int);
            }
            mag / p
        }
    };
    if s == 1 {
        Some(-(u as i64))
    } else {
        Some(u as i64)
    }
}

proof fn lemma_log2_bounds(m: nat)
    requires
        m >= 1,
    ensures
        pow2(log2(m)) <= m < pow2(log2(m) + 1),
    decreases m,
{
    lemma2_to64();
    if m >= 2 {
        lemma_log2_bounds(m / 2);
        lemma_pow2_unfold(log2(m));
        lemma_pow2_unfold(log2(m) + 1);
    }
}

/// A unit value written as a binary64 reads back as itself.
pub proof fn lemma_units_round_trip(x: int)
    requires
        -DOUBLE_LIMIT < x < DOUBLE_LIMIT,
    ensures
        0 <= bits_of_units(x) < 0x1_0000_0000_0000_0000,
        units_of_bits(bits_of_units(x)) == Some(x),
{
    lemma2_to64();
    lemma2_to64_rest();
    if x != 0 {
        let m = if x < 0 {
            -x
        } else {
            x
        };
        let e = log2(m as nat);
        lemma_log2_bounds(m as nat);
        if e > 52 {
            lemma_pow2_strictly_increases(52, e);
        }
        assert(e < 52);
        let p = pow2(e);
        let q = pow2((52 - e) as nat);
        lemma_pow2_pos((52 - e) as nat);
        lemma_pow2_unfold(e + 1);
        lemma_pow2_adds(e, (52 - e) as nat);
        assert(e + ((52 - e) as nat) == 52);
        assert(p * q == TWO52);
        assert(TWO52 <= m * q < 2 * TWO52) by (nonlinear_arith)
            requires
                p <= m < 2 * p,
                p * q == TWO52,
                q > 0,
        ;
        let frac = m * q - TWO52;
        let ex = e + 1013;
        let sign: int = if x < 0 {
            1
        } else {
            0
        };
        let b = bits_of_units(x);
        assert(b == sign * TWO63 + ex * TWO52 + frac);
        assert(b / (TWO63 as int) == sign);
        assert((b / (TWO52 as int)) % 2048 == ex);
        assert(b % (TWO52 as int) == frac);
        vstd::arithmetic::div_mod::lemma_div_by_multiple(m as int, q as int);
        assert((TWO52 + frac) / (q as int) == m);
    }
}

/// `256^4` and `256^8`.
pub proof fn lemma_pow256_facts()
    ensures
        pow256(4) == 0x1_0000_0000,
        pow256(8) == 0x1_0000_0000_0000_0000,
{
    assert(pow256(0) == 1);
    assert(pow256(1) == 256);
    assert(pow256(2) == 0x1_0000);
    assert(pow256(3) == 0x100_0000);
    assert(pow256(4) == 0x1_0000_0000);
    assert(pow256(5) == 0x100_0000_0000);
    assert(pow256(6) == 0x1_0000_0000_0000);
    assert(pow256(7) == 0x100_0000_0000_0000);
    assert(pow256(8) == 0x1_0000_0000_0000_0000);
}

} // verus!
