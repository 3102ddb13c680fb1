use vstd::prelude::*;

verus! {

/// An element of GF(2^128) under the modulus x^128 + x^7 + x^2 + x + 1.
///
/// Bit `k` of `lo` is the coefficient of x^k, bit `k` of `hi` the coefficient
/// of x^(64 + k). Every bit pattern is a valid element.
#[derive(Clone, Copy, Debug, PartialEq, Eq, Structural)]
pub struct Fe {
    pub lo: u64,
    pub hi: u64,
}

/// The low-order part of the reduction polynomial: x^7 + x^2 + x + 1.
pub const REDUCTION: u64 = 0x87;

/// Bit `k` of a word.
pub open spec fn word_bit(w: u64, k: u64) -> bool {
    (w >> k) & 1 == 1
}

/// The coefficient of x^k in `a`, for `0 <= k < 128`.
pub open spec fn coeff(a: Fe, k: int) -> bool {
    if k < 64 {
        word_bit(a.lo, k as u64)
    } else {
        word_bit(a.hi, (k - 64) as u64)
    }
}

/// The polynomial that `a` stands for: its 128 coefficients over GF(2).
pub open spec fn poly(a: Fe) -> Seq<bool> {
    Seq::new(128, |k: int| coeff(a, k))
}

/// Field addition: coefficient-wise addition over GF(2).
pub open spec fn padd(p: Seq<bool>, q: Seq<bool>) -> Seq<bool> {
    Seq::new(128, |k: int| p[k] != q[k])
}

/// The zero polynomial.
pub open spec fn pzero() -> Seq<bool> {
    Seq::new(128, |k: int| false)
}

/// The degree-1 monomial x.
pub open spec fn monomial_x() -> Seq<bool> {
    Seq::new(128, |k: int| k == 1)
}

/// The positions that x^128 folds back onto: x^128 = x^7 + x^2 + x + 1.
pub open spec fn is_reduction_tap(k: int) -> bool {
    k == 0 || k == 1 || k == 2 || k == 7
}

/// `p * x` reduced modulo x^128 + x^7 + x^2 + x + 1.
pub open spec fn ptimes_x(p: Seq<bool>) -> Seq<bool> {
    Seq::new(128, |k: int| (k >= 1 && p[k - 1]) != (p[127] && is_reduction_tap(k)))
}

/// `p * x^n` in the field.
pub open spec fn pshift(p: Seq<bool>, n: nat) -> Seq<bool>
    decreases n,
{
    if n == 0 {
        p
    } else {
        ptimes_x(pshift(p, (n - 1) as nat))
    }
}

/// The term `q_k * p * x^k` of the product `p * q`.
pub open spec fn pterm(p: Seq<bool>, q: Seq<bool>, k: nat) -> Seq<bool> {
    if q[k as int] {
        pshift(p, k)
    } else {
        pzero()
    }
}

/// The sum of the first `n` terms of the product `p * q`.
pub open spec fn pmul_upto(p: Seq<bool>, q: Seq<bool>, n: nat) -> Seq<bool>
    decreases n,
{
    if n == 0 {
        pzero()
    } else {
        padd(pmul_upto(p, q, (n - 1) as nat), pterm(p, q, (n - 1) as nat))
    }
}

/// Field multiplication: `p * q = sum over k of q_k * p * x^k`, reduced.
pub open spec fn pmul(p: Seq<bool>, q: Seq<bool>) -> Seq<bool> {
    pmul_upto(p, q, 128)
}

/// Word-wise XOR of two elements, which is field addition.
pub open spec fn fe_xor_spec(a: Fe, b: Fe) -> Fe {
    Fe { lo: a.lo ^ b.lo, hi: a.hi ^ b.hi }
}

/// The field element that a byte stands for: `sum of b_k * x^k`, `k < 8`.
pub open spec fn byte_elem(b: u64) -> Fe {
    Fe { lo: b & 0xff, hi: 0 }
}

/// A public operand in its intended form: a byte in the low limb, zero above.
pub open spec fn is_byte_operand(x: Fe) -> bool {
    x.hi == 0 && x.lo < 256
}

/// What multiplying `a` by the public operand `x` yields: `a` times the byte
/// in the low eight bits of `x.lo`.
pub open spec fn byte_product(a: Fe, x: Fe) -> Seq<bool> {
    pmul(poly(a), poly(byte_elem(x.lo)))
}


/// `a` with the coefficient of x^k flipped, for `0 <= k < 128`.
pub open spec fn flip_bit(a: Fe, k: int) -> Fe {
    if k < 64 {
        Fe { lo: a.lo ^ (1u64 << (k as u64)), hi: a.hi }
    } else {
        Fe { lo: a.lo, hi: a.hi ^ (1u64 << ((k - 64) as u64)) }
    }
}

/// The coefficients of x^0 .. x^63.
pub open spec fn low_half(p: Seq<bool>) -> Seq<bool> {
    p.subrange(0, 64)
}

/// The coefficients of x^64 .. x^127.
pub open spec fn high_half(p: Seq<bool>) -> Seq<bool> {
    p.subrange(64, 128)
}

// ---------------------------------------------------------------------------
// Facts about words.

proof fn lemma_xor_bit(a: u64, b: u64, k: u64)
    by (bit_vector)
    requires
        k < 64,
    ensures
        word_bit(a ^ b, k) == (word_bit(a, k) != word_bit(b, k)),
{
}

proof fn lemma_double_lo_bit(lo: u64, m: u64, k: u64)
    by (bit_vector)
    requires
        k < 64,
        m == 0 || m == 0xffff_ffff_ffff_ffffu64,
    ensures
        word_bit((lo << 1) ^ (0x87u64 & m), k) == ((k >= 1 && word_bit(lo, (k - 1) as u64)) != (
        m != 0 && (k == 0 || k == 1 || k == 2 || k == 7))),
{
}

proof fn lemma_double_hi_bit(lo: u64, hi: u64, k: u64)
    by (bit_vector)
    requires
        k < 64,
    ensures
        word_bit((hi << 1) ^ (lo >> 63), k) == if k == 0 {
            word_bit(lo, 63)
        } else {
            word_bit(hi, (k - 1) as u64)
        },
{
}


proof fn lemma_masked_bit(w: u64, k: u64, s: u64, t: u64)
    by (bit_vector)
    requires
        k < 8,
        s == 63 - k,
        t == 64 - s,
    ensures
        word_bit((w << s) | (w >> t), 63) == word_bit(w & 0xff, k),
{
}

proof fn lemma_byte_bits_above(w: u64, k: u64)
    by (bit_vector)
    requires
        8 <= k < 64,
    ensures
        !word_bit(w & 0xff, k),
{
}

proof fn lemma_flip_word_bit(w: u64, k: u64)
    by (bit_vector)
    requires
        k < 64,
    ensures
        word_bit(w ^ (1u64 << k), k) != word_bit(w, k),
{
}

proof fn lemma_zero_bit(k: u64)
    by (bit_vector)
    requires
        k < 64,
    ensures
        !word_bit(0, k),
{
}

proof fn lemma_and_mask(w: u64)
    by (bit_vector)
    ensures
        w & 0xffff_ffff_ffff_ffffu64 == w,
        w & 0 == 0,
        w ^ 0 == w,
{
}

proof fn lemma_small_low_byte(w: u64)
    by (bit_vector)
    requires
        w < 256,
    ensures
        w & 0xff == w,
{
}

// ---------------------------------------------------------------------------
// Facts about polynomials.

proof fn lemma_padd_zero(p: Seq<bool>)
    requires
        p.len() == 128,
    ensures
        padd(p, pzero()) == p,
        padd(pzero(), p) == p,
{
    assert(padd(p, pzero()) =~= p);
    assert(padd(pzero(), p) =~= p);
}

proof fn lemma_poly_xor(a: Fe, b: Fe)
    ensures
        poly(fe_xor_spec(a, b)) == padd(poly(a), poly(b)),
{
    assert forall|k: int| 0 <= k < 128 implies poly(fe_xor_spec(a, b))[k] == padd(
        poly(a),
        poly(b),
    )[k] by {
        if k < 64 {
            lemma_xor_bit(a.lo, b.lo, k as u64);
        } else {
            lemma_xor_bit(a.hi, b.hi, (k - 64) as u64);
        }
    }
    assert(poly(fe_xor_spec(a, b)) =~= padd(poly(a), poly(b)));
}

proof fn lemma_pmul_upto_len(p: Seq<bool>, q: Seq<bool>, n: nat)
    ensures
        pmul_upto(p, q, n).len() == 128,
{
}

/// Terms whose coefficient in `q` is zero add nothing to the product.
proof fn lemma_pmul_zero_tail(p: Seq<bool>, q: Seq<bool>, n: nat, m: nat)
    requires
        n <= m,
        forall|k: int| n <= k < m ==> !q[k],
    ensures
        pmul_upto(p, q, m) == pmul_upto(p, q, n),
    decreases m,
{
    if m > n {
        lemma_pmul_zero_tail(p, q, n, (m - 1) as nat);
        lemma_padd_zero(pmul_upto(p, q, (m - 1) as nat));
    }
}

/// Multiplying by the monomial x is one step of `ptimes_x`.
proof fn lemma_times_x_is_mul(p: Seq<bool>)
    requires
        p.len() == 128,
    ensures
        pmul(p, monomial_x()) == ptimes_x(p),
{
    let q = monomial_x();
    lemma_pmul_zero_tail(p, q, 2, 128);
    lemma_padd_zero(pzero());
    assert(!q[0] && q[1]);
    assert(pterm(p, q, 0) == pzero());
    assert(pmul_upto(p, q, 1) == padd(pmul_upto(p, q, 0), pterm(p, q, 0)));
    assert(pmul_upto(p, q, 1) == pzero());
    assert(pshift(p, 1) == ptimes_x(pshift(p, 0)));
    lemma_padd_zero(ptimes_x(p));
}


proof fn lemma_high_bits_agree(a: u64, b: u64, j: u64)
    requires
        j < 64,
        forall|k: u64| k < 64 ==> word_bit(a, k) == word_bit(b, k),
    ensures
        a >> j == b >> j,
    decreases 63 - j,
{
    if j == 63 {
        assert(word_bit(a, 63) == word_bit(b, 63));
        assert(word_bit(a, 63) == word_bit(b, 63) ==> a >> 63 == b >> 63) by (bit_vector);
    } else {
        lemma_high_bits_agree(a, b, (j + 1) as u64);
        let i = (j + 1) as u64;
        assert(word_bit(a, j) == word_bit(b, j));
        assert((a >> i == b >> i && word_bit(a, j) == word_bit(b, j) && i == j + 1 && j < 63)
            ==> a >> j == b >> j) by (bit_vector);
    }
}

/// A word is determined by its 64 bits.
proof fn lemma_word_from_bits(a: u64, b: u64)
    requires
        forall|k: u64| k < 64 ==> word_bit(a, k) == word_bit(b, k),
    ensures
        a == b,
{
    lemma_high_bits_agree(a, b, 0);
    assert(a >> 0 == a && b >> 0 == b) by (bit_vector);
}

/// The low limb is determined by the low half of the polynomial, the high
/// limb by the high half.
pub(crate) proof fn lemma_limbs_from_halves(a: Fe, b: Fe)
    ensures
        low_half(poly(a)) == low_half(poly(b)) <==> a.lo == b.lo,
        high_half(poly(a)) == high_half(poly(b)) <==> a.hi == b.hi,
{
    if low_half(poly(a)) == low_half(poly(b)) {
        assert forall|k: u64| k < 64 implies word_bit(a.lo, k) == word_bit(b.lo, k) by {
            assert(low_half(poly(a))[k as int] == low_half(poly(b))[k as int]);
            assert(poly(a)[k as int] == coeff(a, k as int));
            assert(poly(b)[k as int] == coeff(b, k as int));
        }
        lemma_word_from_bits(a.lo, b.lo);
    }
    if a.lo == b.lo {
        assert(low_half(poly(a)) =~= low_half(poly(b)));
    }
    if high_half(poly(a)) == high_half(poly(b)) {
        assert forall|k: u64| k < 64 implies word_bit(a.hi, k) == word_bit(b.hi, k) by {
            let i = k + 64;
            assert(high_half(poly(a))[k as int] == high_half(poly(b))[k as int]);
            assert(poly(a)[i] == coeff(a, i));
            assert(poly(b)[i] == coeff(b, i));
            assert((i - 64) as u64 == k);
        }
        lemma_word_from_bits(a.hi, b.hi);
    }
    if a.hi == b.hi {
        assert(high_half(poly(a)) =~= high_half(poly(b)));
    }
}

/// Flipping one bit of an element flips that coefficient of its polynomial.
pub(crate) proof fn lemma_flip_bit_coeff(a: Fe, k: int)
    requires
        0 <= k < 128,
    ensures
        poly(flip_bit(a, k))[k] != poly(a)[k],
{
    if k < 64 {
        lemma_flip_word_bit(a.lo, k as u64);
    } else {
        lemma_flip_word_bit(a.hi, (k - 64) as u64);
    }
}

/// The all-zero element is the zero polynomial.
pub(crate) proof fn lemma_poly_zero()
    ensures
        poly(Fe { lo: 0, hi: 0 }) == pzero(),
{
    assert forall|j: int| 0 <= j < 128 implies !#[trigger] coeff(Fe { lo: 0, hi: 0 }, j) by {
        if j < 64 {
            lemma_zero_bit(j as u64);
        } else {
            lemma_zero_bit((j - 64) as u64);
        }
    }
    assert(poly(Fe { lo: 0, hi: 0 }) =~= pzero());
}

proof fn lemma_times_x_additive(p1: Seq<bool>, p2: Seq<bool>)
    requires
        p1.len() == 128,
        p2.len() == 128,
    ensures
        ptimes_x(padd(p1, p2)) == padd(ptimes_x(p1), ptimes_x(p2)),
{
    assert(ptimes_x(padd(p1, p2)) =~= padd(ptimes_x(p1), ptimes_x(p2)));
}

proof fn lemma_pshift_additive(p1: Seq<bool>, p2: Seq<bool>, n: nat)
    requires
        p1.len() == 128,
        p2.len() == 128,
    ensures
        pshift(padd(p1, p2), n) == padd(pshift(p1, n), pshift(p2, n)),
        pshift(p1, n).len() == 128,
        pshift(p2, n).len() == 128,
    decreases n,
{
    if n == 0 {
        assert(padd(p1, p2) =~= padd(pshift(p1, 0), pshift(p2, 0)));
    } else {
        let m = (n - 1) as nat;
        lemma_pshift_additive(p1, p2, m);
        lemma_times_x_additive(pshift(p1, m), pshift(p2, m));
    }
}

proof fn lemma_pmul_upto_additive(p1: Seq<bool>, p2: Seq<bool>, q: Seq<bool>, n: nat)
    requires
        p1.len() == 128,
        p2.len() == 128,
    ensures
        pmul_upto(padd(p1, p2), q, n) == padd(pmul_upto(p1, q, n), pmul_upto(p2, q, n)),
    decreases n,
{
    if n == 0 {
        assert(pzero() =~= padd(pzero(), pzero()));
    } else {
        let m = (n - 1) as nat;
        lemma_pmul_upto_additive(p1, p2, q, m);
        lemma_pshift_additive(p1, p2, m);
        let t = pterm(padd(p1, p2), q, m);
        let t1 = pterm(p1, q, m);
        let t2 = pterm(p2, q, m);
        if q[m as int] {
            assert(t == padd(t1, t2));
        } else {
            assert(t =~= padd(t1, t2));
        }
        let s1 = pmul_upto(p1, q, m);
        let s2 = pmul_upto(p2, q, m);
        assert(padd(padd(s1, s2), padd(t1, t2)) =~= padd(padd(s1, t1), padd(s2, t2)));
    }
}

// ---------------------------------------------------------------------------
// Laws.

/// Multiplication by a public byte distributes over field addition:
/// `(a1 + a2) * b == a1 * b + a2 * b`, where `+` is XOR of the limbs.
pub proof fn lemma_mul_byte_distributes(a1: Fe, a2: Fe, x: Fe)
    ensures
        byte_product(fe_xor_spec(a1, a2), x) == padd(byte_product(a1, x), byte_product(a2, x)),
{
    lemma_poly_xor(a1, a2);
    lemma_pmul_upto_additive(poly(a1), poly(a2), poly(byte_elem(x.lo)), 128);
}

/// On an operand in its intended form (a byte in the low limb, zero above)
/// the gadget's product is the field product with that operand.
pub proof fn lemma_byte_product_of_operand(a: Fe, x: Fe)
    requires
        is_byte_operand(x),
    ensures
        byte_product(a, x) == pmul(poly(a), poly(x)),
{
    lemma_small_low_byte(x.lo);
    assert(byte_elem(x.lo) == x);
}

// ---------------------------------------------------------------------------
// Gadgets, evaluated on words.

/// Turns a boolean-carrying word into an AND-mask. Only the most significant
/// bit carries the truth value: all ones when it is set, zero otherwise.
pub fn bit_mask(w: u64) -> (r: u64)
    ensures
        r == if word_bit(w, 63) {
            0xffff_ffff_ffff_ffffu64
        } else {
            0u64
        },
{
    let top = w >> 63;
    assert(top == 0 || top == 1) by (bit_vector)
        requires
            top == w >> 63,
    ;
    assert(word_bit(w, 63) == (top == 1)) by (bit_vector)
        requires
            top == w >> 63,
    ;
    top * 0xffff_ffff_ffff_ffffu64
}

/// Multiplies `a` by x: shift both limbs left by one bit, carrying from `lo`
/// into `hi`, and fold the bit shifted out of `hi` back in as `REDUCTION`.
pub fn mul_x(a: Fe) -> (r: Fe)
    ensures
        poly(r) == ptimes_x(poly(a)),
        poly(r) == pmul(poly(a), monomial_x()),
{
    let carry = a.lo >> 63;
    let hi = (a.hi << 1) ^ carry;
    let mask = bit_mask(a.hi);
    let lo = (a.lo << 1) ^ (REDUCTION & mask);
    let r = Fe { lo, hi };
    proof {
        assert forall|k: int| 0 <= k < 128 implies #[trigger] poly(r)[k] == ptimes_x(poly(a))[k] by {
            if k < 64 {
                lemma_double_lo_bit(a.lo, mask, k as u64);
            } else {
                lemma_double_hi_bit(a.lo, a.hi, (k - 64) as u64);
            }
        }
        assert(poly(r) =~= ptimes_x(poly(a)));
        lemma_times_x_is_mul(poly(a));
    }
    r
}

/// The element that a public byte is lifted to: the byte in the low limb,
/// zero-extended, and a zero high limb.
pub fn lift_byte(b: u8) -> (r: Fe)
    ensures
        r.lo == b as u64,
        r.hi == 0,
        is_byte_operand(r),
{
    Fe { lo: b as u64, hi: 0 }
}

/// Field addition: XOR of both limbs.
pub fn fe_xor(a: Fe, b: Fe) -> (r: Fe)
    ensures
        r == fe_xor_spec(a, b),
        poly(r) == padd(poly(a), poly(b)),
{
    proof {
        lemma_poly_xor(a, b);
    }
    Fe { lo: a.lo ^ b.lo, hi: a.hi ^ b.hi }
}

/// Adds `x` into `acc` when the most significant bit of `cond` is set, and
/// returns `acc` unchanged otherwise, by masking rather than branching.
pub fn cond_xor(acc: Fe, x: Fe, cond: u64) -> (r: Fe)
    ensures
        r == if word_bit(cond, 63) {
            fe_xor_spec(acc, x)
        } else {
            acc
        },
{
    let m = bit_mask(cond);
    proof {
        lemma_and_mask(x.lo);
        lemma_and_mask(x.hi);
        lemma_and_mask(acc.lo);
        lemma_and_mask(acc.hi);
    }
    Fe { lo: acc.lo ^ (x.lo & m), hi: acc.hi ^ (x.hi & m) }
}

/// Multiplies the secret element `a` by the public byte held in the low eight
/// bits of `x.lo`, by eight rounds of double-and-add. Each round moves the
/// next bit of the byte to the top of a word by rotation, adds the current
/// multiple of `a` under that bit, and doubles the multiple.
///
/// Only the low eight bits of `x.lo` are read: `x.hi` and the upper bits of
/// `x.lo` never change the result.
pub fn mul_byte(a: Fe, x: Fe) -> (r: Fe)
    ensures
        poly(r) == byte_product(a, x),
        is_byte_operand(x) ==> poly(r) == pmul(poly(a), poly(x)),
{
    let ghost q = poly(byte_elem(x.lo));
    let mut acc = Fe { lo: 0, hi: 0 };
    let mut p = a;
    let mut k: u64 = 0;
    proof {
        lemma_poly_zero();
    }
    while k < 8
        invariant
            k <= 8,
            q == poly(byte_elem(x.lo)),
            poly(acc) == pmul_upto(poly(a), q, k as nat),
            poly(p) == pshift(poly(a), k as nat),
        decreases 8 - k,
    {
        let s: u64 = 63 - k;
        let t: u64 = 64 - s;
        let rotated = (x.lo << s) | (x.lo >> t);
        proof {
            lemma_masked_bit(x.lo, k, s, t);
            lemma_poly_xor(acc, p);
            lemma_pmul_upto_len(poly(a), q, k as nat);
            lemma_padd_zero(poly(acc));
        }
        acc = cond_xor(acc, p, rotated);
        p = mul_x(p);
        k = k + 1;
    }
    proof {
        assert forall|j: int| 8 <= j < 128 implies !q[j] by {
            if j < 64 {
                lemma_byte_bits_above(x.lo, j as u64);
            } else {
                lemma_zero_bit((j - 64) as u64);
            }
        }
        lemma_pmul_zero_tail(poly(a), q, 8, 128);
        if is_byte_operand(x) {
            lemma_byte_product_of_operand(a, x);
        }
    }
    acc
}

} // verus!
