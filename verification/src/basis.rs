//! Basis indices and their bits.
//!
//! A basis index of an `n`-qubit register is a number below `2^n`; bit `q` of
//! the index is the value of qubit `q` in that basis state.

use vstd::arithmetic::power2::{lemma2_to64, lemma_pow2_unfold, pow2};
use vstd::bits::{lemma_usize_pow2_no_overflow, lemma_usize_shl_is_mul};
use vstd::prelude::*;

verus! {

/// Whether bit `q` of `i` is set.
pub open spec fn has_bit(i: usize, q: usize) -> bool {
    i & (1usize << q) != 0
}

/// `i` with bit `q` cleared.
pub open spec fn without_bit(i: usize, q: usize) -> usize {
    i & !(1usize << q)
}

/// `i` with bit `q` set.
pub open spec fn with_bit(i: usize, q: usize) -> usize {
    i | (1usize << q)
}

/// Bit `q` of `i` as a number, 0 or 1.
pub open spec fn bit_value(i: usize, q: usize) -> int {
    if has_bit(i, q) {
        1
    } else {
        0
    }
}

/// `i` with bits `a` and `b` cleared.
pub open spec fn without_bits(i: usize, a: usize, b: usize) -> usize {
    without_bit(without_bit(i, a), b)
}

/// Shifting one left by `n` gives `2^n`.
pub proof fn lemma_shift_is_pow2(n: usize)
    requires
        n < usize::BITS,
    ensures
        (1usize << n) == pow2(n as nat),
{
    lemma_usize_pow2_no_overflow(n as nat);
    lemma_usize_shl_is_mul(1usize, n);
}

/// Setting or clearing a bit below `n` keeps an index below `2^n`.
pub proof fn lemma_bit_stays_in_range(i: usize, q: usize, n: usize)
    requires
        q < n < usize::BITS,
        i < (1usize << n),
    ensures
        with_bit(i, q) < (1usize << n),
        without_bit(i, q) < (1usize << n),
        without_bit(i, q) <= i,
{
    assert((i | (1usize << q)) < (1usize << n) && (i & !(1usize << q)) < (1usize << n) && (i & !(
    1usize << q)) <= i) by (bit_vector)
        requires
            q < n < usize::BITS,
            i < (1usize << n),
    ;
}

/// An index with bit `q` clear, and the index that differs from it in that
/// bit, are the only two indices that clear to it.
pub proof fn lemma_pair(i: usize, q: usize)
    requires
        q < usize::BITS,
        i & (1usize << q) == 0,
    ensures
        !has_bit(i, q),
        has_bit(with_bit(i, q), q),
        without_bit(i, q) == i,
        with_bit(with_bit(i, q), q) == with_bit(i, q),
        without_bit(with_bit(i, q), q) == i,
        with_bit(i, q) != i,
        forall|j: usize| #[trigger]
            without_bit(j, q) == i ==> j == i || j == with_bit(i, q),
        forall|j: usize| #[trigger] without_bit(j, q) < i ==> j != i && j != with_bit(i, q),
{
    assert((i | (1usize << q)) & (1usize << q) != 0 && (i & !(1usize << q)) == i && ((i | (1usize
        << q)) | (1usize << q)) == (i | (1usize << q)) && ((i | (1usize << q)) & !(1usize << q))
        == i && (i | (1usize << q)) != i) by (bit_vector)
        requires
            q < usize::BITS,
            i & (1usize << q) == 0,
    ;
    assert forall|j: usize| #[trigger] without_bit(j, q) == i implies j == i || j == with_bit(
        i,
        q,
    ) by {
        assert((j & !(1usize << q)) == i ==> j == i || j == (i | (1usize << q))) by (bit_vector)
            requires
                q < usize::BITS,
        ;
    }
}

/// An index with bit `q` set is not what any index clears to.
pub proof fn lemma_not_a_base(i: usize, q: usize)
    requires
        q < usize::BITS,
        i & (1usize << q) != 0,
    ensures
        forall|j: usize| #[trigger] without_bit(j, q) != i,
{
    assert forall|j: usize| #[trigger] without_bit(j, q) != i by {
        assert((j & !(1usize << q)) != i) by (bit_vector)
            requires
                q < usize::BITS,
                i & (1usize << q) != 0,
        ;
    }
}

/// The four indices that agree with `i` outside bits `c` and `t`, for an `i`
/// that has both bits clear: what the exclusive-ors compute, which bits each
/// has, and that no other index clears to `i`.
pub proof fn lemma_quad(i: usize, c: usize, t: usize, n: usize)
    requires
        c < n < usize::BITS,
        t < n,
        c != t,
        i < (1usize << n),
        i & (1usize << c) == 0,
        i & (1usize << t) == 0,
    ensures
        ({
            let i01 = i ^ (1usize << t);
            let i10 = i ^ (1usize << c);
            let i11 = i ^ (1usize << c) ^ (1usize << t);
            &&& i01 < (1usize << n) && i10 < (1usize << n) && i11 < (1usize << n)
            &&& i01 != i && i10 != i && i11 != i && i01 != i10 && i01 != i11 && i10 != i11
            &&& i01 == with_bit(i, t)
            &&& i10 == with_bit(i, c)
            &&& i11 == with_bit(with_bit(i, c), t)
            &&& without_bits(i, c, t) == i
            &&& without_bits(i01, c, t) == i
            &&& without_bits(i10, c, t) == i
            &&& without_bits(i11, c, t) == i
            &&& !has_bit(i, c) && !has_bit(i, t)
            &&& !has_bit(i01, c) && has_bit(i01, t)
            &&& has_bit(i10, c) && !has_bit(i10, t)
            &&& has_bit(i11, c) && has_bit(i11, t)
            &&& forall|j: usize| #[trigger]
                without_bits(j, c, t) == i ==> j == i || j == i01 || j == i10 || j == i11
        }),
{
    let cb = 1usize << c;
    let tb = 1usize << t;
    assert(cb != 0 && tb != 0 && cb & tb == 0) by (bit_vector)
        requires
            c < usize::BITS,
            t < usize::BITS,
            c != t,
            cb == 1usize << c,
            tb == 1usize << t,
    ;
    assert((i ^ tb) < (1usize << n) && (i ^ cb) < (1usize << n) && (i ^ cb ^ tb) < (1usize << n))
        by (bit_vector)
        requires
            c < n < usize::BITS,
            t < n,
            i < (1usize << n),
            cb == 1usize << c,
            tb == 1usize << t,
    ;
    assert({
        &&& (i ^ tb) != i && (i ^ cb) != i && (i ^ cb ^ tb) != i
        &&& (i ^ tb) != (i ^ cb) && (i ^ tb) != (i ^ cb ^ tb) && (i ^ cb) != (i ^ cb ^ tb)
        &&& (i ^ tb) == (i | tb)
        &&& (i ^ cb) == (i | cb)
        &&& (i ^ cb ^ tb) == ((i | cb) | tb)
        &&& ((i & !cb) & !tb) == i
        &&& (((i ^ tb) & !cb) & !tb) == i
        &&& (((i ^ cb) & !cb) & !tb) == i
        &&& (((i ^ cb ^ tb) & !cb) & !tb) == i
        &&& (i ^ tb) & cb == 0 && (i ^ tb) & tb != 0
        &&& (i ^ cb) & cb != 0 && (i ^ cb) & tb == 0
        &&& (i ^ cb ^ tb) & cb != 0 && (i ^ cb ^ tb) & tb != 0
    }) by (bit_vector)
        requires
            cb != 0 && tb != 0 && cb & tb == 0,
            i & cb == 0,
            i & tb == 0,
    ;
    assert forall|j: usize| #[trigger] without_bits(j, c, t) == i implies j == i || j == (i ^ tb)
        || j == (i ^ cb) || j == (i ^ cb ^ tb) by {
        assert(((j & !cb) & !tb) == i ==> j == i || j == (i ^ tb) || j == (i ^ cb) || j == (i
            ^ cb ^ tb)) by (bit_vector)
            requires
                cb != 0 && tb != 0 && cb & tb == 0,
                cb == 1usize << c,
                tb == 1usize << t,
                c < usize::BITS,
                t < usize::BITS,
        ;
    }
}

/// An index with bit `c` or bit `t` set is not what any index clears to, and
/// clearing both bits never raises an index.
pub proof fn lemma_not_a_quad_base(i: usize, c: usize, t: usize)
    requires
        c < usize::BITS,
        t < usize::BITS,
        i & (1usize << c) != 0 || i & (1usize << t) != 0,
    ensures
        forall|j: usize| #[trigger] without_bits(j, c, t) != i,
{
    assert forall|j: usize| #[trigger] without_bits(j, c, t) != i by {
        assert(((j & !(1usize << c)) & !(1usize << t)) != i) by (bit_vector)
            requires
                c < usize::BITS,
                t < usize::BITS,
                i & (1usize << c) != 0 || i & (1usize << t) != 0,
        ;
    }
}

/// Clearing two bits never raises an index.
pub proof fn lemma_without_bits_le(j: usize, c: usize, t: usize)
    ensures
        without_bits(j, c, t) <= j,
{
    assert(((j & !(1usize << c)) & !(1usize << t)) <= j) by (bit_vector);
}

/// Whether `qubits` names qubits of an `n`-qubit register, each at most
/// once.
pub open spec fn distinct_below(qubits: Seq<usize>, n: usize) -> bool {
    &&& qubits.len() <= n
    &&& forall|a: int| 0 <= a < qubits.len() ==> #[trigger] qubits[a] < n
    &&& forall|a: int, b: int| 0 <= a < b < qubits.len() ==> qubits[a] != qubits[b]
}

/// The index that has exactly the bits of `qubits` set.
pub open spec fn mask_of(qubits: Seq<usize>) -> usize
    decreases qubits.len(),
{
    if qubits.len() == 0 {
        0
    } else {
        mask_of(qubits.drop_last()) | (1usize << qubits.last())
    }
}

/// The index that carries the pattern `c` on `qubits` and is zero elsewhere.
/// The last qubit takes the lowest bit of `c`, the first qubit the highest.
pub open spec fn spread(c: int, qubits: Seq<usize>) -> usize
    decreases qubits.len(),
{
    if qubits.len() == 0 {
        0
    } else {
        spread(c / 2, qubits.drop_last()) | if c % 2 == 1 {
            1usize << qubits.last()
        } else {
            0usize
        }
    }
}

/// The pattern that `i` has on `qubits`: the number whose binary digits are
/// the bits of `i` at the qubits, the first qubit giving the highest digit.
pub open spec fn pattern(i: usize, qubits: Seq<usize>) -> int
    decreases qubits.len(),
{
    if qubits.len() == 0 {
        0
    } else {
        2 * pattern(i, qubits.drop_last()) + bit_value(i, qubits.last())
    }
}

/// A list of distinct qubits stays one when its last qubit is dropped.
pub proof fn lemma_distinct_drop_last(qubits: Seq<usize>, n: usize)
    requires
        distinct_below(qubits, n),
        qubits.len() > 0,
    ensures
        distinct_below(qubits.drop_last(), n),
        forall|a: int| 0 <= a < qubits.len() - 1 ==> #[trigger] qubits.drop_last()[a] != qubits.last(),
{
}

/// The mask of qubits below `n` lies below `2^n`, and has no bit of a qubit
/// that is not among them.
pub proof fn lemma_mask_of(qubits: Seq<usize>, n: usize, q: usize)
    requires
        n < usize::BITS,
        q < usize::BITS,
        forall|a: int| 0 <= a < qubits.len() ==> #[trigger] qubits[a] < n,
        forall|a: int| 0 <= a < qubits.len() ==> #[trigger] qubits[a] != q,
    ensures
        mask_of(qubits) < (1usize << n),
        mask_of(qubits) & (1usize << q) == 0,
    decreases qubits.len(),
{
    if qubits.len() == 0 {
        assert(0usize < (1usize << n) && 0usize & (1usize << q) == 0) by (bit_vector)
            requires
                n < usize::BITS,
        ;
    } else {
        let rest = qubits.drop_last();
        let last = qubits.last();
        lemma_mask_of(rest, n, q);
        let m = mask_of(rest);
        assert((m | (1usize << last)) < (1usize << n) && (m | (1usize << last)) & (1usize << q)
            == 0) by (bit_vector)
            requires
                last < n < usize::BITS,
                q < usize::BITS,
                last != q,
                m < (1usize << n),
                m & (1usize << q) == 0,
        ;
    }
}

/// A spread pattern has no bit outside the mask.
pub proof fn lemma_spread_within_mask(c: int, qubits: Seq<usize>)
    ensures
        spread(c, qubits) & !mask_of(qubits) == 0,
    decreases qubits.len(),
{
    if qubits.len() == 0 {
        assert(0usize & !0usize == 0) by (bit_vector);
    } else {
        let rest = qubits.drop_last();
        let last = qubits.last();
        lemma_spread_within_mask(c / 2, rest);
        let s = spread(c / 2, rest);
        let m = mask_of(rest);
        let b = 1usize << last;
        assert((s | b) & !(m | b) == 0 && (s | 0usize) & !(m | b) == 0) by (bit_vector)
            requires
                s & !m == 0,
        ;
    }
}

/// The pattern on a list of qubits does not depend on a bit that is not
/// among them.
pub proof fn lemma_pattern_ignores_other_bit(i: usize, qubits: Seq<usize>, q: usize)
    requires
        q < usize::BITS,
        forall|a: int| 0 <= a < qubits.len() ==> #[trigger] qubits[a] < usize::BITS,
        forall|a: int| 0 <= a < qubits.len() ==> #[trigger] qubits[a] != q,
    ensures
        pattern(i | (1usize << q), qubits) == pattern(i, qubits),
    decreases qubits.len(),
{
    if qubits.len() > 0 {
        let rest = qubits.drop_last();
        let last = qubits.last();
        lemma_pattern_ignores_other_bit(i, rest, q);
        assert(((i | (1usize << q)) & (1usize << last) != 0) == (i & (1usize << last) != 0))
            by (bit_vector)
            requires
                q < usize::BITS,
                last < usize::BITS,
                last != q,
        ;
    }
}

/// The index made of a base and a spread pattern has that base and that
/// pattern.
pub proof fn lemma_pattern_of_member(base: usize, c: int, qubits: Seq<usize>, n: usize)
    requires
        n < usize::BITS,
        distinct_below(qubits, n),
        base & mask_of(qubits) == 0,
        0 <= c < pow2(qubits.len()),
    ensures
        pattern(base | spread(c, qubits), qubits) == c,
        (base | spread(c, qubits)) & !mask_of(qubits) == base,
    decreases qubits.len(),
{
    let s = spread(c, qubits);
    let m = mask_of(qubits);
    lemma_spread_within_mask(c, qubits);
    assert((base | s) & !m == base) by (bit_vector)
        requires
            base & m == 0,
            s & !m == 0,
    ;
    if qubits.len() == 0 {
        lemma2_to64();
    } else {
        let rest = qubits.drop_last();
        let last = qubits.last();
        let bit = 1usize << last;
        let m0 = mask_of(rest);
        let s0 = spread(c / 2, rest);
        lemma_distinct_drop_last(qubits, n);
        lemma_pow2_unfold(qubits.len());
        assert(base & m0 == 0) by (bit_vector)
            requires
                base & (m0 | bit) == 0,
        ;
        lemma_pattern_of_member(base, c / 2, rest, n);
        lemma_mask_of(rest, n, last);
        lemma_spread_within_mask(c / 2, rest);
        let x = base | s;
        if c % 2 == 1 {
            assert(s == s0 | bit);
            assert((base | (s0 | bit)) == ((base | s0) | bit)) by (bit_vector);
            lemma_pattern_ignores_other_bit(base | s0, rest, last);
            assert(pattern(x, rest) == c / 2);
            assert(((base | s0) | bit) & bit != 0) by (bit_vector)
                requires
                    bit == 1usize << last,
                    last < usize::BITS,
            ;
            assert(bit_value(x, last) == 1);
        } else {
            assert(s == s0 | 0usize);
            assert((base | (s0 | 0usize)) == (base | s0) && (base | s0) & bit == 0) by (bit_vector)
                requires
                    base & (m0 | bit) == 0,
                    s0 & !m0 == 0,
                    m0 & bit == 0,
            ;
            assert(pattern(x, rest) == c / 2);
            assert(bit_value(x, last) == 0);
        }
        assert(pattern(x, qubits) == 2 * pattern(x, rest) + bit_value(x, last));
    }
}

/// Every index is made of its base and of its own pattern, spread; the
/// pattern is below `2^k` for `k` qubits.
pub proof fn lemma_member_of_own_group(j: usize, qubits: Seq<usize>)
    requires
        forall|a: int| 0 <= a < qubits.len() ==> #[trigger] qubits[a] < usize::BITS,
    ensures
        0 <= pattern(j, qubits) < pow2(qubits.len()),
        j == (j & !mask_of(qubits)) | spread(pattern(j, qubits), qubits),
        (j & !mask_of(qubits)) & mask_of(qubits) == 0,
        (j & !mask_of(qubits)) <= j,
    decreases qubits.len(),
{
    let m = mask_of(qubits);
    assert((j & !m) & m == 0 && (j & !m) <= j) by (bit_vector);
    if qubits.len() == 0 {
        lemma2_to64();
        assert(j == (j & !0usize) | 0usize) by (bit_vector);
    } else {
        let rest = qubits.drop_last();
        let last = qubits.last();
        let bit = 1usize << last;
        let m0 = mask_of(rest);
        let p = pattern(j, rest);
        let s0 = spread(p, rest);
        lemma_member_of_own_group(j, rest);
        lemma_pow2_unfold(qubits.len());
        lemma_spread_within_mask(p, rest);
        let b = bit_value(j, last);
        assert((2 * p + b) / 2 == p && (2 * p + b) % 2 == b);
        if b == 1 {
            assert(j == (j & !(m0 | bit)) | (s0 | bit)) by (bit_vector)
                requires
                    j == (j & !m0) | s0,
                    s0 & !m0 == 0,
                    j & bit != 0,
                    bit == 1usize << last,
                    last < usize::BITS,
            ;
        } else {
            assert(j == (j & !(m0 | bit)) | (s0 | 0usize)) by (bit_vector)
                requires
                    j == (j & !m0) | s0,
                    s0 & !m0 == 0,
                    j & bit == 0,
            ;
        }
    }
}

/// An index made of a base below `2^n` and of bits of the mask is below
/// `2^n`.
pub proof fn lemma_member_in_range(base: usize, s: usize, m: usize, n: usize)
    requires
        n < usize::BITS,
        base < (1usize << n),
        m < (1usize << n),
        s & !m == 0,
    ensures
        (base | s) < (1usize << n),
{
    assert((base | s) < (1usize << n)) by (bit_vector)
        requires
            n < usize::BITS,
            base < (1usize << n),
            m < (1usize << n),
            s & !m == 0,
    ;
}

} // verus!
