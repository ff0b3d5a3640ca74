//! Big-endian byte sequences read as unsigned integers, and the facts about
//! that reading which the word type and its operations rely on.

use vstd::prelude::*;
use vstd::arithmetic::mul::{lemma_mul_inequality, lemma_mul_is_distributive_add_other_way};

verus! {

/// 256 raised to `n`: the weight of a byte `n` places from the low end.
pub open spec fn pow256(n: nat) -> nat
    decreases n,
{
    if n == 0 {
        1
    } else {
        256 * pow256((n - 1) as nat)
    }
}

/// The unsigned integer a byte sequence denotes when read big-endian.
pub open spec fn be_nat(s: Seq<u8>) -> nat
    decreases s.len(),
{
    if s.len() == 0 {
        0
    } else {
        (be_nat(s.drop_last()) * 256 + s.last()) as nat
    }
}

pub proof fn lemma_pow256_pos(n: nat)
    ensures
        pow256(n) >= 1,
    decreases n,
{
    if n > 0 {
        lemma_pow256_pos((n - 1) as nat);
    }
}

pub proof fn lemma_pow256_adds(a: nat, b: nat)
    ensures
        pow256(a + b) == pow256(a) * pow256(b),
    decreases a,
{
    if a == 0 {
        assert(pow256(a) == 1);
        assert(a + b == b);
        assert(pow256(a + b) == 1 * pow256(b));
    } else {
        lemma_pow256_adds((a - 1) as nat, b);
        assert(pow256(a + b) == 256 * pow256((a + b - 1) as nat));
        assert(pow256(a) == 256 * pow256((a - 1) as nat));
        assert((a + b - 1) as nat == (a - 1) as nat + b);
        assert(pow256(a + b) == 256 * (pow256((a - 1) as nat) * pow256(b)));
        let p = pow256((a - 1) as nat) as int;
        let q = pow256(b) as int;
        assert(256 * (p * q) == (256 * p) * q) by (nonlinear_arith);
        assert(pow256(a + b) == pow256(a) * pow256(b));
    }
}

pub proof fn lemma_pow256_increases(a: nat, b: nat)
    requires
        a <= b,
    ensures
        pow256(a) <= pow256(b),
{
    lemma_pow256_adds(a, (b - a) as nat);
    lemma_pow256_pos((b - a) as nat);
    lemma_pow256_pos(a);
    lemma_mul_inequality(1, pow256((b - a) as nat) as int, pow256(a) as int);
    vstd::arithmetic::mul::lemma_mul_is_commutative(pow256(a) as int, pow256((b - a) as nat) as int);
}

/// A sequence of `n` bytes denotes a value below `256^n`.
pub proof fn lemma_be_nat_bound(s: Seq<u8>)
    ensures
        be_nat(s) < pow256(s.len()),
    decreases s.len(),
{
    if s.len() == 0 {
    } else {
        let d = s.drop_last();
        lemma_be_nat_bound(d);
        lemma_mul_inequality(be_nat(d) as int, pow256(d.len()) - 1, 256);
    }
}

/// Concatenation: the front bytes are weighted by the length of the back.
pub proof fn lemma_be_nat_append(a: Seq<u8>, b: Seq<u8>)
    ensures
        be_nat(a + b) == be_nat(a) * pow256(b.len()) + be_nat(b),
    decreases b.len(),
{
    if b.len() == 0 {
        assert(a + b =~= a);
        assert(pow256(b.len()) == 1);
        assert(be_nat(a) * 1 == be_nat(a));
    } else {
        let d = b.drop_last();
        lemma_be_nat_append(a, d);
        assert((a + b).drop_last() =~= a + d);
        assert((a + b).last() == b.last());
        assert(pow256(b.len()) == 256 * pow256((b.len() - 1) as nat));
        lemma_mul_is_distributive_add_other_way(
            256,
            be_nat(a) * pow256(d.len()) as int,
            be_nat(d) as int,
        );
        assert(be_nat(a) * pow256(d.len()) * 256 == be_nat(a) * (256 * pow256(d.len())))
            by (nonlinear_arith);
    }
}

/// A sequence denotes zero exactly when every byte is zero.
pub proof fn lemma_be_nat_zero(s: Seq<u8>)
    ensures
        (be_nat(s) == 0) <==> (forall|i: int| 0 <= i < s.len() ==> s[i] == 0),
    decreases s.len(),
{
    if s.len() == 0 {
    } else {
        let d = s.drop_last();
        lemma_be_nat_zero(d);
        assert(forall|i: int| 0 <= i < d.len() ==> d[i] == s[i]);
        if be_nat(s) == 0 {
            assert(forall|i: int| 0 <= i < s.len() ==> s[i] == 0);
        }
        if forall|i: int| 0 <= i < s.len() ==> s[i] == 0 {
            assert(forall|i: int| 0 <= i < d.len() ==> d[i] == 0);
        }
    }
}

/// Equal length and equal value force equal bytes.
pub proof fn lemma_be_nat_inj(s1: Seq<u8>, s2: Seq<u8>)
    requires
        s1.len() == s2.len(),
        be_nat(s1) == be_nat(s2),
    ensures
        s1 =~= s2,
    decreases s1.len(),
{
    if s1.len() == 0 {
    } else {
        let d1 = s1.drop_last();
        let d2 = s2.drop_last();
        let v = be_nat(s1) as int;
        vstd::arithmetic::div_mod::lemma_fundamental_div_mod_converse(
            v,
            256,
            be_nat(d1) as int,
            s1.last() as int,
        );
        vstd::arithmetic::div_mod::lemma_fundamental_div_mod_converse(
            v,
            256,
            be_nat(d2) as int,
            s2.last() as int,
        );
        lemma_be_nat_inj(d1, d2);
        assert(s1 =~= d1.push(s1.last()));
        assert(s2 =~= d2.push(s2.last()));
    }
}

/// With equal prefixes, the first differing byte decides the order.
pub proof fn lemma_be_nat_lt(s1: Seq<u8>, s2: Seq<u8>, i: int)
    requires
        s1.len() == s2.len(),
        0 <= i < s1.len(),
        forall|j: int| 0 <= j < i ==> s1[j] == s2[j],
        s1[i] < s2[i],
    ensures
        be_nat(s1) < be_nat(s2),
{
    let n = s1.len() as int;
    let m = (n - i - 1) as nat;
    let t1 = s1.take(i + 1);
    let t2 = s2.take(i + 1);
    let r1 = s1.skip(i + 1);
    let r2 = s2.skip(i + 1);
    assert(s1 =~= t1 + r1);
    assert(s2 =~= t2 + r2);
    lemma_be_nat_append(t1, r1);
    lemma_be_nat_append(t2, r2);
    assert(t1.drop_last() =~= t2.drop_last());
    assert(be_nat(t1) == be_nat(t1.drop_last()) * 256 + s1[i]);
    assert(be_nat(t2) == be_nat(t2.drop_last()) * 256 + s2[i]);
    lemma_be_nat_bound(r1);
    // be_nat(s1) < (be_nat(t1) + 1) * 256^m <= be_nat(t2) * 256^m <= be_nat(s2)
    lemma_mul_is_distributive_add_other_way(pow256(m) as int, be_nat(t1) as int, 1);
    lemma_mul_inequality(be_nat(t1) as int + 1, be_nat(t2) as int, pow256(m) as int);
}

/// A nonzero byte puts the value at or above the weight of its position.
pub proof fn lemma_be_nat_ge_byte(s: Seq<u8>, i: int)
    requires
        0 <= i < s.len(),
        s[i] >= 1,
    ensures
        be_nat(s) >= pow256((s.len() - i - 1) as nat),
{
    let m = (s.len() - i - 1) as nat;
    let t = s.take(i + 1);
    let r = s.skip(i + 1);
    assert(s =~= t + r);
    lemma_be_nat_append(t, r);
    assert(be_nat(t) == be_nat(t.drop_last()) * 256 + s[i]);
    lemma_mul_inequality(1, be_nat(t) as int, pow256(m) as int);
}

/// Complementing every byte complements the value.
pub proof fn lemma_be_nat_complement(s1: Seq<u8>, s2: Seq<u8>)
    requires
        s1.len() == s2.len(),
        forall|i: int| 0 <= i < s1.len() ==> s2[i] == 255 - s1[i],
    ensures
        be_nat(s2) == pow256(s1.len()) - 1 - be_nat(s1),
    decreases s1.len(),
{
    if s1.len() == 0 {
    } else {
        let d1 = s1.drop_last();
        let d2 = s2.drop_last();
        assert(forall|i: int| 0 <= i < d1.len() ==> d2[i] == 255 - d1[i]);
        lemma_be_nat_complement(d1, d2);
    }
}

} // verus!
