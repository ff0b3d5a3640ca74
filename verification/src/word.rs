//! The 256-bit unsigned word: the uniform stack element, stored as its
//! 32-byte big-endian encoding.

use vstd::prelude::*;
use crate::benat::{
    be_nat, pow256, lemma_pow256_increases, lemma_be_nat_bound, lemma_be_nat_append,
    lemma_be_nat_zero, lemma_be_nat_inj, lemma_be_nat_lt, lemma_be_nat_ge_byte,
    lemma_be_nat_complement,
};

verus! {

broadcast use vstd::array::group_array_axioms;

/// A 256-bit unsigned word, held as its 32-byte big-endian encoding.
#[derive(Debug, Clone, Copy, PartialEq, Eq)]
pub struct Word {
    pub bytes: [u8; 32],
}

/// 2^256: the modulus of wrapping word arithmetic.
pub open spec fn word_modulus() -> nat {
    pow256(32)
}

/// Wrapping sum of two word values.
pub open spec fn wrap_add(a: nat, b: nat) -> nat {
    (a + b) % word_modulus()
}

/// Wrapping difference of two word values below the modulus.
pub open spec fn wrap_sub(a: nat, b: nat) -> nat {
    ((a + word_modulus() - b) % word_modulus() as int) as nat
}

/// Wrapping product of two word values.
pub open spec fn wrap_mul(a: nat, b: nat) -> nat {
    (a * b) % word_modulus()
}

/// `a` raised to `e`, reduced modulo 2^256.
pub open spec fn wrap_pow(a: nat, e: nat) -> nat {
    (vstd::arithmetic::power::pow(a as int, e) % word_modulus() as int) as nat
}

/// `256^8 == 2^64`, written out so callers can compare against `u64` bounds.
pub proof fn lemma_pow256_8()
    ensures
        pow256(8) == 0x1_0000_0000_0000_0000,
{
    assert(pow256(0) == 1);
    assert(pow256(1) == 256);
    assert(pow256(2) == 0x1_0000);
    assert(pow256(3) == 0x100_0000);
    assert(pow256(4) == 0x1_0000_0000);
    assert(pow256(5) == 0x100_0000_0000);
    assert(pow256(6) == 0x1_0000_0000_0000);
    assert(pow256(7) == 0x100_0000_0000_0000);
    assert(pow256(8) == 0x1_0000_0000_0000_0000);
}

/// Wrapping law: adding `b` and then subtracting `b` returns `a`, for any
/// word values `a` and `b`.
pub proof fn lemma_wrap_add_sub_cancel(a: nat, b: nat)
    requires
        a < word_modulus(),
        b < word_modulus(),
    ensures
        wrap_sub(wrap_add(a, b), b) == a,
{
    let m = word_modulus() as int;
    crate::benat::lemma_pow256_pos(32);
    let s = wrap_add(a, b);
    vstd::arithmetic::div_mod::lemma_fundamental_div_mod(a as int + b, m);
    let q = (a as int + b) / m;
    vstd::arithmetic::div_mod::lemma_mod_division_less_than_divisor(a as int + b, m);
    vstd::arithmetic::div_mod::lemma_div_pos_is_pos(a as int + b, m);
    assert(a + b < 2 * m);
    assert((q == 0 && a + b == s) || (q == 1 && a + b == m + s)) by (nonlinear_arith)
        requires
            a + b == q * m + s,
            0 <= s < m,
            0 <= a + b < 2 * m,
            m > 0,
    ;
    if a + b == s {
        assert(s + m - b == a + m);
        vstd::arithmetic::div_mod::lemma_mod_add_multiples_vanish(a as int, m);
        vstd::arithmetic::div_mod::lemma_small_mod(a, m as nat);
    } else {
        assert(s + m - b == a);
        vstd::arithmetic::div_mod::lemma_small_mod(a, m as nat);
    }
}

/// Unsigned Euclidean identity: for nonzero `b`, the quotient times `b` plus
/// the remainder recombine to `a`, and neither step wraps.
pub proof fn lemma_wrap_div_rem_identity(a: nat, b: nat)
    requires
        a < word_modulus(),
        0 < b < word_modulus(),
    ensures
        wrap_add(wrap_mul(a / b, b), a % b) == a,
{
    let m = word_modulus() as nat;
    crate::benat::lemma_pow256_pos(32);
    vstd::arithmetic::div_mod::lemma_fundamental_div_mod(a as int, b as int);
    assert(a == b * (a / b) + a % b);
    assert(b * (a / b) == (a / b) * b) by (nonlinear_arith);
    assert((a / b) * b <= a);
    vstd::arithmetic::div_mod::lemma_small_mod(((a / b) * b) as nat, m);
    assert(wrap_mul(a / b, b) == (a / b) * b);
    vstd::arithmetic::div_mod::lemma_small_mod(a, m);
}

/// A word is determined by its unsigned value, so decoding a word's
/// big-endian encoding yields that word back.
pub proof fn lemma_word_value_injective(a: Word, b: Word)
    requires
        a.as_nat() == b.as_nat(),
    ensures
        a == b,
{
    lemma_be_nat_inj(a.bytes@, b.bytes@);
    assert(a.bytes@ == b.bytes@);
    assert(a.bytes =~= b.bytes);
}

impl Word {
    /// The unsigned value the word denotes.
    pub open spec fn as_nat(self) -> nat {
        be_nat(self.bytes@)
    }

    /// Every word value lies below 2^256.
    pub proof fn lemma_as_nat_bound(self)
        ensures
            self.as_nat() < word_modulus(),
    {
        lemma_be_nat_bound(self.bytes@);
    }

    /// The all-zero word.
    pub fn zero() -> (r: Word)
        ensures
            r.as_nat() == 0,
    {
        let r = Word { bytes: [0u8; 32] };
        proof {
            lemma_be_nat_zero(r.bytes@);
        }
        r
    }

    /// A word whose low byte is `b` and whose other bytes are zero.
    pub fn from_byte(b: u8) -> (r: Word)
        ensures
            r.as_nat() == b,
    {
        let mut bytes = [0u8; 32];
        bytes[31] = b;
        let r = Word { bytes };
        proof {
            assert(be_nat(r.bytes@) == be_nat(r.bytes@.drop_last()) * 256 + b);
            lemma_be_nat_zero(r.bytes@.drop_last());
        }
        r
    }

    /// The word's own 32-byte big-endian encoding.
    pub fn to_be_bytes(&self) -> (r: [u8; 32])
        ensures
            r == self.bytes,
    {
        self.bytes
    }

    /// The word a 32-byte big-endian encoding denotes.
    pub fn from_be_bytes(bytes: [u8; 32]) -> (r: Word)
        ensures
            r.bytes == bytes,
            r.as_nat() == be_nat(bytes@),
    {
        Word { bytes }
    }

    /// The word denoted by at most 32 big-endian bytes, right-justified with
    /// leading zeros.
    pub fn from_be_slice(s: &[u8]) -> (r: Word)
        requires
            s@.len() <= 32,
        ensures
            r.as_nat() == be_nat(s@),
            r.bytes@.skip(32 - s@.len()) == s@,
            forall|j: int| 0 <= j < 32 - s@.len() ==> r.bytes@[j] == 0,
    {
        let n = s.len();
        let mut bytes = [0u8; 32];
        let mut i: usize = 0;
        while i < n
            invariant
                i <= n == s@.len() <= 32,
                forall|j: int| 0 <= j < 32 - n ==> bytes@[j] == 0,
                forall|j: int| 0 <= j < i ==> bytes@[32 - n + j] == s@[j],
                forall|j: int| i <= j < n ==> #[trigger] bytes@[32 - n + j] == 0,
            decreases n - i,
        {
            bytes[32 - n + i] = s[i];
            i += 1;
        }
        let r = Word { bytes };
        proof {
            let head = r.bytes@.take(32 - n);
            let tail = r.bytes@.skip(32 - n);
            assert(tail =~= s@);
            assert(r.bytes@ =~= head + tail);
            lemma_be_nat_append(head, tail);
            lemma_be_nat_zero(head);
        }
        r
    }

    /// Byte `i` of the big-endian encoding (byte 0 is the most significant).
    pub fn byte_at(&self, i: usize) -> (r: u8)
        requires
            i < 32,
        ensures
            r == self.bytes@[i as int],
    {
        self.bytes[i]
    }

    /// Whether the word denotes zero.
    pub fn is_zero(&self) -> (r: bool)
        ensures
            r == (self.as_nat() == 0),
    {
        let mut i: usize = 0;
        while i < 32
            invariant
                i <= 32,
                forall|j: int| 0 <= j < i ==> self.bytes@[j] == 0,
            decreases 32 - i,
        {
            if self.bytes[i] != 0 {
                proof {
                    lemma_be_nat_zero(self.bytes@);
                }
                return false;
            }
            i += 1;
        }
        proof {
            lemma_be_nat_zero(self.bytes@);
        }
        true
    }

    /// Whether two words denote the same value.
    pub fn eq_word(&self, other: &Word) -> (r: bool)
        ensures
            r == (self.as_nat() == other.as_nat()),
    {
        let mut i: usize = 0;
        while i < 32
            invariant
                i <= 32,
                forall|j: int| 0 <= j < i ==> self.bytes@[j] == other.bytes@[j],
            decreases 32 - i,
        {
            if self.bytes[i] != other.bytes[i] {
                proof {
                    if self.as_nat() == other.as_nat() {
                        lemma_be_nat_inj(self.bytes@, other.bytes@);
                    }
                }
                return false;
            }
            i += 1;
        }
        proof {
            assert(self.bytes@ =~= other.bytes@);
        }
        true
    }

    /// Whether this word's value is strictly below the other's.
    pub fn lt_word(&self, other: &Word) -> (r: bool)
        ensures
            r == (self.as_nat() < other.as_nat()),
    {
        let mut i: usize = 0;
        while i < 32
            invariant
                i <= 32,
                forall|j: int| 0 <= j < i ==> self.bytes@[j] == other.bytes@[j],
            decreases 32 - i,
        {
            if self.bytes[i] < other.bytes[i] {
                proof {
                    lemma_be_nat_lt(self.bytes@, other.bytes@, i as int);
                }
                return true;
            }
            if self.bytes[i] > other.bytes[i] {
                proof {
                    lemma_be_nat_lt(other.bytes@, self.bytes@, i as int);
                }
                return false;
            }
            i += 1;
        }
        proof {
            assert(self.bytes@ =~= other.bytes@);
        }
        false
    }

    /// Byte-wise conjunction.
    pub fn bit_and(&self, other: &Word) -> (r: Word)
        ensures
            forall|j: int| 0 <= j < 32 ==> r.bytes@[j] == (self.bytes@[j] & other.bytes@[j]),
    {
        let mut bytes = [0u8; 32];
        let mut i: usize = 0;
        while i < 32
            invariant
                i <= 32,
                forall|j: int| 0 <= j < i ==> bytes@[j] == (self.bytes@[j] & other.bytes@[j]),
            decreases 32 - i,
        {
            bytes[i] = self.bytes[i] & other.bytes[i];
            i += 1;
        }
        Word { bytes }
    }

    /// Byte-wise disjunction.
    pub fn bit_or(&self, other: &Word) -> (r: Word)
        ensures
            forall|j: int| 0 <= j < 32 ==> r.bytes@[j] == (self.bytes@[j] | other.bytes@[j]),
    {
        let mut bytes = [0u8; 32];
        let mut i: usize = 0;
        while i < 32
            invariant
                i <= 32,
                forall|j: int| 0 <= j < i ==> bytes@[j] == (self.bytes@[j] | other.bytes@[j]),
            decreases 32 - i,
        {
            bytes[i] = self.bytes[i] | other.bytes[i];
            i += 1;
        }
        Word { bytes }
    }

    /// Byte-wise exclusive or.
    pub fn bit_xor(&self, other: &Word) -> (r: Word)
        ensures
            forall|j: int| 0 <= j < 32 ==> r.bytes@[j] == (self.bytes@[j] ^ other.bytes@[j]),
    {
        let mut bytes = [0u8; 32];
        let mut i: usize = 0;
        while i < 32
            invariant
                i <= 32,
                forall|j: int| 0 <= j < i ==> bytes@[j] == (self.bytes@[j] ^ other.bytes@[j]),
            decreases 32 - i,
        {
            bytes[i] = self.bytes[i] ^ other.bytes[i];
            i += 1;
        }
        Word { bytes }
    }

    /// Byte-wise complement: the value becomes `2^256 - 1 - self`.
    pub fn bit_not(&self) -> (r: Word)
        ensures
            forall|j: int| 0 <= j < 32 ==> r.bytes@[j] == 255 - self.bytes@[j],
            r.as_nat() == word_modulus() - 1 - self.as_nat(),
    {
        let mut bytes = [0u8; 32];
        let mut i: usize = 0;
        while i < 32
            invariant
                i <= 32,
                forall|j: int| 0 <= j < i ==> bytes@[j] == 255 - self.bytes@[j],
            decreases 32 - i,
        {
            bytes[i] = 255 - self.bytes[i];
            i += 1;
        }
        let r = Word { bytes };
        proof {
            lemma_be_nat_complement(self.bytes@, r.bytes@);
        }
        r
    }

    /// The word denoting a host index.
    pub fn from_usize(v: usize) -> (r: Word)
        ensures
            r.as_nat() == v,
    {
        let mut bytes = [0u8; 32];
        let mut x: u64 = v as u64;
        let mut i: usize = 0;
        proof {
            assert(pow256(0) == 1);
            vstd::arithmetic::div_mod::lemma_div_basics(v as int);
            vstd::arithmetic::div_mod::lemma_mod_self_0(1);
            assert(v as nat % pow256(0) == 0) by {
                vstd::arithmetic::div_mod::lemma_small_mod(0, 1);
                vstd::arithmetic::div_mod::lemma_mod_multiples_basic(v as int, 1);
            }
            assert(bytes@.skip(32) =~= Seq::<u8>::empty());
        }
        while i < 8
            invariant
                i <= 8,
                x == v as nat / pow256(i as nat),
                be_nat(bytes@.skip(32 - i)) == v as nat % pow256(i as nat),
                forall|j: int| 0 <= j < 32 - i ==> bytes@[j] == 0,
            decreases 8 - i,
        {
            let ghost pre = bytes@;
            let ghost p = pow256(i as nat);
            proof {
                crate::benat::lemma_pow256_pos(i as nat);
                vstd::arithmetic::div_mod::lemma_breakdown(v as int, p as int, 256);
                vstd::arithmetic::div_mod::lemma_div_denominator(v as int, p as int, 256);
            }
            bytes[31 - i] = (x % 256) as u8;
            proof {
                let b = (x % 256) as u8;
                assert(bytes@[31 - i as int] == b);
                let rest = bytes@.skip(32 - i);
                assert(rest =~= pre.skip(32 - i));
                let tail = bytes@.skip(32 - (i + 1));
                assert(tail =~= seq![b] + rest);
                lemma_be_nat_append(seq![b], rest);
                assert(be_nat(seq![b]) == b) by {
                    assert(be_nat(Seq::<u8>::empty()) == 0);
                    assert(seq![b].drop_last() =~= Seq::<u8>::empty());
                    assert(seq![b].last() == b);
                }
                // the new byte is (v / 256^i) % 256, so the suffix now denotes
                // v % 256^(i+1)
                assert(b == (v as nat / p) % 256);
                assert(pow256((i + 1) as nat) == 256 * p);
                assert(be_nat(tail) == b * p + be_nat(rest));
                assert(v as int % (p as int * 256) == p as int * ((v as int / p as int) % 256)
                    + v as int % p as int);
                assert(b * p == p * ((v as nat / p) % 256)) by (nonlinear_arith)
                    requires b == (v as nat / p) % 256;
                assert(p as int * 256 == 256 * p as int);
                assert(be_nat(tail) == v as nat % pow256((i + 1) as nat));
            }
            x = x / 256;
            i += 1;
        }
        let r = Word { bytes };
        proof {
            lemma_pow256_8();
            vstd::arithmetic::div_mod::lemma_small_mod(v as nat, pow256(8));
            let head = r.bytes@.take(24);
            let tail = r.bytes@.skip(24);
            assert(r.bytes@ =~= head + tail);
            lemma_be_nat_append(head, tail);
            lemma_be_nat_zero(head);
        }
        r
    }

    /// The word's value as a host index, or `None` when it does not fit.
    pub fn to_usize(&self) -> (r: Option<usize>)
        ensures
            match r {
                Some(n) => n == self.as_nat(),
                None => self.as_nat() > usize::MAX,
            },
    {
        let mut i: usize = 0;
        while i < 24
            invariant
                i <= 24,
                forall|j: int| 0 <= j < i ==> self.bytes@[j] == 0,
            decreases 24 - i,
        {
            if self.bytes[i] != 0 {
                proof {
                    lemma_be_nat_ge_byte(self.bytes@, i as int);
                    lemma_pow256_increases(8, (31 - i) as nat);
                    lemma_pow256_8();
                }
                return None;
            }
            i += 1;
        }
        let mut acc: u64 = 0;
        let mut k: usize = 24;
        proof {
            assert(self.bytes@.subrange(24, 24) =~= Seq::<u8>::empty());
        }
        while k < 32
            invariant
                24 <= k <= 32,
                forall|j: int| 0 <= j < 24 ==> self.bytes@[j] == 0,
                acc as nat == be_nat(self.bytes@.subrange(24, k as int)),
                acc < pow256((k - 24) as nat),
            decreases 32 - k,
        {
            proof {
                lemma_pow256_8();
                lemma_pow256_increases((k - 24) as nat, 7);
                assert(self.bytes@.subrange(24, k + 1).drop_last() =~= self.bytes@.subrange(
                    24,
                    k as int,
                ));
                assert(pow256((k + 1 - 24) as nat) == 256 * pow256((k - 24) as nat));
            }
            acc = acc * 256 + self.bytes[k] as u64;
            k += 1;
        }
        proof {
            let head = self.bytes@.take(24);
            let tail = self.bytes@.skip(24);
            assert(tail =~= self.bytes@.subrange(24, 32));
            assert(self.bytes@ =~= head + tail);
            lemma_be_nat_append(head, tail);
            lemma_be_nat_zero(head);
            lemma_pow256_8();
        }
        if acc <= usize::MAX as u64 {
            Some(acc as usize)
        } else {
            None
        }
    }
}

} // verus!
