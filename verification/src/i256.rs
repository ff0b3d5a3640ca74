//! The signed (two's-complement) view of a word: a sign and a magnitude,
//! with truncated division and a remainder that follows the dividend's sign.

use vstd::prelude::*;
use vstd::math::abs;
use crate::benat::{be_nat, pow256, lemma_be_nat_append, lemma_be_nat_zero, lemma_pow256_pos};
use crate::word::{Word, word_modulus};
use crate::u256::{u256_add, u256_div, u256_rem};

verus! {

/// 2^255: the weight of the sign bit; word values at or above it read as
/// negative.
pub open spec fn sign_bound() -> nat {
    128 * pow256(31)
}

/// The signed value a word value `n` denotes under two's complement.
pub open spec fn signed_of(n: nat) -> int {
    if n < sign_bound() {
        n as int
    } else {
        n - word_modulus()
    }
}

/// The word value denoting a signed value, reduced modulo 2^256.
pub open spec fn unsigned_of(x: int) -> nat {
    (x % word_modulus() as int) as nat
}

/// Truncated signed division; a zero divisor yields zero by convention.
/// `-2^255 / -1` comes out as `+2^255`, which wraps back to `-2^255` when
/// read as a word.
pub open spec fn sdiv_val(a: int, b: int) -> int {
    if b == 0 {
        0
    } else if (a < 0) != (b < 0) {
        -(abs(a) / abs(b)) as int
    } else {
        abs(a) as int / abs(b) as int
    }
}

/// Signed remainder: magnitude `|a| % |b|`, sign of the dividend; a zero
/// divisor yields zero by convention.
pub open spec fn srem_val(a: int, b: int) -> int {
    if b == 0 {
        0
    } else if a < 0 {
        -(abs(a) % abs(b)) as int
    } else {
        abs(a) as int % abs(b) as int
    }
}

/// 2^255 == 128 * 256^31, and 2^256 == 2 * 2^255.
pub proof fn lemma_sign_bound()
    ensures
        word_modulus() == 2 * sign_bound(),
        sign_bound() >= 1,
{
    assert(pow256(32) == 256 * pow256(31));
    lemma_pow256_pos(31);
}

/// Signed values in range survive the round trip through a word value.
pub proof fn lemma_signed_unsigned_id(x: int)
    requires
        -(sign_bound() as int) <= x < sign_bound(),
    ensures
        signed_of(unsigned_of(x)) == x,
{
    let m = word_modulus() as int;
    lemma_sign_bound();
    if x >= 0 {
        vstd::arithmetic::div_mod::lemma_small_mod(x as nat, m as nat);
    } else {
        vstd::arithmetic::div_mod::lemma_mod_add_multiples_vanish(x, m);
        vstd::arithmetic::div_mod::lemma_small_mod((x + m) as nat, m as nat);
    }
}

/// Word values survive the round trip through their signed reading.
pub proof fn lemma_unsigned_signed_id(n: nat)
    requires
        n < word_modulus(),
    ensures
        unsigned_of(signed_of(n)) == n,
{
    let m = word_modulus() as int;
    lemma_sign_bound();
    if n < sign_bound() {
        vstd::arithmetic::div_mod::lemma_small_mod(n, m as nat);
    } else {
        vstd::arithmetic::div_mod::lemma_mod_add_multiples_vanish(n as int - m, m);
        vstd::arithmetic::div_mod::lemma_small_mod(n, m as nat);
    }
}

/// The sign of a word value is its most significant byte's top bit: the
/// value reaches 2^255 exactly when that byte reaches 128.
proof fn lemma_sign_byte(w: Word)
    ensures
        (w.as_nat() >= sign_bound()) <==> (w.bytes@[0] >= 128),
{
    let s = w.bytes@;
    let head = s.take(1);
    let tail = s.skip(1);
    assert(s =~= head + tail);
    lemma_be_nat_append(head, tail);
    assert(be_nat(head) == s[0]) by {
        assert(be_nat(Seq::<u8>::empty()) == 0);
        assert(head.drop_last() =~= Seq::<u8>::empty());
        assert(head.last() == s[0]);
    }
    crate::benat::lemma_be_nat_bound(tail);
    assert(be_nat(s) == s[0] * pow256(31) + be_nat(tail));
    lemma_pow256_pos(31);
    if s[0] >= 128 {
        vstd::arithmetic::mul::lemma_mul_inequality(128, s[0] as int, pow256(31) as int);
    } else {
        vstd::arithmetic::mul::lemma_mul_inequality(s[0] as int, 127, pow256(31) as int);
    }
}

/// The sign attached to a magnitude.
#[derive(Debug, Clone, Copy, PartialEq, Eq, Structural)]
pub enum Sign {
    Positive,
    Negative,
    NoSign,
}

/// A signed word: a sign and a nonnegative magnitude.
#[derive(Debug, Clone, Copy, PartialEq, Eq)]
pub struct I256 {
    pub sign: Sign,
    pub mag: Word,
}

impl I256 {
    /// Well-formedness: zero carries `NoSign`; positive magnitudes stay
    /// below 2^255; negative magnitudes reach at most 2^255.
    pub open spec fn wf(self) -> bool {
        match self.sign {
            Sign::NoSign => self.mag.as_nat() == 0,
            Sign::Positive => 1 <= self.mag.as_nat() < sign_bound(),
            Sign::Negative => 1 <= self.mag.as_nat() <= sign_bound(),
        }
    }

    /// The signed value.
    pub open spec fn as_int(self) -> int {
        match self.sign {
            Sign::NoSign => 0,
            Sign::Positive => self.mag.as_nat() as int,
            Sign::Negative => -(self.mag.as_nat() as int),
        }
    }

    /// The signed zero.
    pub fn zero() -> (r: I256)
        ensures
            r.wf(),
            r.as_int() == 0,
    {
        I256 { sign: Sign::NoSign, mag: Word::zero() }
    }

    /// The most negative signed word, `-2^255`.
    pub fn min() -> (r: I256)
        ensures
            r.wf(),
            r.as_int() == -(sign_bound() as int),
    {
        let mut bytes = [0u8; 32];
        bytes[0] = 128;
        let mag = Word { bytes };
        proof {
            let s = mag.bytes@;
            let head = s.take(1);
            let tail = s.skip(1);
            assert(s =~= head + tail);
            lemma_be_nat_append(head, tail);
            assert(be_nat(head) == 128) by {
                assert(be_nat(Seq::<u8>::empty()) == 0);
                assert(head.drop_last() =~= Seq::<u8>::empty());
                assert(head.last() == 128);
            }
            lemma_be_nat_zero(tail);
            lemma_sign_bound();
        }
        I256 { sign: Sign::Negative, mag }
    }

    /// The two's-complement negation of a nonzero word value: `2^256 - n`.
    fn negate(w: &Word) -> (r: Word)
        requires
            w.as_nat() >= 1,
        ensures
            r.as_nat() == word_modulus() - w.as_nat(),
    {
        proof {
            w.lemma_as_nat_bound();
            lemma_pow256_pos(32);
        }
        let flipped = w.bit_not();
        let r = u256_add(&flipped, &Word::from_byte(1));
        proof {
            vstd::arithmetic::div_mod::lemma_small_mod(
                (word_modulus() - w.as_nat()) as nat,
                word_modulus(),
            );
        }
        r
    }

    /// The signed reading of a word.
    pub fn from_word(w: &Word) -> (r: I256)
        ensures
            r.wf(),
            r.as_int() == signed_of(w.as_nat()),
    {
        proof {
            w.lemma_as_nat_bound();
            lemma_sign_byte(*w);
            lemma_sign_bound();
        }
        if w.is_zero() {
            I256::zero()
        } else if w.byte_at(0) >= 128 {
            I256 { sign: Sign::Negative, mag: I256::negate(w) }
        } else {
            I256 { sign: Sign::Positive, mag: *w }
        }
    }

    /// The word denoting a signed value.
    pub fn to_word(&self) -> (r: Word)
        requires
            self.wf(),
        ensures
            r.as_nat() == unsigned_of(self.as_int()),
    {
        proof {
            lemma_sign_bound();
        }
        match self.sign {
            Sign::NoSign => {
                proof {
                    vstd::arithmetic::div_mod::lemma_small_mod(0, word_modulus());
                }
                Word::zero()
            },
            Sign::Positive => {
                proof {
                    vstd::arithmetic::div_mod::lemma_small_mod(
                        self.mag.as_nat(),
                        word_modulus(),
                    );
                }
                self.mag
            },
            Sign::Negative => {
                let r = I256::negate(&self.mag);
                proof {
                    let m = word_modulus() as int;
                    vstd::arithmetic::div_mod::lemma_mod_add_multiples_vanish(
                        self.as_int(),
                        m,
                    );
                    vstd::arithmetic::div_mod::lemma_small_mod(
                        (m - self.mag.as_nat()) as nat,
                        word_modulus(),
                    );
                }
                r
            },
        }
    }

    /// Whether this signed value is strictly below the other.
    pub fn lt(&self, other: &I256) -> (r: bool)
        requires
            self.wf(),
            other.wf(),
        ensures
            r == (self.as_int() < other.as_int()),
    {
        match (self.sign, other.sign) {
            (Sign::Negative, Sign::Negative) => other.mag.lt_word(&self.mag),
            (Sign::Negative, Sign::NoSign) => true,
            (Sign::Negative, Sign::Positive) => true,
            (Sign::NoSign, Sign::Positive) => true,
            (Sign::Positive, Sign::Positive) => self.mag.lt_word(&other.mag),
            _ => false,
        }
    }

    /// Truncated signed division: the magnitudes divide, the signs combine,
    /// a zero divisor yields zero, and `-2^255 / -1` stays `-2^255`.
    pub fn div(&self, other: &I256) -> (r: I256)
        requires
            self.wf(),
            other.wf(),
        ensures
            r.wf(),
            r.as_int() == signed_of(unsigned_of(sdiv_val(self.as_int(), other.as_int()))),
    {
        proof {
            lemma_sign_bound();
        }
        if other.mag.is_zero() {
            proof {
                vstd::arithmetic::div_mod::lemma_small_mod(0, word_modulus());
            }
            return I256::zero();
        }
        let one = Word::from_byte(1);
        if matches!(self.sign, Sign::Negative) && self.mag.byte_at(0) >= 128
            && other.mag.eq_word(&one) {
            // `|self|` can only reach 2^255 for the most negative value, and
            // a unit divisor keeps that magnitude: the result is the most
            // negative value whatever the divisor's sign.
            proof {
                lemma_sign_byte(self.mag);
                self.mag.lemma_as_nat_bound();
                let q = sdiv_val(self.as_int(), other.as_int());
                vstd::arithmetic::div_mod::lemma_div_basics(self.mag.as_nat() as int);
                assert(abs(self.as_int()) == sign_bound());
                assert(abs(other.as_int()) == 1);
                assert(q == sign_bound() || q == -(sign_bound() as int));
                lemma_signed_unsigned_id(-(sign_bound() as int));
                if q == sign_bound() {
                    vstd::arithmetic::div_mod::lemma_small_mod(sign_bound(), word_modulus());
                }
            }
            return I256::min();
        }
        let q = u256_div(&self.mag, &other.mag);
        proof {
            lemma_sign_byte(self.mag);
            self.mag.lemma_as_nat_bound();
            other.mag.lemma_as_nat_bound();
            let a = self.mag.as_nat();
            let b = other.mag.as_nat();
            vstd::arithmetic::div_mod::lemma_fundamental_div_mod(a as int, b as int);
            vstd::arithmetic::div_mod::lemma_mod_division_less_than_divisor(a as int, b as int);
            // the quotient magnitude stays below 2^255
            if b == 1 {
                vstd::arithmetic::div_mod::lemma_div_basics(a as int);
            } else {
                vstd::arithmetic::div_mod::lemma_div_pos_is_pos(a as int, b as int);
                assert(2 * (a / b) <= (a / b) * b) by (nonlinear_arith)
                    requires
                        b >= 2,
                        a / b >= 0,
                ;
            }
            assert(a / b < sign_bound());
        }
        if q.is_zero() {
            proof {
                vstd::arithmetic::div_mod::lemma_small_mod(0, word_modulus());
            }
            return I256::zero();
        }
        let negative = match (self.sign, other.sign) {
            (Sign::Negative, Sign::Positive) => true,
            (Sign::Positive, Sign::Negative) => true,
            _ => false,
        };
        let r = if negative {
            I256 { sign: Sign::Negative, mag: q }
        } else {
            I256 { sign: Sign::Positive, mag: q }
        };
        proof {
            let v = sdiv_val(self.as_int(), other.as_int());
            assert(v == r.as_int());
            lemma_signed_unsigned_id(v);
        }
        r
    }

    /// Signed remainder: magnitude `|self| % |other|`, the dividend's sign;
    /// a zero divisor yields zero.
    pub fn rem(&self, other: &I256) -> (r: I256)
        requires
            self.wf(),
            other.wf(),
        ensures
            r.wf(),
            r.as_int() == srem_val(self.as_int(), other.as_int()),
    {
        if other.mag.is_zero() {
            return I256::zero();
        }
        let m = u256_rem(&self.mag, &other.mag);
        proof {
            vstd::arithmetic::div_mod::lemma_mod_division_less_than_divisor(
                self.mag.as_nat() as int,
                other.mag.as_nat() as int,
            );
        }
        proof {
            vstd::arithmetic::div_mod::lemma_small_mod(0, other.mag.as_nat());
            assert(abs(self.as_int()) == self.mag.as_nat());
            assert(abs(other.as_int()) == other.mag.as_nat());
            lemma_sign_bound();
        }
        if m.is_zero() {
            return I256::zero();
        }
        I256 { sign: self.sign, mag: m }
    }
}

} // verus!
