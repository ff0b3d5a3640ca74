//! Word arithmetic carried out by `primitive_types::U256` / `U512`.
//!
//! Each function here converts a word's big-endian bytes to a `U256`, makes
//! one arithmetic call, and converts the result back. The contracts state
//! what the called operation computes; everything else about the words is
//! proved in the rest of the crate.

use vstd::prelude::*;
use vstd::arithmetic::power2::pow2;
use crate::word::{Word, word_modulus, wrap_add, wrap_sub, wrap_mul, wrap_pow};

verus! {

/// Relies on `U256::overflowing_add` (crate `uint`): the sum modulo 2^256,
/// with `U256::from_big_endian` / `U256::to_big_endian` converting.
#[verifier::external_body]
pub(crate) fn u256_add(a: &Word, b: &Word) -> (r: Word)
    ensures
        r.as_nat() == wrap_add(a.as_nat(), b.as_nat()),
{
    let x = primitive_types::U256::from_big_endian(&a.bytes);
    let y = primitive_types::U256::from_big_endian(&b.bytes);
    let (s, _) = x.overflowing_add(y);
    Word { bytes: s.to_big_endian() }
}

/// Relies on `U256::overflowing_sub` (crate `uint`): the difference modulo
/// 2^256.
#[verifier::external_body]
pub(crate) fn u256_sub(a: &Word, b: &Word) -> (r: Word)
    ensures
        r.as_nat() == wrap_sub(a.as_nat(), b.as_nat()),
{
    let x = primitive_types::U256::from_big_endian(&a.bytes);
    let y = primitive_types::U256::from_big_endian(&b.bytes);
    let (s, _) = x.overflowing_sub(y);
    Word { bytes: s.to_big_endian() }
}

/// Relies on `U256::overflowing_mul` (crate `uint`): the product modulo
/// 2^256.
#[verifier::external_body]
pub(crate) fn u256_mul(a: &Word, b: &Word) -> (r: Word)
    ensures
        r.as_nat() == wrap_mul(a.as_nat(), b.as_nat()),
{
    let x = primitive_types::U256::from_big_endian(&a.bytes);
    let y = primitive_types::U256::from_big_endian(&b.bytes);
    let (s, _) = x.overflowing_mul(y);
    Word { bytes: s.to_big_endian() }
}

/// Relies on `U256::div` (crate `uint`): the floor quotient. Division by
/// zero would panic there, so the divisor is required nonzero.
#[verifier::external_body]
pub(crate) fn u256_div(a: &Word, b: &Word) -> (r: Word)
    requires
        b.as_nat() != 0,
    ensures
        r.as_nat() == a.as_nat() / b.as_nat(),
{
    let x = primitive_types::U256::from_big_endian(&a.bytes);
    let y = primitive_types::U256::from_big_endian(&b.bytes);
    Word { bytes: (x / y).to_big_endian() }
}

/// Relies on `U256::rem` (crate `uint`): the remainder. A zero divisor
/// would panic there, so it is required nonzero.
#[verifier::external_body]
pub(crate) fn u256_rem(a: &Word, b: &Word) -> (r: Word)
    requires
        b.as_nat() != 0,
    ensures
        r.as_nat() == a.as_nat() % b.as_nat(),
{
    let x = primitive_types::U256::from_big_endian(&a.bytes);
    let y = primitive_types::U256::from_big_endian(&b.bytes);
    Word { bytes: (x % y).to_big_endian() }
}

/// Relies on `U512` addition and remainder (crate `uint`): the sum is formed
/// at full width, so no wrap precedes the reduction.
#[verifier::external_body]
pub(crate) fn u256_addmod(a: &Word, b: &Word, c: &Word) -> (r: Word)
    requires
        c.as_nat() != 0,
    ensures
        r.as_nat() == (a.as_nat() + b.as_nat()) % c.as_nat(),
{
    let x = primitive_types::U512::from(primitive_types::U256::from_big_endian(&a.bytes));
    let y = primitive_types::U512::from(primitive_types::U256::from_big_endian(&b.bytes));
    let m = primitive_types::U512::from(primitive_types::U256::from_big_endian(&c.bytes));
    let s = (x + y) % m;
    let narrow = primitive_types::U256::try_from(s).unwrap();
    Word { bytes: narrow.to_big_endian() }
}

/// Relies on `U256::full_mul` and `U512` remainder (crate `uint` via
/// `primitive_types`): the product is formed at full 512-bit width, so no
/// wrap precedes the reduction.
#[verifier::external_body]
pub(crate) fn u256_mulmod(a: &Word, b: &Word, c: &Word) -> (r: Word)
    requires
        c.as_nat() != 0,
    ensures
        r.as_nat() == (a.as_nat() * b.as_nat()) % c.as_nat(),
{
    let x = primitive_types::U256::from_big_endian(&a.bytes);
    let y = primitive_types::U256::from_big_endian(&b.bytes);
    let m = primitive_types::U512::from(primitive_types::U256::from_big_endian(&c.bytes));
    let s = x.full_mul(y) % m;
    let narrow = primitive_types::U256::try_from(s).unwrap();
    Word { bytes: narrow.to_big_endian() }
}

/// Relies on `U256::overflowing_pow` (crate `uint`): exponentiation by
/// squaring over wrapping multiplication, hence the power modulo 2^256.
#[verifier::external_body]
pub(crate) fn u256_exp(a: &Word, b: &Word) -> (r: Word)
    ensures
        r.as_nat() == wrap_pow(a.as_nat(), b.as_nat()),
{
    let x = primitive_types::U256::from_big_endian(&a.bytes);
    let y = primitive_types::U256::from_big_endian(&b.bytes);
    let (s, _) = x.overflowing_pow(y);
    Word { bytes: s.to_big_endian() }
}

/// Relies on `U256::shl` (crate `uint`): for shifts below 256, the value
/// shifted left, i.e. the product with 2^shift modulo 2^256.
#[verifier::external_body]
pub(crate) fn u256_shl(a: &Word, shift: usize) -> (r: Word)
    requires
        shift < 256,
    ensures
        r.as_nat() == (a.as_nat() * pow2(shift as nat)) % word_modulus(),
{
    let x = primitive_types::U256::from_big_endian(&a.bytes);
    Word { bytes: (x << shift).to_big_endian() }
}

/// Relies on `U256::shr` (crate `uint`): for shifts below 256, the value
/// shifted right logically, i.e. the floor quotient by 2^shift.
#[verifier::external_body]
pub(crate) fn u256_shr(a: &Word, shift: usize) -> (r: Word)
    requires
        shift < 256,
    ensures
        r.as_nat() == a.as_nat() / pow2(shift as nat),
{
    let x = primitive_types::U256::from_big_endian(&a.bytes);
    Word { bytes: (x >> shift).to_big_endian() }
}

} // verus!
