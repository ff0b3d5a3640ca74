//! Unit tests for the word, stack, memory and signed-view components.

use evm_core::add_one;
use evm_core::error::VmError;
use evm_core::i256::{I256, Sign};
use evm_core::memory::Memory;
use evm_core::stack::Stack;
use evm_core::word::Word;

fn w(n: usize) -> Word {
    Word::from_usize(n)
}

#[test]
fn it_adds_one() {
    assert_eq!(3, add_one(2));
}

#[test]
fn store8() {
    let mut mem = Memory::new();
    mem.store8(0, 44);
    let mut res = vec![0u8; 32];
    res[0] = 44;
    assert_eq!(mem.load(0), res);
}

#[test]
fn store() {
    let mut mem = Memory::new();
    mem.store(0, &[42; 32]);
    assert_eq!(mem.load(0), vec![42u8; 32]);
}

#[test]
fn store_expansion() {
    let mut mem = Memory::new();
    mem.store(0, &[42; 32]);
    assert_eq!(mem.size(), 32);

    mem.store(8, &[99; 32]);
    assert_eq!(mem.size(), 64);

    mem.store8(56, 33);
    assert_eq!(mem.size(), 64);
    mem.store(31, &[55; 32]);
    assert_eq!(mem.size(), 64);
    mem.store(32, &[90; 32]);
    assert_eq!(mem.size(), 64);
}

#[test]
fn load_expansion() {
    let mut mem = Memory::new();
    assert_eq!(mem.load(20), vec![0; 32]);
    assert_eq!(mem.size(), 64);
    mem.load(31);
    assert_eq!(mem.size(), 64);
    mem.load(63);
    assert_eq!(mem.size(), 96);
    mem.load(100);
    assert_eq!(mem.size(), 160);
}

#[test]
fn test_stack() {
    let max_sz: usize = 1024;
    let mut data = Stack::new(max_sz);
    assert_eq!(data.max_size, max_sz);

    data.push(w(1)).ok();
    data.push(w(2)).ok();
    data.push(w(3)).ok();
    assert_eq!(data.size(), 3);

    assert_eq!(data.pop(), Ok(w(3)));
    assert_eq!(data.pop(), Ok(w(2)));
    assert_eq!(data.pop(), Ok(w(1)));
    assert_eq!(data.size(), 0);
    assert_eq!(data.pop(), Err(VmError::StackUnderflow));

    // fill the data
    for _ in 0..max_sz {
        data.push(w(5)).ok();
    }

    assert_eq!(data.push(w(5)), Err(VmError::StackOverflow))
}

#[test]
fn division() {
    let neg_one = I256 { sign: Sign::Negative, mag: w(1) };
    let hundred = I256 { sign: Sign::Positive, mag: w(100) };
    let neg_hundred = I256 { sign: Sign::Negative, mag: w(100) };

    let q = hundred.div(&neg_one);
    assert_eq!(q, neg_hundred);
}

#[test]
fn stack_push_then_pop_restores_size() {
    let mut s = Stack::new(1024);
    s.push(w(7)).unwrap();
    s.push(w(9)).unwrap();
    let before = s.size();
    s.push(w(1000)).unwrap();
    assert_eq!(s.size(), before + 1);
    assert_eq!(s.pop(), Ok(w(1000)));
    assert_eq!(s.size(), before);
    assert_eq!(s.pop(), Ok(w(9)));
}

#[test]
fn stack_peek_and_swap() {
    let mut s = Stack::new(1024);
    s.push(w(1)).unwrap();
    s.push(w(2)).unwrap();
    s.push(w(3)).unwrap();
    assert_eq!(s.peek(0), Ok(w(3)));
    assert_eq!(s.peek(2), Ok(w(1)));
    assert_eq!(s.peek(3), Err(VmError::StackUnderflow));
    s.swap(0, 2).unwrap();
    assert_eq!(s.pop(), Ok(w(1)));
    assert_eq!(s.pop(), Ok(w(2)));
    assert_eq!(s.pop(), Ok(w(3)));
    assert_eq!(s.swap(0, 1), Err(VmError::StackUnderflow));
}

#[test]
fn word_encode_then_decode_is_identity() {
    let mut bytes = [0u8; 32];
    for i in 0..32 {
        bytes[i] = (7 * i + 1) as u8;
    }
    let word = Word::from_be_bytes(bytes);
    let encoded = word.to_be_bytes();
    assert_eq!(encoded, bytes);
    let decoded = Word::from_be_bytes(encoded);
    assert_eq!(decoded, word);
}

#[test]
fn word_values_and_indices() {
    assert_eq!(Word::zero(), Word::from_usize(0));
    assert_eq!(Word::from_byte(200), Word::from_usize(200));
    assert_eq!(Word::from_usize(0x1_0203).to_usize(), Some(0x1_0203));
    assert_eq!(Word::from_usize(usize::MAX).to_usize(), Some(usize::MAX));
    let mut big = [0u8; 32];
    big[0] = 1;
    assert_eq!(Word::from_be_bytes(big).to_usize(), None);
    assert!(Word::zero().is_zero());
    assert!(!Word::from_byte(1).is_zero());
    assert!(Word::from_usize(3).lt_word(&Word::from_usize(5)));
    assert!(!Word::from_usize(5).lt_word(&Word::from_usize(5)));
    assert!(Word::from_usize(5).eq_word(&Word::from_usize(5)));
}

#[test]
fn word_from_slice_right_justifies() {
    let word = Word::from_be_slice(&[0xab, 0xcd]);
    assert_eq!(word.byte_at(30), 0xab);
    assert_eq!(word.byte_at(31), 0xcd);
    assert_eq!(word.byte_at(0), 0);
    assert_eq!(word.to_usize(), Some(0xabcd));
}

#[test]
fn signed_round_trip_and_remainder() {
    let v = Word::from_usize(100);
    let s = I256::from_word(&v);
    assert_eq!(s, I256 { sign: Sign::Positive, mag: w(100) });
    assert_eq!(s.to_word(), v);

    // -1 is the all-ones word
    let neg_one_word = Word::from_be_bytes([0xff; 32]);
    let neg_one = I256::from_word(&neg_one_word);
    assert_eq!(neg_one, I256 { sign: Sign::Negative, mag: w(1) });
    assert_eq!(neg_one.to_word(), neg_one_word);

    // remainder takes the dividend's sign: -100 % 3 == -1
    let neg_hundred = I256 { sign: Sign::Negative, mag: w(100) };
    let three = I256 { sign: Sign::Positive, mag: w(3) };
    assert_eq!(neg_hundred.rem(&three), I256 { sign: Sign::Negative, mag: w(1) });
    // and 100 % -3 == 1
    let neg_three = I256 { sign: Sign::Negative, mag: w(3) };
    let hundred = I256 { sign: Sign::Positive, mag: w(100) };
    assert_eq!(hundred.rem(&neg_three), I256 { sign: Sign::Positive, mag: w(1) });
    // division by zero yields zero
    assert_eq!(hundred.div(&I256::zero()), I256::zero());
    assert_eq!(hundred.rem(&I256::zero()), I256::zero());
}

#[test]
fn signed_min_edge_cases() {
    let min = I256::min();
    let mut min_bytes = [0u8; 32];
    min_bytes[0] = 0x80;
    let min_word = Word::from_be_bytes(min_bytes);
    assert_eq!(I256::from_word(&min_word), min);
    assert_eq!(min.to_word(), min_word);

    // MIN / -1 saturates to MIN rather than trapping
    let neg_one = I256 { sign: Sign::Negative, mag: w(1) };
    assert_eq!(min.div(&neg_one), min);
    // and MIN % -1 is zero
    assert_eq!(min.rem(&neg_one), I256::zero());

    // signed comparison: MIN < -1 < 0 < 1
    let one = I256 { sign: Sign::Positive, mag: w(1) };
    assert!(min.lt(&neg_one));
    assert!(neg_one.lt(&I256::zero()));
    assert!(I256::zero().lt(&one));
    assert!(!one.lt(&neg_one));
}

#[test]
fn memory_write_and_read_window() {
    let mut mem = Memory::new();
    mem.write(10, &[1, 2, 3]);
    assert_eq!(mem.size(), 32);
    let out = mem.read(9, 6);
    assert_eq!(out, vec![0, 1, 2, 3, 0, 0]);
    let empty = mem.read(0, 0);
    assert_eq!(empty.len(), 0);
    assert_eq!(mem.size(), 32);
}
