//! Byte-addressable memory that grows monotonically in 32-byte units.

use vstd::prelude::*;

verus! {

/// The smallest multiple of 32 at or above `n`.
pub open spec fn round_up32(n: nat) -> nat {
    if n % 32 == 0 {
        n
    } else {
        (n + 32 - n % 32) as nat
    }
}

/// The length memory has after an access touching `[offset, offset+size)`,
/// starting from length `len`: unchanged when the range already fits,
/// otherwise rounded up to a multiple of 32.
pub open spec fn grown_len(len: nat, offset: nat, size: nat) -> nat {
    if offset + size <= len {
        len
    } else {
        round_up32((offset + size) as nat)
    }
}

/// The byte a grown memory holds at `i`: the old byte where one existed,
/// zero in the freshly grown part.
pub open spec fn grown_at(old_mem: Seq<u8>, i: int) -> u8 {
    if i < old_mem.len() {
        old_mem[i]
    } else {
        0
    }
}

/// Memory contents after writing `value` at `offset` into `old_mem`, the
/// buffer having grown to `n` bytes.
pub open spec fn written(old_mem: Seq<u8>, offset: nat, value: Seq<u8>, n: nat) -> Seq<u8> {
    Seq::new(
        n,
        |i: int|
            if offset <= i < offset + value.len() {
                value[i - offset]
            } else {
                grown_at(old_mem, i)
            },
    )
}

/// An expandable, zero-initialized byte buffer whose length stays a
/// multiple of 32.
pub struct Memory {
    data: Vec<u8>,
}

impl View for Memory {
    type V = Seq<u8>;

    closed spec fn view(&self) -> Seq<u8> {
        self.data@
    }
}

impl Memory {
    /// The length invariant: memory size is always a multiple of 32.
    pub open spec fn inv(&self) -> bool {
        self@.len() % 32 == 0
    }

    /// An empty memory.
    pub fn new() -> (r: Memory)
        ensures
            r@ == Seq::<u8>::empty(),
            r.inv(),
    {
        Memory { data: Vec::new() }
    }

    /// The current size in bytes.
    pub fn size(&self) -> (r: usize)
        ensures
            r == self@.len(),
    {
        self.data.len()
    }

    /// Grows the buffer, zero-filling, to the smallest multiple of 32 that
    /// covers `[offset, offset+size)`; touching no byte range leaves it be.
    fn expand(&mut self, offset: usize, size: usize)
        requires
            old(self).inv(),
            offset + size + 31 <= usize::MAX,
        ensures
            final(self).inv(),
            final(self)@.len() == grown_len(old(self)@.len(), offset as nat, size as nat),
            forall|i: int| 0 <= i < final(self)@.len() ==> final(self)@[i] == grown_at(
                old(self)@,
                i,
            ),
    {
        let end = offset + size;
        if end > self.data.len() {
            let rem = end % 32;
            let target = if rem == 0 {
                end
            } else {
                end + (32 - rem)
            };
            proof {
                vstd::arithmetic::div_mod::lemma_fundamental_div_mod(end as int, 32);
                vstd::arithmetic::div_mod::lemma_mod_multiples_basic(
                    (end as int / 32) + 1,
                    32,
                );
                assert(target % 32 == 0);
            }
            while self.data.len() < target
                invariant
                    old(self)@.len() <= self@.len() <= target,
                    forall|i: int| 0 <= i < self@.len() ==> self@[i] == grown_at(old(self)@, i),
                decreases target - self@.len(),
            {
                self.data.push(0);
            }
        }
    }

    /// Stores a 32-byte word at `offset`, growing first.
    pub fn store(&mut self, offset: usize, value: &[u8; 32])
        requires
            old(self).inv(),
            offset + 63 <= usize::MAX,
        ensures
            final(self).inv(),
            final(self)@.len() == grown_len(old(self)@.len(), offset as nat, 32),
            final(self)@ == written(old(self)@, offset as nat, value@, final(self)@.len()),
    {
        self.write(offset, value.as_slice());
    }

    /// Stores one byte at `offset`, growing first.
    pub fn store8(&mut self, offset: usize, value: u8)
        requires
            old(self).inv(),
            offset + 32 <= usize::MAX,
        ensures
            final(self).inv(),
            final(self)@.len() == grown_len(old(self)@.len(), offset as nat, 1),
            final(self)@ == written(old(self)@, offset as nat, seq![value], final(self)@.len()),
    {
        let buf = [value];
        self.write(offset, buf.as_slice());
        proof {
            assert(buf@ =~= seq![value]);
        }
    }

    /// Loads the 32-byte word at `offset`, growing first; bytes never
    /// stored read as zero.
    pub fn load(&mut self, offset: usize) -> (r: Vec<u8>)
        requires
            old(self).inv(),
            offset + 63 <= usize::MAX,
        ensures
            final(self).inv(),
            final(self)@.len() == grown_len(old(self)@.len(), offset as nat, 32),
            forall|i: int| 0 <= i < final(self)@.len() ==> final(self)@[i] == grown_at(
                old(self)@,
                i,
            ),
            r@.len() == 32,
            forall|i: int| 0 <= i < 32 ==> r@[i] == grown_at(old(self)@, offset + i),
    {
        self.read(offset, 32)
    }

    /// Reads `size` bytes starting at `offset`, growing first; bytes never
    /// stored read as zero.
    pub fn read(&mut self, offset: usize, size: usize) -> (r: Vec<u8>)
        requires
            old(self).inv(),
            offset + size + 31 <= usize::MAX,
        ensures
            final(self).inv(),
            final(self)@.len() == grown_len(old(self)@.len(), offset as nat, size as nat),
            forall|i: int| 0 <= i < final(self)@.len() ==> final(self)@[i] == grown_at(
                old(self)@,
                i,
            ),
            r@.len() == size,
            forall|i: int| 0 <= i < size ==> r@[i] == grown_at(old(self)@, offset + i),
    {
        self.expand(offset, size);
        let mut r: Vec<u8> = Vec::new();
        let mut i: usize = 0;
        while i < size
            invariant
                i <= size,
                self.inv(),
                offset + size <= usize::MAX,
                size > 0 ==> offset + size <= self@.len(),
                r@.len() == i,
                forall|k: int| 0 <= k < self@.len() ==> self@[k] == grown_at(old(self)@, k),
                forall|k: int| 0 <= k < i ==> r@[k] == grown_at(old(self)@, offset + k),
            decreases size - i,
        {
            r.push(self.data[offset + i]);
            i += 1;
        }
        r
    }

    /// Writes `value` at `offset`, growing first so the whole range fits.
    pub fn write(&mut self, offset: usize, value: &[u8])
        requires
            old(self).inv(),
            offset + value@.len() + 31 <= usize::MAX,
        ensures
            final(self).inv(),
            final(self)@.len() == grown_len(old(self)@.len(), offset as nat, value@.len()),
            final(self)@ == written(old(self)@, offset as nat, value@, final(self)@.len()),
    {
        let n = value.len();
        self.expand(offset, n);
        let mut i: usize = 0;
        while i < n
            invariant
                i <= n == value@.len(),
                self.inv(),
                offset + n <= usize::MAX,
                n > 0 ==> offset + n <= self@.len(),
                self@.len() == grown_len(old(self)@.len(), offset as nat, n as nat),
                forall|k: int|
                    offset <= k < offset + i ==> self@[k] == value@[k - offset],
                forall|k: int|
                    0 <= k < self@.len() && !(offset <= k < offset + i) ==> self@[k] == grown_at(
                        old(self)@,
                        k,
                    ),
            decreases n - i,
        {
            self.data[offset + i] = value[i];
            i += 1;
        }
        proof {
            assert(self@ =~= written(old(self)@, offset as nat, value@, self@.len()));
        }
    }
}

} // verus!
