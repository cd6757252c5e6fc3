//! A byte buffer of fixed capacity that can only grow by appending.

use vstd::prelude::*;
use vstd::slice::slice_subrange;

verus! {

/// The size of the ConstSlice.
pub const BUFFER_SIZE: usize = 1024;

/// An append was refused because the buffer has too little room left.
#[derive(Clone, Copy, Debug, PartialEq, Eq)]
pub struct CapacityExceeded {
    /// The number of bytes that were to be appended.
    pub requested: usize,
    /// The number of bytes that the buffer could still take.
    pub available: usize,
}

/// A buffer of a constant size that holds up to `BUFFER_SIZE` bytes.
///
/// Its view is the sequence of the bytes written so far.
pub struct ConstSlice {
    data: [u8; BUFFER_SIZE],
    head: usize,
}

impl View for ConstSlice {
    type V = Seq<u8>;

    closed spec fn view(&self) -> Seq<u8> {
        self.data@.subrange(0, self.head as int)
    }
}

impl ConstSlice {
    /// The write cursor is within the buffer, and nothing has been written
    /// behind it.
    #[verifier::type_invariant]
    spec fn well_formed(self) -> bool {
        &&& self.head <= BUFFER_SIZE
        &&& forall|i: int| self.head <= i < BUFFER_SIZE ==> self.data[i] == 0
    }

    /// Convert a slice into a `ConstSlice`.
    ///
    /// Fails when the slice is longer than `BUFFER_SIZE`.
    pub fn from_slice(slice: &[u8]) -> (r: Result<Self, CapacityExceeded>)
        ensures
            match r {
                Ok(buffer) => slice@.len() <= BUFFER_SIZE && buffer@ == slice@,
                Err(e) => slice@.len() > BUFFER_SIZE && e == (CapacityExceeded {
                    requested: slice.len(),
                    available: BUFFER_SIZE,
                }),
            },
    {
        let s = Self::new();
        s.push_slice(slice)
    }

    /// Create an empty `ConstSlice`.
    pub fn new() -> (buffer: Self)
        ensures
            buffer@ == Seq::<u8>::empty(),
    {
        Self { data: [0;BUFFER_SIZE], head: 0 }
    }

    /// Push a slice of bytes on to the buffer.
    ///
    /// Fails, with the number of bytes asked for and the room that was
    /// left, when the bytes do not all fit.
    pub fn push_slice(self, slice: &[u8]) -> (r: Result<Self, CapacityExceeded>)
        ensures
            match r {
                Ok(buffer) => self@.len() + slice@.len() <= BUFFER_SIZE && buffer@ == self@
                    + slice@,
                Err(e) => self@.len() + slice@.len() > BUFFER_SIZE && e == (CapacityExceeded {
                    requested: slice.len(),
                    available: (BUFFER_SIZE - self@.len()) as usize,
                }),
            },
    {
        self.push_amount(slice, slice.len())
    }

    /// Get a byte at a given index: the byte written there, or zero where
    /// nothing has been written yet.
    pub fn get(&self, index: usize) -> (byte: u8)
        requires
            index < BUFFER_SIZE,
        ensures
            byte == if index < self@.len() {
                self@[index as int]
            } else {
                0
            },
    {
        proof {
            use_type_invariant(self);
        }
        self.data[index]
    }

    /// Get the length of the buffer that has been written to.
    pub fn len(&self) -> (n: usize)
        ensures
            n == self@.len(),
            n <= BUFFER_SIZE,
    {
        proof {
            use_type_invariant(self);
        }
        self.head
    }

    /// Get the buffer as a slice: the bytes written so far.
    pub fn as_slice(&self) -> (slice: &[u8])
        ensures
            slice@ == self@,
    {
        proof {
            use_type_invariant(self);
        }
        slice_subrange(&self.data, 0, self.head)
    }

    /// Push another `ConstSlice` on to the current buffer.
    ///
    /// Fails as `push_slice` does when the two together exceed
    /// `BUFFER_SIZE`.
    pub fn push_other(self, other: Self) -> (r: Result<Self, CapacityExceeded>)
        ensures
            match r {
                Ok(buffer) => self@.len() + other@.len() <= BUFFER_SIZE && buffer@ == self@
                    + other@,
                Err(e) => self@.len() + other@.len() > BUFFER_SIZE && e == (CapacityExceeded {
                    requested: other@.len() as usize,
                    available: (BUFFER_SIZE - self@.len()) as usize,
                }),
            },
    {
        let amount = other.len();
        let r = self.push_amount(other.as_slice(), amount);
        proof {
            assert(other@.subrange(0, amount as int) =~= other@);
        }
        r
    }

    /// Appends the first `amount` bytes of `slice`.
    fn push_amount(self, slice: &[u8], amount: usize) -> (r: Result<Self, CapacityExceeded>)
        requires
            amount <= slice@.len(),
        ensures
            match r {
                Ok(buffer) => self@.len() + amount <= BUFFER_SIZE && buffer@ == self@
                    + slice@.subrange(0, amount as int),
                Err(e) => self@.len() + amount > BUFFER_SIZE && e == (CapacityExceeded {
                    requested: amount,
                    available: (BUFFER_SIZE - self@.len()) as usize,
                }),
            },
    {
        proof {
            use_type_invariant(&self);
        }
        let head = self.head;
        if amount > BUFFER_SIZE - head {
            return Err(CapacityExceeded { requested: amount, available: BUFFER_SIZE - head });
        }
        let mut data = self.data;
        let mut i: usize = 0;
        while i < amount
            invariant
                i <= amount <= slice@.len(),
                head + amount <= BUFFER_SIZE,
                data@.subrange(0, head as int) == self.data@.subrange(0, head as int),
                data@.subrange(head as int, head + i) == slice@.subrange(0, i as int),
                forall|k: int| head + i <= k < BUFFER_SIZE ==> data[k] == 0,
            decreases amount - i,
        {
            data[head + i] = slice[i];
            proof {
                assert(data@.subrange(0, head as int) =~= self.data@.subrange(0, head as int));
                assert(data@.subrange(head as int, head + i + 1) =~= slice@.subrange(0, i + 1));
            }
            i += 1;
        }
        let buffer = Self { data, head: head + amount };
        proof {
            assert(buffer@ =~= self@ + slice@.subrange(0, amount as int));
        }
        Ok(buffer)
    }
}

} // verus!
