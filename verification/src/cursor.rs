//! A forward-only read position over a borrowed byte buffer.

use vstd::prelude::*;
use vstd::slice::slice_subrange;

use crate::error::BitcoinError;

verus! {

/// A byte buffer together with the number of bytes already consumed.
///
/// The position never passes the end of the buffer, and no read moves it
/// backwards.
#[derive(Clone, Copy)]
pub struct Cursor<'a> {
    data: &'a [u8],
    position: usize,
}

impl<'a> Cursor<'a> {
    #[verifier::type_invariant]
    spec fn in_bounds(self) -> bool {
        self.position <= self.data@.len()
    }

    /// The whole buffer, consumed bytes included.
    pub closed spec fn data(self) -> Seq<u8> {
        self.data@
    }

    /// How many bytes have been consumed.
    pub closed spec fn consumed(self) -> nat {
        self.position as nat
    }

    /// The bytes that have not been consumed yet.
    pub open spec fn remaining(self) -> Seq<u8> {
        self.data().skip(self.consumed() as int)
    }

    /// Starts reading `data` at its first byte.
    pub fn new(data: &'a [u8]) -> (cursor: Self)
        ensures
            cursor.data() == data@,
            cursor.consumed() == 0,
            cursor.remaining() == data@,
    {
        Cursor { data, position: 0 }
    }

    /// The number of bytes consumed so far.
    pub fn position(&self) -> (position: u64)
        ensures
            position == self.consumed(),
    {
        self.position as u64
    }

    /// The number of bytes left to read.
    pub fn remaining_len(&self) -> (left: usize)
        ensures
            left == self.remaining().len(),
            self.consumed() + left == self.data().len(),
    {
        proof {
            use_type_invariant(self);
        }
        self.data.len() - self.position
    }

    /// The next byte, which stays unconsumed, or `None` at the end of the buffer.
    pub fn peek(&self) -> (next: Option<u8>)
        ensures
            self.consumed() + self.remaining().len() == self.data().len(),
            match next {
                Some(byte) => self.remaining().len() > 0 && byte == self.remaining()[0],
                None => self.remaining().len() == 0,
            },
    {
        proof {
            use_type_invariant(self);
        }
        if self.position < self.data.len() {
            Some(self.data[self.position])
        } else {
            None
        }
    }

    /// Consumes the next `count` bytes and returns them, or fails without
    /// consuming anything when fewer than `count` bytes are left.
    pub fn take(&mut self, count: usize) -> (result: Result<&'a [u8], BitcoinError>)
        ensures
            final(self).data() == old(self).data(),
            old(self).consumed() + old(self).remaining().len() == old(self).data().len(),
            match result {
                Ok(bytes) => {
                    &&& count <= old(self).remaining().len()
                    &&& bytes@ == old(self).remaining().take(count as int)
                    &&& final(self).consumed() == old(self).consumed() + count
                    &&& final(self).remaining() == old(self).remaining().skip(count as int)
                },
                Err(error) => {
                    &&& count > old(self).remaining().len()
                    &&& error == BitcoinError::InvalidScript
                    &&& final(self).consumed() == old(self).consumed()
                },
            },
    {
        proof {
            use_type_invariant(&*self);
        }
        if count > self.data.len() - self.position {
            return Err(BitcoinError::InvalidScript);
        }
        let start: usize = self.position;
        let bytes = slice_subrange(self.data, start, start + count);
        self.position = start + count;
        assert(bytes@ == old(self).remaining().take(count as int));
        assert(self.remaining() == old(self).remaining().skip(count as int));
        Ok(bytes)
    }
}

} // verus!
