//! Plaintext that has been decrypted but that the caller has not taken yet.

use vstd::prelude::*;

verus! {

/// Decrypted bytes, waiting for a reader: a queue that is filled a vector at a
/// time and drained into whatever buffer the reader brings.
#[derive(Debug)]
pub struct Inbox {
    /// What was decrypted, from the first byte that is still needed to keep
    /// the rest in place.
    bytes: Vec<u8>,
    /// Where in `bytes` the reader has read up to.
    taken: usize,
}

impl View for Inbox {
    type V = Seq<u8>;

    /// The bytes that have not been taken, oldest first.
    closed spec fn view(&self) -> Seq<u8> {
        self.bytes@.skip(self.taken as int)
    }
}

impl Inbox {
    /// Either some byte is left to take, or the queue holds nothing at all: a
    /// drained queue is reset rather than left to grow forever.
    #[verifier::type_invariant]
    spec fn reset_once_drained(&self) -> bool {
        self.taken < self.bytes@.len() || (self.taken == 0 && self.bytes@.len() == 0)
    }

    /// How many bytes are stored, taken or not.
    pub closed spec fn stored(&self) -> nat {
        self.bytes@.len()
    }

    /// A queue with nothing in it.
    pub fn new() -> (inbox: Inbox)
        ensures
            inbox@ == Seq::<u8>::empty(),
            inbox.stored() == 0,
    {
        let inbox = Inbox { bytes: Vec::new(), taken: 0 };
        assert(inbox@ =~= Seq::<u8>::empty());
        inbox
    }

    /// Whether there is nothing to take.
    pub fn is_empty(&self) -> (empty: bool)
        ensures
            empty == (self@.len() == 0),
    {
        proof {
            use_type_invariant(self);
        }
        self.bytes.len() == 0
    }

    /// Put `more` behind what is there.
    pub fn push(&mut self, more: Vec<u8>)
        ensures
            final(self)@ == old(self)@ + more@,
            final(self).stored() == old(self).stored() + more@.len(),
    {
        proof {
            use_type_invariant(&*self);
        }
        let taken: usize = self.taken;
        let mut bytes: Vec<u8> = Vec::new();
        let mut more = more;
        let ghost added = more@;
        self.taken = 0;
        core::mem::swap(&mut self.bytes, &mut bytes);
        bytes.append(&mut more);
        self.bytes = bytes;
        self.taken = taken;
        assert(self@ =~= old(self)@ + added);
    }

    /// Move as many bytes as `buffer` holds, oldest first, into its front, and
    /// say how many that were. Once all are taken, none is stored any more.
    pub fn take(&mut self, buffer: &mut [u8]) -> (count: usize)
        ensures
            count <= old(self)@.len(),
            count <= old(buffer)@.len(),
            count == old(self)@.len() || count == old(buffer)@.len(),
            final(buffer)@ == old(self)@.take(count as int) + old(buffer)@.skip(count as int),
            final(self)@ == old(self)@.skip(count as int),
            final(self).stored() == if final(self)@.len() == 0 {
                0
            } else {
                old(self).stored()
            },
    {
        proof {
            use_type_invariant(&*self);
        }
        let length: usize = self.bytes.len();
        let available: usize = length - self.taken;
        let count: usize = if available < buffer.len() {
            available
        } else {
            buffer.len()
        };
        let mut i: usize = 0;
        while i < count
            invariant
                i <= count,
                count <= old(buffer)@.len(),
                self.taken + count <= length,
                length == self.bytes@.len(),
                self.bytes@ == old(self).bytes@,
                self.taken == old(self).taken,
                buffer@ =~= self.bytes@.subrange(self.taken as int, self.taken + i)
                    + old(buffer)@.skip(i as int),
            decreases count - i,
        {
            buffer[i] = self.bytes[self.taken + i];
            i += 1;
        }
        assert(buffer@ =~= old(self)@.take(count as int) + old(buffer)@.skip(count as int));
        if count == available {
            let mut bytes: Vec<u8> = Vec::new();
            self.taken = 0;
            core::mem::swap(&mut self.bytes, &mut bytes);
            bytes.clear();
            self.bytes = bytes;
        } else {
            self.taken = self.taken + count;
        }
        assert(self@ =~= old(self)@.skip(count as int));
        count
    }
}

} // verus!
