//! The byte source that lines are read from: a buffered stream that shows its
//! buffered bytes, refilling the buffer when it is empty, and is told how many
//! of them were used.
use vstd::prelude::*;

verus! {

/// Why a fill failed.
pub enum FillError<E> {
    /// The fetch was interrupted and may be retried at once.
    Interrupted,
    /// The fetch failed for good.
    Failed(E),
}

/// A buffered byte stream.
///
/// The spec functions model the stream. Their default bodies serve only
/// implementations written outside verified code, which Verus does not hold to
/// these contracts: for such a source the model is a constant (an empty
/// stream, an empty buffer, fills that may fail, no claim on one-byte windows)
/// and says nothing of the real stream. A verified implementation gives its
/// own model.
pub trait ByteSource {
    /// The error that a failed fetch reports.
    type Error;

    /// Every byte not yet consumed, whether already fetched or not.
    open spec fn rest(&self) -> Seq<u8> {
        Seq::empty()
    }

    /// The bytes that the buffer holds now: a prefix of `rest`.
    open spec fn buffered(&self) -> Seq<u8> {
        Seq::empty()
    }

    /// Whenever a fill shows a single byte, that byte is the last of the stream.
    open spec fn lone_byte_is_last(&self) -> bool {
        false
    }

    /// No fill ever fails.
    open spec fn never_fails(&self) -> bool {
        false
    }

    /// How many fills in a row may still come back interrupted.
    open spec fn interrupt_fuel(&self) -> nat {
        0
    }

    /// Shows the buffered bytes, refilling the buffer first if it is empty.
    /// An empty window means the stream has ended.
    fn fill_buf(&mut self) -> (r: Result<&[u8], FillError<Self::Error>>)
        ensures
            final(self).lone_byte_is_last() == old(self).lone_byte_is_last(),
            final(self).never_fails() == old(self).never_fails(),
            old(self).never_fails() ==> r is Ok,
            r matches Ok(w) ==> {
                &&& final(self).rest() == old(self).rest()
                &&& w@ == final(self).buffered()
                &&& w@.len() <= final(self).rest().len()
                &&& w@ == final(self).rest().take(w@.len() as int)
                &&& (w@.len() == 0 <==> final(self).rest().len() == 0)
                &&& (final(self).lone_byte_is_last() && w@.len() == 1
                    ==> final(self).rest().len() == 1)
            },
            r matches Err(FillError::Interrupted) ==> {
                &&& final(self).rest() == old(self).rest()
                &&& final(self).interrupt_fuel() < old(self).interrupt_fuel()
            },
    ;

    /// Marks the first `amt` buffered bytes as used.
    fn consume(&mut self, amt: usize)
        requires
            amt <= old(self).buffered().len(),
        ensures
            final(self).rest() == old(self).rest().skip(amt as int),
            final(self).buffered() == old(self).buffered().skip(amt as int),
            final(self).lone_byte_is_last() == old(self).lone_byte_is_last(),
            final(self).never_fails() == old(self).never_fails(),
    ;
}

/// A byte source over bytes held in memory, whose buffer shows at most
/// `capacity` bytes at a time.
pub struct MemSource {
    data: Vec<u8>,
    pos: usize,
    end: usize,
    capacity: usize,
}

impl MemSource {
    #[verifier::type_invariant]
    spec fn inv(&self) -> bool {
        &&& self.pos <= self.end <= self.data@.len()
        &&& self.capacity >= 1
        &&& self.capacity >= self.data@.len() ==> (self.end == self.pos || self.end
            == self.data@.len())
    }

    /// The bytes that the source was made with.
    pub closed spec fn data(&self) -> Seq<u8> {
        self.data@
    }

    /// A source that shows all of its remaining bytes at each fill.
    pub fn new(data: Vec<u8>) -> (r: Self)
        ensures
            r.rest() == data@,
            r.buffered().len() == 0,
            r.lone_byte_is_last(),
            r.never_fails(),
    {
        let capacity: usize = if data.len() == 0 {
            1
        } else {
            data.len()
        };
        MemSource { data, pos: 0, end: 0, capacity }
    }

    /// A source that shows at most `capacity` bytes at each fill.
    pub fn with_capacity(capacity: usize, data: Vec<u8>) -> (r: Self)
        requires
            capacity >= 1,
        ensures
            r.rest() == data@,
            r.buffered().len() == 0,
            r.lone_byte_is_last() <==> capacity >= data@.len(),
            r.never_fails(),
    {
        MemSource { data, pos: 0, end: 0, capacity }
    }

    /// The number of bytes consumed so far.
    pub fn position(&self) -> (r: usize)
        ensures
            r + self.rest().len() == self.data().len(),
    {
        proof {
            use_type_invariant(self);
        }
        self.pos
    }
}

impl ByteSource for MemSource {
    type Error = ();

    closed spec fn rest(&self) -> Seq<u8> {
        self.data@.subrange(self.pos as int, self.data@.len() as int)
    }

    closed spec fn buffered(&self) -> Seq<u8> {
        self.data@.subrange(self.pos as int, self.end as int)
    }

    closed spec fn lone_byte_is_last(&self) -> bool {
        self.capacity >= self.data@.len()
    }

    closed spec fn never_fails(&self) -> bool {
        true
    }

    closed spec fn interrupt_fuel(&self) -> nat {
        0
    }

    fn fill_buf(&mut self) -> (r: Result<&[u8], FillError<()>>) {
        proof {
            use_type_invariant(&*self);
        }
        if self.pos == self.end {
            let left = self.data.len() - self.pos;
            self.end = if left < self.capacity {
                self.data.len()
            } else {
                self.pos + self.capacity
            };
        }
        let w = vstd::slice::slice_subrange(self.data.as_slice(), self.pos, self.end);
        proof {
            assert(self.rest().take(w@.len() as int) =~= w@);
        }
        Ok(w)
    }

    fn consume(&mut self, amt: usize) {
        proof {
            use_type_invariant(&*self);
        }
        self.pos = self.pos + amt;
        proof {
            assert(self.rest() =~= old(self).rest().skip(amt as int));
            assert(self.buffered() =~= old(self).buffered().skip(amt as int));
        }
    }
}

} // verus!
