//! The byte streams of a bot: the source its commands are read from and the
//! sink its notifications are written to.

use std::collections::VecDeque;
use vstd::prelude::*;

verus! {

/// A source of bytes that hands them out one at a time, in the order in which
/// they arrived. Its view is what has arrived and has not been read yet.
pub struct Input {
    pub bytes: VecDeque<u8>,
}

impl View for Input {
    type V = Seq<u8>;

    open spec fn view(&self) -> Seq<u8> {
        self.bytes@
    }
}

impl Input {
    /// A source that will hand out the given bytes.
    pub fn new(bytes: Vec<u8>) -> (r: Input)
        ensures
            r@ == bytes@,
    {
        let mut queue: VecDeque<u8> = VecDeque::new();
        let mut i: usize = 0;
        while i < bytes.len()
            invariant
                i <= bytes@.len(),
                queue@ == bytes@.take(i as int),
            decreases bytes@.len() - i,
        {
            queue.push_back(bytes[i]);
            i = i + 1;
            assert(queue@ =~= bytes@.take(i as int));
        }
        assert(bytes@.take(i as int) =~= bytes@);
        Input { bytes: queue }
    }

    /// The number of bytes that have arrived and have not been read.
    pub fn pending(&self) -> (r: usize)
        ensures
            r == self@.len(),
    {
        self.bytes.len()
    }

    /// Reads one byte, or nothing where the source has run dry.
    pub fn read(&mut self) -> (r: Option<u8>)
        ensures
            old(self)@.len() == 0 ==> r is None && final(self)@ == old(self)@,
            old(self)@.len() > 0 ==> r == Some(old(self)@[0]) && final(self)@ == old(self)@.skip(1),
    {
        let r = self.bytes.pop_front();
        proof {
            if old(self)@.len() > 0 {
                assert(self@ =~= old(self)@.skip(1));
            } else {
                assert(self@ =~= old(self)@);
            }
        }
        r
    }

    /// Makes one more byte arrive behind those that are pending.
    pub fn feed(&mut self, byte: u8)
        ensures
            final(self)@ == old(self)@.push(byte),
    {
        self.bytes.push_back(byte);
    }
}

/// What a sink shows of itself: the bytes written to it, whether it has been
/// closed and refuses further writes, and the number by which whoever drains
/// the sink knows the connection that the bytes are for.
pub ghost struct Sink {
    pub written: Seq<u8>,
    pub closed: bool,
    pub peer: u64,
}

impl Sink {
    /// The sink after a write that it accepted.
    pub open spec fn wrote(self, bytes: Seq<u8>) -> Sink {
        Sink { written: self.written + bytes, closed: self.closed, peer: self.peer }
    }
}

/// The reason a write to a sink failed.
#[derive(Copy, Clone, PartialEq, Eq, Structural, Debug)]
pub enum WriteError {
    /// The sink is closed.
    Closed,
}

/// A sink of bytes. It keeps what is written to it until it is closed; from
/// then on every write fails.
pub struct Output {
    pub bytes: Vec<u8>,
    pub closed: bool,
    pub peer: u64,
}

impl View for Output {
    type V = Sink;

    open spec fn view(&self) -> Sink {
        Sink { written: self.bytes@, closed: self.closed, peer: self.peer }
    }
}

impl Output {
    /// An open sink to which nothing has been written, for the connection
    /// numbered 0.
    pub fn new() -> (r: Output)
        ensures
            r@ == (Sink { written: Seq::<u8>::empty(), closed: false, peer: 0 }),
    {
        Output { bytes: Vec::new(), closed: false, peer: 0 }
    }

    /// An open sink to which nothing has been written, for the connection
    /// with the given number.
    pub fn to_peer(peer: u64) -> (r: Output)
        ensures
            r@ == (Sink { written: Seq::<u8>::empty(), closed: false, peer: peer }),
    {
        Output { bytes: Vec::new(), closed: false, peer: peer }
    }

    /// Closes the sink. What was written stays.
    pub fn close(&mut self)
        ensures
            final(self)@ == (Sink {
                written: old(self)@.written,
                closed: true,
                peer: old(self)@.peer,
            }),
    {
        self.closed = true;
    }

    /// Writes all the bytes, in order, or none of them where the sink is
    /// closed.
    pub fn write_all(&mut self, data: &Vec<u8>) -> (r: Result<(), WriteError>)
        ensures
            old(self)@.closed ==> r == Err::<(), WriteError>(WriteError::Closed) && final(self)@
                == old(self)@,
            !old(self)@.closed ==> r is Ok && final(self)@ == old(self)@.wrote(data@),
    {
        if self.closed {
            return Err(WriteError::Closed);
        }
        let mut i: usize = 0;
        while i < data.len()
            invariant
                i <= data@.len(),
                self.closed == old(self).closed,
                self.peer == old(self).peer,
                self.bytes@ == old(self).bytes@ + data@.take(i as int),
            decreases data@.len() - i,
        {
            self.bytes.push(data[i]);
            i = i + 1;
            assert(self.bytes@ =~= old(self).bytes@ + data@.take(i as int));
        }
        assert(data@.take(i as int) =~= data@);
        Ok(())
    }

    /// Hands over what was written and forgets it.
    pub fn take(&mut self) -> (r: Vec<u8>)
        ensures
            r@ == old(self)@.written,
            final(self)@ == (Sink {
                written: Seq::<u8>::empty(),
                closed: old(self)@.closed,
                peer: old(self)@.peer,
            }),
    {
        let mut taken: Vec<u8> = Vec::new();
        core::mem::swap(&mut self.bytes, &mut taken);
        taken
    }
}

} // verus!
