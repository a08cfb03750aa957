//! Byte streams between host and device.
use crate::bus;
use crate::error::LinkError;
use std::collections::VecDeque;
use vstd::prelude::*;

verus! {

/// The bytes of writes, one after the other.
pub open spec fn joined(writes: Seq<Seq<u8>>) -> Seq<u8>
    decreases writes.len(),
{
    if writes.len() == 0 {
        Seq::empty()
    } else {
        joined(writes.drop_last()) + writes.last()
    }
}

/// A byte stream in both directions.
pub trait Transport: Sized {
    /// What was handed over for sending so far, write by write.
    open spec fn handed(&self) -> Seq<Seq<u8>> {
        bus::going_with(*self)
    }

    /// Reads what has come into `buf` and returns how much it was. Nothing to
    /// read yet is no error.
    fn read(&mut self, buf: &mut [u8]) -> (r: Result<usize, LinkError>)
        ensures
            (*final(self)).handed() == (*old(self)).handed(),
            final(buf)@.len() == old(buf)@.len(),
            r matches Ok(n) ==> n <= old(buf)@.len(),
    ;

    /// Sends `data`.
    fn write(&mut self, data: &[u8]) -> (r: Result<(), LinkError>)
        ensures
            (*final(self)).handed() == (*old(self)).handed().push(data@),
    ;
}

/// A stream that is lent is a stream.
impl<T: Transport> Transport for &mut T {
    open spec fn handed(&self) -> Seq<Seq<u8>> {
        (**self).handed()
    }

    fn read(&mut self, buf: &mut [u8]) -> (r: Result<usize, LinkError>) {
        (**self).read(buf)
    }

    fn write(&mut self, data: &[u8]) -> (r: Result<(), LinkError>) {
        (**self).write(data)
    }
}

/// One direction of an in-process byte pipe: what is written is read again, in
/// order.
pub struct ByteQueue {
    bytes: VecDeque<u8>,
    written: Ghost<Seq<Seq<u8>>>,
}

impl View for ByteQueue {
    type V = Seq<u8>;

    closed spec fn view(&self) -> Seq<u8> {
        self.bytes@
    }
}

impl ByteQueue {
    /// An empty queue.
    pub fn new() -> (q: Self)
        ensures
            q@ == Seq::<u8>::empty(),
            q.handed() == Seq::<Seq<u8>>::empty(),
    {
        ByteQueue { bytes: VecDeque::new(), written: Ghost(Seq::empty()) }
    }
}

impl Transport for ByteQueue {
    closed spec fn handed(&self) -> Seq<Seq<u8>> {
        self.written@
    }

    fn read(&mut self, buf: &mut [u8]) -> (r: Result<usize, LinkError>)
        ensures
            r matches Ok(n) && n == (if old(self)@.len() <= old(buf)@.len() {
                old(self)@.len() as int
            } else {
                old(buf)@.len() as int
            }) && final(self)@ == old(self)@.skip(n as int) && final(buf)@ == old(self)@.take(
                n as int,
            ) + old(buf)@.skip(n as int),
    {
        let n: usize = if self.bytes.len() <= buf.len() {
            self.bytes.len()
        } else {
            buf.len()
        };
        let mut i: usize = 0;
        while i < n
            invariant
                i <= n <= old(self)@.len(),
                n <= old(buf)@.len(),
                buf@.len() == old(buf)@.len(),
                self.written@ == old(self).written@,
                self.bytes@ == old(self)@.skip(i as int),
                buf@ == old(self)@.take(i as int) + old(buf)@.skip(i as int),
            decreases n - i,
        {
            match self.bytes.pop_front() {
                Some(b) => {
                    buf[i] = b;
                },
                None => {
                    assert(false);
                },
            }
            i += 1;
            assert(self.bytes@ =~= old(self)@.skip(i as int));
            assert(buf@ =~= old(self)@.take(i as int) + old(buf)@.skip(i as int));
        }
        Ok(n)
    }

    fn write(&mut self, data: &[u8]) -> (r: Result<(), LinkError>)
        ensures
            r is Ok,
            final(self)@ == old(self)@ + data@,
    {
        let mut i: usize = 0;
        while i < data.len()
            invariant
                i <= data.len(),
                self.written@ == old(self).written@,
                self.bytes@ == old(self)@ + data@.take(i as int),
            decreases data.len() - i,
        {
            self.bytes.push_back(data[i]);
            i += 1;
            assert(self.bytes@ =~= old(self)@ + data@.take(i as int));
        }
        assert(data@.take(data@.len() as int) =~= data@);
        self.written = Ghost(self.written@.push(data@));
        Ok(())
    }
}

/// The two ends of an in-process pipe in both directions.
pub struct Pipe {
    pub a_to_b: ByteQueue,
    pub b_to_a: ByteQueue,
}

/// One end of a pipe.
#[derive(Debug, Clone, Copy, PartialEq, Eq, Structural)]
pub enum End {
    A,
    B,
}

impl Pipe {
    /// What waits to be read at an end.
    pub open spec fn waiting(&self, end: End) -> Seq<u8> {
        match end {
            End::A => self.b_to_a@,
            End::B => self.a_to_b@,
        }
    }

    /// A pipe in which nothing waits.
    pub fn pair() -> (p: Self)
        ensures
            p.waiting(End::A) == Seq::<u8>::empty(),
            p.waiting(End::B) == Seq::<u8>::empty(),
    {
        Pipe { a_to_b: ByteQueue::new(), b_to_a: ByteQueue::new() }
    }

    /// Reads at an end what was written at the other, as much as `buf` holds.
    pub fn read(&mut self, end: End, buf: &mut [u8]) -> (n: usize)
        ensures
            pipe_step(
                *old(self),
                PipeOp::Read { end, room: old(buf)@.len(), got: final(buf)@.take(n as int) },
                *final(self),
            ),
            n <= old(buf)@.len(),
            final(buf)@.len() == old(buf)@.len(),
            final(buf)@.skip(n as int) == old(buf)@.skip(n as int),
    {
        let r = match end {
            End::A => self.b_to_a.read(buf),
            End::B => self.a_to_b.read(buf),
        };
        match r {
            Ok(n) => {
                assert(buf@.take(n as int) =~= old(self).waiting(end).take(n as int));
                assert(buf@.skip(n as int) =~= old(buf)@.skip(n as int));
                n
            },
            Err(_) => 0,
        }
    }

    /// Writes at an end.
    pub fn write(&mut self, end: End, data: &[u8])
        ensures
            pipe_step(*old(self), PipeOp::Write { end, data: data@ }, *final(self)),
    {
        let _ = match end {
            End::A => self.a_to_b.write(data),
            End::B => self.b_to_a.write(data),
        };
    }
}

/// A use of a pipe, with what came of it.
pub enum PipeOp {
    /// A read at an end into a buffer of `room` bytes.
    Read { end: End, room: nat, got: Seq<u8> },
    /// A write at an end.
    Write { end: End, data: Seq<u8> },
}

/// The other end.
pub open spec fn other(end: End) -> End {
    match end {
        End::A => End::B,
        End::B => End::A,
    }
}

/// What a use of a pipe does.
pub open spec fn pipe_step(before: Pipe, op: PipeOp, after: Pipe) -> bool {
    match op {
        PipeOp::Read { end, room, got } => {
            let w = before.waiting(end);
            let n = if w.len() <= room {
                w.len() as int
            } else {
                room as int
            };
            &&& got == w.take(n)
            &&& after.waiting(end) == w.skip(n)
            &&& after.waiting(other(end)) == before.waiting(other(end))
        },
        PipeOp::Write { end, data } => {
            &&& after.waiting(other(end)) == before.waiting(other(end)) + data
            &&& after.waiting(end) == before.waiting(end)
        },
    }
}

/// What was read at an end.
pub open spec fn read_at(ops: Seq<PipeOp>, end: End) -> Seq<u8>
    decreases ops.len(),
{
    if ops.len() == 0 {
        Seq::empty()
    } else {
        let before = read_at(ops.drop_last(), end);
        match ops.last() {
            PipeOp::Read { end: e, got, .. } => if e == end {
                before + got
            } else {
                before
            },
            PipeOp::Write { .. } => before,
        }
    }
}

/// What was written at an end.
pub open spec fn written_at(ops: Seq<PipeOp>, end: End) -> Seq<u8>
    decreases ops.len(),
{
    if ops.len() == 0 {
        Seq::empty()
    } else {
        let before = written_at(ops.drop_last(), end);
        match ops.last() {
            PipeOp::Write { end: e, data } => if e == end {
                before + data
            } else {
                before
            },
            PipeOp::Read { .. } => before,
        }
    }
}

/// Over any uses of a new pipe, what was read at an end and what still waits there are together
/// what was written at the other end, in order. So no end reads its own writes, and nothing is
/// lost. `states` are the states of the pipe before, between and after the uses.
pub proof fn law_pipe_gives_what_was_written(states: Seq<Pipe>, ops: Seq<PipeOp>, end: End)
    requires
        states.len() == ops.len() + 1,
        states[0].waiting(end).len() == 0,
        forall|i: int|
            0 <= i < ops.len() ==> pipe_step(states[i], ops[i], #[trigger] states[i + 1]),
    ensures
        read_at(ops, end) + states.last().waiting(end) == written_at(ops, other(end)),
        read_at(ops, end) == written_at(ops, other(end)).take(read_at(ops, end).len() as int),
    decreases ops.len(),
{
    if ops.len() == 0 {
        assert(read_at(ops, end) + states.last().waiting(end) =~= written_at(ops, other(end)));
    } else {
        let n = ops.len() - 1;
        let less = states.drop_last();
        assert forall|i: int| 0 <= i < n implies pipe_step(
            less[i],
            ops.drop_last()[i],
            #[trigger] less[i + 1],
        ) by {
            assert(pipe_step(states[i], ops[i], states[i + 1]));
        }
        law_pipe_gives_what_was_written(less, ops.drop_last(), end);
        assert(less.last() == states[n] && states.last() == states[n + 1]);
        assert(pipe_step(states[n], ops[n], states[n + 1]));
        let was = states[n].waiting(end);
        let read = read_at(ops.drop_last(), end);
        match ops[n] {
            PipeOp::Read { end: e, got, .. } => {
                if e == end {
                    assert(read + got + states[n + 1].waiting(end) =~= read + was);
                }
            },
            PipeOp::Write { end: e, data } => {
                if e != end {
                    assert(read + (was + data) =~= read + was + data);
                }
            },
        }
    }
    let all = written_at(ops, other(end));
    let read = read_at(ops, end);
    assert((read + states.last().waiting(end)).take(read.len() as int) =~= read);
}

} // verus!
