//! A bus in memory, for trying programs out.
use crate::bus::{Bus, BusCall, BusError, BusEvent, BusKind, ReportArg};
use crate::le::copy_range;
use crate::wire;
use std::collections::HashMap;
use vstd::prelude::*;

verus! {

broadcast use vstd::std_specs::hash::group_hash_axioms;

/// An operation that the mock bus carried out.
#[derive(Debug, Clone, PartialEq, Eq)]
pub enum BusOp {
    Read { addr: u32, data: Vec<u8> },
    Write { addr: u32, data: Vec<u8> },
    Delay { us: u32 },
}

/// An operation of the mock bus as a mathematical value.
pub enum BusOpView {
    Read { addr: u32, data: Seq<u8> },
    Write { addr: u32, data: Seq<u8> },
    Delay { us: u32 },
}

impl BusOp {
    pub open spec fn view(self) -> BusOpView {
        match self {
            Self::Read { addr, data } => BusOpView::Read { addr, data: data@ },
            Self::Write { addr, data } => BusOpView::Write { addr, data: data@ },
            Self::Delay { us } => BusOpView::Delay { us },
        }
    }
}

/// What a list of operations stands for.
pub open spec fn ops_view(ops: Seq<BusOp>) -> Seq<BusOpView> {
    ops.map_values(|op: BusOp| op.view())
}

/// The byte at an address: zero where nothing was written.
pub open spec fn byte_at(memory: Map<u32, u8>, addr: int) -> u8 {
    if memory.contains_key(addr as u32) {
        memory[addr as u32]
    } else {
        0
    }
}

/// The `len` bytes from address `addr` on.
pub open spec fn bytes_at(memory: Map<u32, u8>, addr: u32, len: nat) -> Seq<u8> {
    Seq::new(len, |i: int| byte_at(memory, addr + i))
}

/// The memory after `data` was written from address `addr` on.
pub open spec fn stored(memory: Map<u32, u8>, addr: u32, data: Seq<u8>) -> Map<u32, u8>
    decreases data.len(),
{
    if data.len() == 0 {
        memory
    } else {
        stored(memory, addr, data.drop_last()).insert((addr + data.len() - 1) as u32, data.last())
    }
}

/// Bytes in memory, and the operations on them so far.
pub struct MockBus {
    memory: HashMap<u32, u8>,
    ops: Vec<BusOp>,
    calls: Ghost<Seq<BusEvent>>,
}

impl MockBus {
    /// What is in memory.
    pub closed spec fn contents(&self) -> Map<u32, u8> {
        self.memory@
    }

    /// The operations so far.
    pub closed spec fn done(&self) -> Seq<BusOpView> {
        ops_view(self.ops@)
    }

    /// A bus whose memory is empty.
    pub fn new() -> (bus: Self)
        ensures
            bus.contents() == Map::<u32, u8>::empty(),
            bus.done() == Seq::<BusOpView>::empty(),
            bus.history() == Seq::<BusEvent>::empty(),
    {
        let bus = MockBus {
            memory: HashMap::new(),
            ops: Vec::new(),
            calls: Ghost(Seq::empty()),
        };
        assert(ops_view(bus.ops@) =~= Seq::<BusOpView>::empty());
        bus
    }

    /// The operations so far.
    pub fn ops(&self) -> (ops: &[BusOp])
        ensures
            ops_view(ops@) == self.done(),
    {
        self.ops.as_slice()
    }

    /// What is in memory.
    pub fn memory(&self) -> (m: &HashMap<u32, u8>)
        ensures
            m@ == self.contents(),
    {
        &self.memory
    }

    fn note(&mut self, op: BusOp)
        ensures
            final(self).contents() == old(self).contents(),
            final(self).done() == old(self).done().push(op.view()),
            final(self).calls == old(self).calls,
    {
        let ghost before = self.ops@;
        self.ops.push(op);
        assert(ops_view(self.ops@) =~= ops_view(before).push(op.view()));
    }
}

impl Default for MockBus {
    fn default() -> (bus: Self)
        ensures
            bus.contents() == Map::<u32, u8>::empty(),
            bus.done() == Seq::<BusOpView>::empty(),
    {
        Self::new()
    }
}

/// What an operation that the mock bus notes does: a read gives the bytes in memory, a write stores
/// its bytes, and each is noted.
pub open spec fn mock_step(before: MockBus, op: BusOpView, after: MockBus) -> bool {
    &&& after.done() == before.done().push(op)
    &&& match op {
        BusOpView::Read { addr, data } => {
            &&& addr + data.len() <= 0x1_0000_0000
            &&& data == bytes_at(before.contents(), addr, data.len())
            &&& after.contents() == before.contents()
        },
        BusOpView::Write { addr, data } => {
            &&& addr + data.len() <= 0x1_0000_0000
            &&& after.contents() == stored(before.contents(), addr, data)
        },
        BusOpView::Delay { .. } => after.contents() == before.contents(),
    }
}

impl Bus for MockBus {
    closed spec fn history(&self) -> Seq<BusEvent> {
        self.calls@
    }

    open spec fn takes(&self, call: BusCall) -> bool {
        match call {
            BusCall::Read { addr, data } => addr + data.len() <= 0x1_0000_0000,
            BusCall::Write { addr, data } => addr + data.len() <= 0x1_0000_0000,
            _ => true,
        }
    }

    fn set_bus_kind(&mut self, kind: BusKind, arg: u32) -> (r: Result<(), BusError>)
        ensures
            r is Ok,
            final(self).contents() == old(self).contents(),
            final(self).done() == old(self).done(),
    {
        self.calls = Ghost(self.calls@.push((BusCall::Select { kind, arg }, Ok(()))));
        Ok(())
    }

    fn read(&mut self, addr: u32, data: &mut [u8]) -> (r: Result<(), BusError>)
        ensures
            r is Ok,
            final(data)@.len() == old(data)@.len(),
            mock_step(*old(self), BusOpView::Read { addr, data: final(data)@ }, *final(self)),
    {
        let n: usize = data.len();
        let mut i: usize = 0;
        while i < n
            invariant
                i <= n,
                n == data@.len() == old(data)@.len(),
                addr + n <= 0x1_0000_0000,
                self == old(self),
                forall|k: int| 0 <= k < i ==> data@[k] == byte_at(self.contents(), addr + k),
            decreases n - i,
        {
            let at: u32 = (addr as u64 + i as u64) as u32;
            data[i] = match self.memory.get(&at) {
                Some(b) => *b,
                None => 0,
            };
            i += 1;
        }
        assert(data@ =~= bytes_at(old(self).contents(), addr, n as nat));
        let kept = copy_range(data, 0, n);
        assert(kept@ =~= data@);
        self.note(BusOp::Read { addr, data: kept });
        self.calls = Ghost(self.calls@.push((BusCall::Read { addr, data: data@ }, Ok(()))));
        Ok(())
    }

    fn write(&mut self, addr: u32, data: &[u8]) -> (r: Result<(), BusError>)
        ensures
            r is Ok,
            mock_step(*old(self), BusOpView::Write { addr, data: data@ }, *final(self)),
    {
        let mut i: usize = 0;
        while i < data.len()
            invariant
                i <= data.len(),
                addr + data.len() <= 0x1_0000_0000,
                self.ops == old(self).ops,
                self.calls == old(self).calls,
                self.contents() == stored(old(self).contents(), addr, data@.take(i as int)),
            decreases data.len() - i,
        {
            let at: u32 = (addr as u64 + i as u64) as u32;
            self.memory.insert(at, data[i]);
            assert(data@.take(i + 1).drop_last() =~= data@.take(i as int));
            i += 1;
        }
        assert(data@.take(data@.len() as int) =~= data@);
        let kept = copy_range(data, 0, data.len());
        assert(kept@ =~= data@);
        self.note(BusOp::Write { addr, data: kept });
        self.calls = Ghost(self.calls@.push((BusCall::Write { addr, data: data@ }, Ok(()))));
        Ok(())
    }

    fn delay_us(&mut self, us: u32) -> (r: Result<(), BusError>)
        ensures
            r is Ok,
            mock_step(*old(self), BusOpView::Delay { us }, *final(self)),
    {
        self.note(BusOp::Delay { us });
        self.calls = Ghost(self.calls@.push((BusCall::Delay { us }, Ok(()))));
        Ok(())
    }

    fn log(&mut self, msg: &str) -> (r: Result<(), BusError>)
        ensures
            r is Ok,
            final(self).contents() == old(self).contents(),
            final(self).done() == old(self).done(),
    {
        self.calls = Ghost(self.calls@.push((BusCall::Log { msg: msg@ }, Ok(()))));
        Ok(())
    }

    fn wait_irq(&mut self, pin: u8, timeout_ms: u32) -> (r: Result<(), BusError>)
        ensures
            r is Ok,
            final(self).contents() == old(self).contents(),
            final(self).done() == old(self).done(),
    {
        self.calls = Ghost(self.calls@.push((BusCall::WaitIrq { pin, timeout_ms }, Ok(()))));
        Ok(())
    }

    fn report(&mut self, kind: u32, args: &[ReportArg<'_>]) -> (r: Result<(), BusError>)
        ensures
            r is Ok,
            final(self).contents() == old(self).contents(),
            final(self).done() == old(self).done(),
    {
        let ghost view = wire::args_view(args@);
        let ghost before = self.calls@;
        self.calls = Ghost(before.push((BusCall::Report { kind, args: view }, Ok(()))));
        Ok(())
    }
}

/// Reading gives back what was last written there.
pub proof fn law_read_after_write(memory: Map<u32, u8>, addr: u32, data: Seq<u8>)
    requires
        addr + data.len() <= 0x1_0000_0000,
    ensures
        bytes_at(stored(memory, addr, data), addr, data.len()) == data,
{
    lemma_stored(memory, addr, data);
    assert(bytes_at(stored(memory, addr, data), addr, data.len()) =~= data);
}

/// Writing changes nothing outside the bytes written.
pub proof fn law_write_leaves_the_rest(memory: Map<u32, u8>, addr: u32, data: Seq<u8>, at: u32)
    requires
        addr + data.len() <= 0x1_0000_0000,
        at < addr || at >= addr + data.len(),
    ensures
        byte_at(stored(memory, addr, data), at as int) == byte_at(memory, at as int),
{
    lemma_stored(memory, addr, data);
}

/// The byte that was last written at an address: zero where none was.
pub open spec fn last_written(ops: Seq<BusOpView>, at: int) -> u8
    decreases ops.len(),
{
    if ops.len() == 0 {
        0
    } else {
        match ops.last() {
            BusOpView::Write { addr, data } if addr <= at < addr + data.len() => data[at - addr],
            _ => last_written(ops.drop_last(), at),
        }
    }
}

/// Over any operations on a new bus, the bus lists them all in order, and each read gives at every
/// address the byte that was last written there, or zero. `states` are the states of the bus
/// before, between and after the operations.
pub proof fn law_reads_give_the_last_written(states: Seq<MockBus>, ops: Seq<BusOpView>)
    requires
        states.len() == ops.len() + 1,
        states[0].contents() == Map::<u32, u8>::empty(),
        states[0].done() == Seq::<BusOpView>::empty(),
        forall|i: int|
            0 <= i < ops.len() ==> mock_step(states[i], ops[i], #[trigger] states[i + 1]),
    ensures
        states.last().done() == ops,
        forall|a: u32|
            #[trigger] byte_at(states.last().contents(), a as int) == last_written(ops, a as int),
        forall|i: int, k: int|
            #![trigger ops[i]->Read_data[k]]
            0 <= i < ops.len() && ops[i] is Read && 0 <= k < ops[i]->Read_data.len()
                ==> ops[i]->Read_data[k] == last_written(ops.take(i), ops[i]->Read_addr + k),
    decreases ops.len(),
{
    if ops.len() == 0 {
        assert(ops =~= Seq::<BusOpView>::empty());
    } else {
        let n = ops.len() - 1;
        let less = states.drop_last();
        let fewer = ops.drop_last();
        assert forall|i: int| 0 <= i < n implies mock_step(
            less[i],
            fewer[i],
            #[trigger] less[i + 1],
        ) by {
            assert(mock_step(states[i], ops[i], states[i + 1]));
        }
        law_reads_give_the_last_written(less, fewer);
        assert(less.last() == states[n] && states.last() == states[n + 1]);
        assert(mock_step(states[n], ops[n], states[n + 1]));
        assert(states.last().done() =~= ops);
        assert(ops.take(n) =~= fewer);
        if let BusOpView::Write { addr, data } = ops[n] {
            lemma_stored(states[n].contents(), addr, data);
        }
        assert forall|i: int, k: int|
            #![trigger ops[i]->Read_data[k]]
            0 <= i < ops.len() && ops[i] is Read && 0 <= k
                < ops[i]->Read_data.len() implies ops[i]->Read_data[k] == last_written(
            ops.take(i),
            ops[i]->Read_addr + k,
        ) by {
            if i < n {
                assert(fewer[i] == ops[i]);
                assert(fewer.take(i) =~= ops.take(i));
                assert(fewer[i]->Read_data[k] == last_written(
                    fewer.take(i),
                    fewer[i]->Read_addr + k,
                ));
            } else {
                let a = (ops[n]->Read_addr + k) as u32;
                assert(byte_at(states[n].contents(), a as int) == last_written(fewer, a as int));
            }
        }
    }
}

proof fn lemma_stored(memory: Map<u32, u8>, addr: u32, data: Seq<u8>)
    requires
        addr + data.len() <= 0x1_0000_0000,
    ensures
        forall|a: u32|
            byte_at(#[trigger] stored(memory, addr, data), a as int) == if addr <= a < addr
                + data.len() {
                data[a - addr]
            } else {
                byte_at(memory, a as int)
            },
    decreases data.len(),
{
    if data.len() > 0 {
        lemma_stored(memory, addr, data.drop_last());
        let less = stored(memory, addr, data.drop_last());
        let last = (addr + data.len() - 1) as u32;
        assert forall|a: u32|
            byte_at(#[trigger] stored(memory, addr, data), a as int) == if addr <= a < addr
                + data.len() {
                data[a - addr]
            } else {
                byte_at(memory, a as int)
            } by {
            assert(byte_at(less, a as int) == if addr <= a < last {
                data[a - addr]
            } else {
                byte_at(memory, a as int)
            });
        }
    }
}

} // verus!
