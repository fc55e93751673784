//! The memory of a machine: one byte buffer, a stack in its lower part and
//! a heap with a list of free blocks in its upper part.

use crate::atom::{atom_bytes, atom_of, lemma_atom_round_trip, raw_from_bytes, raw_to_bytes, Atom};
use crate::error::{ErrorKind, SimpleError, SimpleResult};
use crate::freelist::{
    apart, coalesce_blocks, coalesced, compact, contained, covers, end_of, first_fit, in_block,
    is_first_fit, lemma_defragment_within, lemma_first_fit_unique, lemma_no_fit, lemma_release_into_compact, lemma_take_from_compact, no_fit,
    sort_blocks, sorted_by_offset, taken_from, total_size, within,
};
use vstd::prelude::*;
use vstd::slice::{slice_subrange, slice_to_vec};

verus! {

/// A range of bytes in the memory: its first address and its length.
#[derive(Debug, Clone, Copy, PartialEq, Eq, Structural, Default)]
pub struct Value {
    pub address: usize,
    pub size: usize,
}

impl Value {
    pub fn new(address: usize, size: usize) -> (v: Self)
        ensures
            v.address == address,
            v.size == size,
    {
        Value { address, size }
    }
}

/// The order in which the host lays out the bytes of a number.
#[derive(Debug, Clone, Copy, PartialEq, Eq, Structural)]
pub enum Endianness {
    Little,
    Big,
}

/// `u16::to_ne_bytes` of the number one: the low byte stands first on a
/// little-endian host and last on a big-endian one. Nothing is claimed
/// of the result.
#[verifier::external_body]
fn native_bytes_of_one() -> (r: [u8; 2]) {
    1u16.to_ne_bytes()
}

impl Endianness {
    /// The order of the host that runs this code.
    pub fn native() -> (r: Self) {
        let probe = native_bytes_of_one();
        if probe[0] == 1 {
            Endianness::Little
        } else {
            Endianness::Big
        }
    }
}

/// `mem` with the bytes from `at` on replaced by `data`.
pub open spec fn write_at(mem: Seq<u8>, at: int, data: Seq<u8>) -> Seq<u8> {
    Seq::new(
        mem.len(),
        |k: int|
            if at <= k < at + data.len() {
                data[k - at]
            } else {
                mem[k]
            },
    )
}

/// `n` zero bytes.
pub open spec fn zeros(n: nat) -> Seq<u8> {
    Seq::new(n, |k: int| 0u8)
}

/// The model of a `State`.
pub struct StateModel {
    /// The stack, then the heap.
    pub bytes: Seq<u8>,
    pub stack_size: usize,
    pub memory_size: usize,
    /// The number of bytes on the stack.
    pub stack_pos: usize,
    /// The free blocks of the heap: offset in the heap and length.
    pub free: Seq<(usize, usize)>,
    pub order: Endianness,
}

impl StateModel {
    /// The number of bytes of the memory.
    pub open spec fn all_size(self) -> int {
        self.stack_size + self.memory_size
    }

    /// True when `size` bytes from `address` on lie inside the memory.
    pub open spec fn in_bounds(self, address: int, size: int) -> bool {
        0 <= address && 0 <= size && address + size <= self.all_size()
    }

    /// What holds of every state: the buffer has the stack's and the
    /// heap's bytes, the stack's top lies inside the stack, and every
    /// free block lies inside the heap.
    pub open spec fn wf(self) -> bool {
        &&& self.bytes.len() == self.all_size()
        &&& self.all_size() <= usize::MAX
        &&& self.stack_pos <= self.stack_size
        &&& forall|i: int|
            0 <= i < self.free.len() ==> (#[trigger] self.free[i]).0 + self.free[i].1
                <= self.memory_size
    }

    /// The state after `data` was written at `address`.
    pub open spec fn written(self, address: int, data: Seq<u8>) -> StateModel {
        StateModel { bytes: write_at(self.bytes, address, data), ..self }
    }

    /// The state with the stack's top at `pos`.
    pub open spec fn with_stack_pos(self, pos: usize) -> StateModel {
        StateModel { stack_pos: pos, ..self }
    }

    /// The state after `data` was pushed on the stack.
    pub open spec fn pushed(self, data: Seq<u8>) -> StateModel {
        StateModel {
            bytes: write_at(self.bytes, self.stack_pos as int, data),
            stack_pos: (self.stack_pos + data.len()) as usize,
            ..self
        }
    }

    /// The `size` bytes from `address` on.
    pub open spec fn window(self, address: int, size: int) -> Seq<u8> {
        self.bytes.subrange(address, address + size)
    }

    /// The state with `free` as the list of free blocks.
    pub open spec fn with_free(self, free: Seq<(usize, usize)>) -> StateModel {
        StateModel { free, ..self }
    }

    /// The state after `size` bytes were taken from the heap, and their
    /// place; nothing where no free block holds as many.
    pub open spec fn allocated(self, size: usize) -> Option<(StateModel, Value)> {
        match first_fit(self.free, size) {
            Some(i) => Some(
                (
                    self.with_free(taken_from(self.free, i, size)),
                    Value { address: (self.free[i].0 + self.stack_size) as usize, size },
                ),
            ),
            None => None,
        }
    }

    /// The state after `size` zero bytes were pushed on the stack.
    pub open spec fn reserved(self, size: usize) -> StateModel {
        self.pushed(zeros(size as nat))
    }

    /// True when the range `value` lies inside the heap.
    pub open spec fn in_heap(self, value: Value) -> bool {
        self.stack_size <= value.address && value.address + value.size <= self.all_size()
    }

    /// The number of non-zero bytes that stand at `source` before the
    /// first zero byte or the end of the memory.
    pub open spec fn text_length(self, source: int, n: int) -> bool {
        &&& 0 <= n
        &&& source + n <= self.bytes.len()
        &&& forall|k: int| source <= k < source + n ==> self.bytes[k] != 0
        &&& source + n < self.bytes.len() ==> self.bytes[source + n] == 0
    }
}

/// A byte-addressed memory. The stack is the part `[0, stack_size)`, the
/// heap the part `[stack_size, stack_size + memory_size)`.
#[derive(Debug, Clone)]
pub struct State {
    bytes: Vec<u8>,
    memory_size: usize,
    stack_size: usize,
    memory_free: Vec<(usize, usize)>,
    stack_pos: usize,
    order: Endianness,
}

impl View for State {
    type V = StateModel;

    closed spec fn view(&self) -> StateModel {
        StateModel {
            bytes: self.bytes@,
            stack_size: self.stack_size,
            memory_size: self.memory_size,
            stack_pos: self.stack_pos,
            free: self.memory_free@,
            order: self.order,
        }
    }
}

fn fail<T>(kind: ErrorKind, message: &str) -> (r: SimpleResult<T>)
    ensures
        r matches Err(e) && e.kind == kind,
{
    Err(SimpleError::of(kind, message))
}

impl State {
    /// What holds of every state that this module hands out.
    pub open spec fn wf(&self) -> bool {
        self@.wf()
    }

    /// A memory of zero bytes, with an empty stack and the whole heap as
    /// one free block.
    pub fn new(stack_size: usize, memory_size: usize) -> (s: Self)
        requires
            stack_size + memory_size <= usize::MAX,
        ensures
            s.wf(),
            s@.bytes == zeros((stack_size + memory_size) as nat),
            s@.stack_size == stack_size,
            s@.memory_size == memory_size,
            s@.stack_pos == 0,
            s@.free == seq![(0usize, memory_size)],
    {
        let bytes = vec![0u8; stack_size + memory_size];
        let mut memory_free: Vec<(usize, usize)> = Vec::new();
        memory_free.push((0, memory_size));
        let s = State {
            bytes,
            stack_size,
            memory_size,
            stack_pos: 0,
            memory_free,
            order: Endianness::native(),
        };
        assert(s@.bytes =~= zeros((stack_size + memory_size) as nat));
        assert(s@.free =~= seq![(0usize, memory_size)]);
        s
    }

    pub fn stack_size(&self) -> (r: usize)
        ensures
            r == self@.stack_size,
    {
        self.stack_size
    }

    pub fn memory_size(&self) -> (r: usize)
        ensures
            r == self@.memory_size,
    {
        self.memory_size
    }

    /// The number of bytes of the memory.
    pub fn all_size(&self) -> (r: usize)
        requires
            self.wf(),
        ensures
            r == self@.all_size(),
    {
        self.stack_size + self.memory_size
    }

    /// The number of bytes on the stack.
    pub fn stack_pos(&self) -> (r: usize)
        ensures
            r == self@.stack_pos,
    {
        self.stack_pos
    }

    /// The number of bytes that the stack can still take.
    pub fn stack_free(&self) -> (r: usize)
        requires
            self.wf(),
        ensures
            r == self@.stack_size - self@.stack_pos,
    {
        self.stack_size - self.stack_pos
    }

    /// The order in which numbers are laid out in this memory.
    pub fn byte_order(&self) -> (r: Endianness)
        ensures
            r == self@.order,
    {
        self.order
    }

    /// True when `size` bytes from `address` on lie inside the memory.
    fn holds(&self, address: usize, size: usize) -> (r: bool)
        requires
            self.wf(),
        ensures
            r == self@.in_bounds(address as int, size as int),
    {
        let all = self.stack_size + self.memory_size;
        size <= all && address <= all - size
    }

    /// Writes `data` at `address`, which must hold it.
    fn put(&mut self, address: usize, data: &[u8])
        requires
            old(self).wf(),
            old(self)@.in_bounds(address as int, data@.len() as int),
        ensures
            final(self)@ == old(self)@.written(address as int, data@),
            final(self).wf(),
    {
        let n = data.len();
        let mut i: usize = 0;
        assert(self.bytes@ =~= write_at(old(self).bytes@, address as int, data@.take(0)));
        while i < n
            invariant
                i <= n,
                n == data@.len(),
                address + n <= self.bytes@.len() <= usize::MAX,
                self.bytes@.len() == old(self).bytes@.len(),
                self.bytes@ == write_at(old(self).bytes@, address as int, data@.take(i as int)),
                self.stack_size == old(self).stack_size,
                self.memory_size == old(self).memory_size,
                self.stack_pos == old(self).stack_pos,
                self.memory_free == old(self).memory_free,
                self.order == old(self).order,
            decreases n - i,
        {
            self.bytes[address + i] = data[i];
            assert(self.bytes@ =~= write_at(
                old(self).bytes@,
                address as int,
                data@.take(i + 1),
            ));
            i = i + 1;
        }
        assert(data@.take(n as int) =~= data@);
    }

    /// Writes `n` zero bytes at `address`, which must hold them.
    fn clear(&mut self, address: usize, n: usize)
        requires
            old(self).wf(),
            old(self)@.in_bounds(address as int, n as int),
        ensures
            final(self)@ == old(self)@.written(address as int, zeros(n as nat)),
            final(self).wf(),
    {
        let mut i: usize = 0;
        assert(self.bytes@ =~= write_at(old(self).bytes@, address as int, zeros(0)));
        while i < n
            invariant
                i <= n,
                address + n <= self.bytes@.len() <= usize::MAX,
                self.bytes@.len() == old(self).bytes@.len(),
                self.bytes@ == write_at(old(self).bytes@, address as int, zeros(i as nat)),
                self.stack_size == old(self).stack_size,
                self.memory_size == old(self).memory_size,
                self.stack_pos == old(self).stack_pos,
                self.memory_free == old(self).memory_free,
                self.order == old(self).order,
            decreases n - i,
        {
            self.bytes[address + i] = 0;
            assert(self.bytes@ =~= write_at(
                old(self).bytes@,
                address as int,
                zeros((i + 1) as nat),
            ));
            i = i + 1;
        }
    }

    /// Pushes the bytes `source` on the stack and gives their place.
    /// Fails with `StackOverflow`, and changes nothing, where the stack
    /// has no room for them.
    pub fn stack_push_bytes(&mut self, source: &[u8]) -> (r: SimpleResult<Value>)
        requires
            old(self).wf(),
        ensures
            final(self).wf(),
            match r {
                Ok(v) => {
                    &&& old(self)@.stack_pos + source@.len() <= old(self)@.stack_size
                    &&& v == (Value { address: old(self)@.stack_pos, size: source@.len() as usize })
                    &&& final(self)@ == old(self)@.pushed(source@)
                },
                Err(e) => {
                    &&& old(self)@.stack_pos + source@.len() > old(self)@.stack_size
                    &&& e.kind == ErrorKind::StackOverflow
                    &&& final(self)@ == old(self)@
                },
            },
    {
        let n = source.len();
        if n > self.stack_size - self.stack_pos {
            fail(ErrorKind::StackOverflow, "stack overflow while pushing bytes")
        } else {
            let address = self.stack_pos;
            self.put(address, source);
            self.stack_pos = address + n;
            Ok(Value { address, size: n })
        }
    }

    /// Pushes `size` bytes that stand at `source`. Fails with
    /// `OutOfBounds` where they do not lie inside the memory, else with
    /// `StackOverflow` where the stack has no room, else with
    /// `OverlappingMove` where they share a byte with the place they
    /// would be pushed to.
    pub fn stack_push_move(&mut self, source: usize, size: usize) -> (r: SimpleResult<Value>)
        requires
            old(self).wf(),
        ensures
            final(self).wf(),
            match r {
                Ok(v) => {
                    &&& old(self)@.in_bounds(source as int, size as int)
                    &&& old(self)@.stack_pos + size <= old(self)@.stack_size
                    &&& !(source + size > old(self)@.stack_pos && source < old(self)@.stack_pos
                        + size)
                    &&& v == (Value { address: old(self)@.stack_pos, size })
                    &&& final(self)@ == old(self)@.pushed(
                        old(self)@.window(source as int, size as int),
                    )
                },
                Err(e) => {
                    &&& final(self)@ == old(self)@
                    &&& e.kind == if !old(self)@.in_bounds(source as int, size as int) {
                        ErrorKind::OutOfBounds
                    } else if old(self)@.stack_pos + size > old(self)@.stack_size {
                        ErrorKind::StackOverflow
                    } else {
                        ErrorKind::OverlappingMove
                    }
                    &&& !old(self)@.in_bounds(source as int, size as int) || old(self)@.stack_pos
                        + size > old(self)@.stack_size || (source + size > old(self)@.stack_pos
                        && source < old(self)@.stack_pos + size)
                },
            },
    {
        if !self.holds(source, size) {
            fail(ErrorKind::OutOfBounds, "pushing bytes that lie outside of the memory")
        } else if size > self.stack_size - self.stack_pos {
            fail(ErrorKind::StackOverflow, "stack overflow while pushing bytes")
        } else if source + size > self.stack_pos && source < self.stack_pos + size {
            fail(ErrorKind::OverlappingMove, "pushing bytes onto themselves")
        } else {
            let data = slice_to_vec(slice_subrange(self.bytes.as_slice(), source, source + size));
            let address = self.stack_pos;
            self.put(address, data.as_slice());
            self.stack_pos = address + size;
            Ok(Value { address, size })
        }
    }

    /// Takes `size` bytes off the stack and gives them. Fails with
    /// `StackUnderflow` where the stack holds fewer.
    pub fn stack_pop_bytes(&mut self, size: usize) -> (r: SimpleResult<Vec<u8>>)
        requires
            old(self).wf(),
        ensures
            final(self).wf(),
            match r {
                Ok(v) => {
                    &&& size <= old(self)@.stack_pos
                    &&& v@ == old(self)@.window(old(self)@.stack_pos - size, size as int)
                    &&& final(self)@ == old(self)@.with_stack_pos(
                        (old(self)@.stack_pos - size) as usize,
                    )
                },
                Err(e) => {
                    &&& size > old(self)@.stack_pos
                    &&& e.kind == ErrorKind::StackUnderflow
                    &&& final(self)@ == old(self)@
                },
            },
    {
        if size > self.stack_pos {
            fail(ErrorKind::StackUnderflow, "stack underflow while popping bytes")
        } else {
            self.stack_pos = self.stack_pos - size;
            Ok(
                slice_to_vec(
                    slice_subrange(self.bytes.as_slice(), self.stack_pos, self.stack_pos + size),
                ),
            )
        }
    }

    /// Takes `size` bytes off the stack and writes them at `destination`.
    /// Fails with `OutOfBounds` where the destination does not lie inside
    /// the memory, else with `StackUnderflow` where the stack holds fewer
    /// bytes, else with `OverlappingMove` where the destination shares a
    /// byte with them.
    pub fn stack_pop_move(&mut self, destination: usize, size: usize) -> (r: SimpleResult<()>)
        requires
            old(self).wf(),
        ensures
            final(self).wf(),
            match r {
                Ok(_) => {
                    &&& old(self)@.in_bounds(destination as int, size as int)
                    &&& size <= old(self)@.stack_pos
                    &&& !(destination + size > old(self)@.stack_pos - size && destination < old(self)@.stack_pos)
                    &&& final(self)@ == old(self)@.written(
                        destination as int,
                        old(self)@.window(old(self)@.stack_pos - size, size as int),
                    ).with_stack_pos((old(self)@.stack_pos - size) as usize)
                },
                Err(e) => {
                    &&& final(self)@ == old(self)@
                    &&& e.kind == if !old(self)@.in_bounds(destination as int, size as int) {
                        ErrorKind::OutOfBounds
                    } else if size > old(self)@.stack_pos {
                        ErrorKind::StackUnderflow
                    } else {
                        ErrorKind::OverlappingMove
                    }
                    &&& !old(self)@.in_bounds(destination as int, size as int) || size > old(self)@.stack_pos || (destination + size > old(self)@.stack_pos - size
                        && destination < old(self)@.stack_pos)
                },
            },
    {
        if !self.holds(destination, size) {
            fail(ErrorKind::OutOfBounds, "popping bytes to outside of the memory")
        } else if size > self.stack_pos {
            fail(ErrorKind::StackUnderflow, "stack underflow while popping bytes")
        } else if destination + size > self.stack_pos - size && destination < self.stack_pos {
            fail(ErrorKind::OverlappingMove, "popping bytes onto themselves")
        } else {
            let from = self.stack_pos - size;
            let data = slice_to_vec(slice_subrange(self.bytes.as_slice(), from, from + size));
            self.put(destination, data.as_slice());
            self.stack_pos = from;
            Ok(())
        }
    }

    /// Sets the stack's top to `position`. Fails with `StackOverflow`
    /// where `position` is not below the stack's size.
    pub fn stack_reset(&mut self, position: usize) -> (r: SimpleResult<()>)
        requires
            old(self).wf(),
        ensures
            final(self).wf(),
            match r {
                Ok(_) => position < old(self)@.stack_size && final(self)@ == old(self)@.with_stack_pos(position),
                Err(e) => position >= old(self)@.stack_size && e.kind == ErrorKind::StackOverflow
                    && final(self)@ == old(self)@,
            },
    {
        if position >= self.stack_size {
            fail(ErrorKind::StackOverflow, "stack overflow while resetting the stack")
        } else {
            self.stack_pos = position;
            Ok(())
        }
    }

    /// Copies `size` bytes from `source` to `destination`; the two may
    /// share bytes. Fails with `OutOfBounds` where either does not lie
    /// inside the memory.
    pub fn memory_move(&mut self, source: usize, size: usize, destination: usize) -> (r:
        SimpleResult<()>)
        requires
            old(self).wf(),
        ensures
            final(self).wf(),
            match r {
                Ok(_) => {
                    &&& old(self)@.in_bounds(source as int, size as int)
                    &&& old(self)@.in_bounds(destination as int, size as int)
                    &&& final(self)@ == old(self)@.written(
                        destination as int,
                        old(self)@.window(source as int, size as int),
                    )
                },
                Err(e) => {
                    &&& !(old(self)@.in_bounds(source as int, size as int) && old(self)@.in_bounds(destination as int, size as int))
                    &&& e.kind == ErrorKind::OutOfBounds
                    &&& final(self)@ == old(self)@
                },
            },
    {
        if !self.holds(source, size) {
            fail(ErrorKind::OutOfBounds, "moving bytes from outside of the memory")
        } else if !self.holds(destination, size) {
            fail(ErrorKind::OutOfBounds, "moving bytes to outside of the memory")
        } else {
            let data = slice_to_vec(slice_subrange(self.bytes.as_slice(), source, source + size));
            self.put(destination, data.as_slice());
            Ok(())
        }
    }

    /// Writes the bytes `value` at `destination`. Fails with
    /// `OutOfBounds` where they do not lie inside the memory.
    pub fn store_bytes(&mut self, destination: usize, value: &[u8]) -> (r: SimpleResult<()>)
        requires
            old(self).wf(),
        ensures
            final(self).wf(),
            match r {
                Ok(_) => old(self)@.in_bounds(destination as int, value@.len() as int) && final(self)@ == old(self)@.written(destination as int, value@),
                Err(e) => !old(self)@.in_bounds(destination as int, value@.len() as int) && e.kind
                    == ErrorKind::OutOfBounds && final(self)@ == old(self)@,
            },
    {
        if !self.holds(destination, value.len()) {
            fail(ErrorKind::OutOfBounds, "storing bytes to outside of the memory")
        } else {
            self.put(destination, value);
            Ok(())
        }
    }

    /// The `size` bytes at `source`. Fails with `OutOfBounds` where they
    /// do not lie inside the memory.
    pub fn load_bytes(&self, source: usize, size: usize) -> (r: SimpleResult<Vec<u8>>)
        requires
            self.wf(),
        ensures
            match r {
                Ok(v) => self@.in_bounds(source as int, size as int) && v@ == self@.window(
                    source as int,
                    size as int,
                ),
                Err(e) => !self@.in_bounds(source as int, size as int) && e.kind
                    == ErrorKind::OutOfBounds,
            },
    {
        if !self.holds(source, size) {
            fail(ErrorKind::OutOfBounds, "loading bytes from outside of the memory")
        } else {
            Ok(slice_to_vec(slice_subrange(self.bytes.as_slice(), source, source + size)))
        }
    }

    /// The bytes of the range `value`. Fails with `OutOfBounds` where it
    /// does not lie inside the memory.
    pub fn map(&self, value: Value) -> (r: SimpleResult<&[u8]>)
        requires
            self.wf(),
        ensures
            match r {
                Ok(v) => self@.in_bounds(value.address as int, value.size as int) && v@
                    == self@.window(value.address as int, value.size as int),
                Err(e) => !self@.in_bounds(value.address as int, value.size as int) && e.kind
                    == ErrorKind::OutOfBounds,
            },
    {
        if !self.holds(value.address, value.size) {
            fail(ErrorKind::OutOfBounds, "mapping bytes from outside of the memory")
        } else {
            Ok(slice_subrange(self.bytes.as_slice(), value.address, value.address + value.size))
        }
    }

    /// The bytes of the stack's part of the memory.
    pub fn map_stack(&self) -> (r: &[u8])
        requires
            self.wf(),
        ensures
            r@ == self@.window(0, self@.stack_size as int),
    {
        slice_subrange(self.bytes.as_slice(), 0, self.stack_size)
    }

    /// The bytes of the heap.
    pub fn map_memory(&self) -> (r: &[u8])
        requires
            self.wf(),
        ensures
            r@ == self@.window(self@.stack_size as int, self@.memory_size as int),
    {
        slice_subrange(self.bytes.as_slice(), self.stack_size, self.bytes.len())
    }

    /// All bytes of the memory.
    pub fn map_all(&self) -> (r: &[u8])
        ensures
            r@ == self@.bytes,
    {
        self.bytes.as_slice()
    }

    /// Pushes `size` zero bytes on the stack and gives their place.
    /// Fails with `StackOverflow`, and changes nothing, where the stack
    /// has no room for them.
    pub fn alloc_stack_value(&mut self, size: usize) -> (r: SimpleResult<Value>)
        requires
            old(self).wf(),
        ensures
            final(self).wf(),
            match r {
                Ok(v) => {
                    &&& old(self)@.stack_pos + size <= old(self)@.stack_size
                    &&& v == (Value { address: old(self)@.stack_pos, size })
                    &&& final(self)@ == old(self)@.pushed(zeros(size as nat))
                },
                Err(e) => {
                    &&& old(self)@.stack_pos + size > old(self)@.stack_size
                    &&& e.kind == ErrorKind::StackOverflow
                    &&& final(self)@ == old(self)@
                },
            },
    {
        if size > self.stack_size - self.stack_pos {
            fail(ErrorKind::StackOverflow, "stack overflow while pushing bytes")
        } else {
            let address = self.stack_pos;
            self.clear(address, size);
            self.stack_pos = address + size;
            Ok(Value { address, size })
        }
    }
}

/// The total of a list of blocks is at least that of each of its
/// prefixes.
pub proof fn lemma_total_size_prefix(s: Seq<(usize, usize)>, k: int)
    requires
        0 <= k <= s.len(),
    ensures
        total_size(s.take(k)) <= total_size(s),
    decreases s.len(),
{
    if k == s.len() {
        assert(s.take(k) =~= s);
    } else {
        assert(s.drop_last().take(k) =~= s.take(k));
        lemma_total_size_prefix(s.drop_last(), k);
    }
}

impl State {
    /// The free blocks of the heap: offset in the heap and length.
    pub fn free_blocks(&self) -> (r: &[(usize, usize)])
        ensures
            r@ == self@.free,
    {
        self.memory_free.as_slice()
    }

    /// The number of free bytes of the heap; the largest number that
    /// the host can hold where the blocks hold more.
    pub fn memory_free(&self) -> (r: usize)
        requires
            self.wf(),
        ensures
            r as int == if total_size(self@.free) <= usize::MAX {
                total_size(self@.free) as int
            } else {
                usize::MAX as int
            },
    {
        let mut total: usize = 0;
        let mut i: usize = 0;
        assert(self.memory_free@.take(0) =~= Seq::<(usize, usize)>::empty());
        while i < self.memory_free.len()
            invariant
                i <= self.memory_free@.len(),
                total as nat == total_size(self.memory_free@.take(i as int)),
            decreases self.memory_free@.len() - i,
        {
            proof {
                let next = self.memory_free@.take(i + 1);
                assert(next.drop_last() =~= self.memory_free@.take(i as int));
                assert(next.last() == self.memory_free@[i as int]);
                lemma_total_size_prefix(self.memory_free@, i + 1);
            }
            total = match total.checked_add(self.memory_free[i].1) {
                Some(n) => n,
                None => { return usize::MAX; },
            };
            i = i + 1;
        }
        assert(self.memory_free@.take(i as int) =~= self.memory_free@);
        total
    }

    /// The bytes that stand at `source`, as long as `predicate` holds of
    /// them: the result ends before the first byte that `predicate`
    /// refuses, or at the end of the memory.
    pub fn load_bytes_while<P: Fn(u8) -> bool>(&self, source: usize, predicate: P) -> (r: Vec<u8>)
        requires
            forall|b: u8| call_requires(predicate, (b,)),
        ensures
            source + r@.len() <= self@.bytes.len() || r@.len() == 0,
            r@.len() > 0 ==> r@ == self@.window(source as int, r@.len() as int),
            forall|k: int| 0 <= k < r@.len() ==> call_ensures(predicate, (#[trigger] r@[k],), true),
            source + r@.len() < self@.bytes.len() ==> call_ensures(
                predicate,
                (self@.bytes[source + r@.len()],),
                false,
            ),
    {
        let mut out: Vec<u8> = Vec::new();
        let mut at: usize = source;
        while at < self.bytes.len()
            invariant
                source <= at,
                at == source + out@.len(),
                at <= self.bytes@.len() || out@.len() == 0,
                out@.len() > 0 ==> out@ == self.bytes@.subrange(source as int, at as int),
                forall|b: u8| call_requires(predicate, (b,)),
                forall|k: int|
                    0 <= k < out@.len() ==> call_ensures(predicate, (#[trigger] out@[k],), true),
            decreases self.bytes@.len() - at,
        {
            let b = self.bytes[at];
            if !predicate(b) {
                return out;
            }
            out.push(b);
            at = at + 1;
            assert(out@ =~= self.bytes@.subrange(source as int, at as int));
        }
        out
    }

    /// The bytes that stand at `source` before the first zero byte or
    /// the end of the memory; none where `source` lies outside.
    pub fn load_bytes_while_non_zero(&self, source: usize) -> (r: Vec<u8>)
        ensures
            source >= self@.bytes.len() ==> r@.len() == 0,
            source < self@.bytes.len() ==> self@.text_length(source as int, r@.len() as int) && r@
                == self@.window(source as int, r@.len() as int),
    {
        let mut out: Vec<u8> = Vec::new();
        let mut at: usize = source;
        proof {
            if source < self.bytes@.len() {
                assert(out@ =~= self.bytes@.subrange(source as int, at as int));
            }
        }
        while at < self.bytes.len()
            invariant
                source <= at,
                at == source + out@.len(),
                at <= self.bytes@.len() || out@.len() == 0,
                source < self.bytes@.len() ==> out@ == self.bytes@.subrange(
                    source as int,
                    at as int,
                ),
                forall|k: int| source <= k < at ==> self.bytes@[k] != 0,
            decreases self.bytes@.len() - at,
        {
            let b = self.bytes[at];
            if b == 0 {
                return out;
            }
            out.push(b);
            at = at + 1;
            assert(out@ =~= self.bytes@.subrange(source as int, at as int));
        }
        out
    }

    /// The first free block that holds `size` bytes: its index in the
    /// list, its offset and its length. Fails with `OutOfMemory` where
    /// no block holds as many.
    pub fn find_free_memory(&self, size: usize) -> (r: SimpleResult<(usize, usize, usize)>)
        ensures
            match r {
                Ok((i, a, s)) => is_first_fit(self@.free, size, i as int) && self@.free[i as int]
                    == (a, s),
                Err(e) => no_fit(self@.free, size) && e.kind == ErrorKind::OutOfMemory,
            },
    {
        let mut i: usize = 0;
        while i < self.memory_free.len()
            invariant
                i <= self.memory_free@.len(),
                forall|j: int| 0 <= j < i ==> (#[trigger] self.memory_free@[j]).1 < size,
            decreases self.memory_free@.len() - i,
        {
            let (a, s) = self.memory_free[i];
            if size <= s {
                return Ok((i, a, s));
            }
            i = i + 1;
        }
        fail(ErrorKind::OutOfMemory, "no free block of the heap holds as many bytes")
    }

    /// Takes `size` bytes from the front of the first free block that
    /// holds as many, and gives their place. Fails with `OutOfMemory`,
    /// and changes nothing, where no block holds as many.
    pub fn alloc_memory_value(&mut self, size: usize) -> (r: SimpleResult<Value>)
        requires
            old(self).wf(),
        ensures
            final(self).wf(),
            match r {
                Ok(v) => old(self)@.allocated(size) == Some((final(self)@, v)),
                Err(e) => old(self)@.allocated(size) is None,
            },
            match r {
                Ok(v) => exists|i: int|
                    {
                        &&& is_first_fit(old(self)@.free, size, i)
                        &&& v == (Value {
                            address: (old(self)@.free[i].0 + old(self)@.stack_size) as usize,
                            size,
                        })
                        &&& old(self)@.in_heap(v)
                        &&& final(self)@ == old(self)@.with_free(
                            taken_from(old(self)@.free, i, size),
                        )
                        &&& forall|o: int|
                            in_block((old(self)@.free[i].0, size), o) ==> covers(
                                old(self)@.free,
                                o,
                            )
                        &&& compact(old(self)@.free) ==> compact(final(self)@.free) && forall|
                            o: int,
                        |
                            covers(final(self)@.free, o) <==> covers(old(self)@.free, o)
                                && !in_block((old(self)@.free[i].0, size), o)
                    },
                Err(e) => {
                    &&& no_fit(old(self)@.free, size)
                    &&& e.kind == ErrorKind::OutOfMemory
                    &&& final(self)@ == old(self)@
                },
            },
    {
        proof {
            if no_fit(self@.free, size) {
                lemma_no_fit(self@.free, size);
            }
        }
        let (index, address, s) = self.find_free_memory(size)?;
        let ghost before = self@.free;
        proof {
            lemma_first_fit_unique(before, size, index as int);
        }
        assert(end_of(before[index as int]) <= self@.memory_size);
        if s == size {
            self.memory_free.remove(index);
        } else {
            self.memory_free[index] = (address + size, s - size);
        }
        proof {
            let after = self@.free;
            assert(after =~= taken_from(before, index as int, size));
            assert forall|o: int| in_block((before[index as int].0, size), o) implies covers(
                before,
                o,
            ) by {
                assert(in_block(before[index as int], o));
            }
            if compact(before) {
                lemma_take_from_compact(before, size, index as int);
            }
            assert forall|i: int| 0 <= i < after.len() implies end_of(#[trigger] after[i])
                <= self@.memory_size by {
                if s == size {
                    if i < index {
                        assert(after[i] == before[i]);
                    } else {
                        assert(after[i] == before[i + 1]);
                    }
                } else {
                    if i != index {
                        assert(after[i] == before[i]);
                    }
                }
            }
        }
        Ok(Value { address: address + self.stack_size, size })
    }

    /// True when the `size` bytes at the heap offset `offset` lie
    /// inside one free block.
    fn is_free(&self, offset: usize, size: usize) -> (r: bool)
        requires
            self.wf(),
            offset + size <= self@.memory_size,
        ensures
            r == contained(self@.free, offset as int, size as int),
    {
        let mut i: usize = 0;
        while i < self.memory_free.len()
            invariant
                i <= self.memory_free@.len(),
                self.wf(),
                offset + size <= self@.memory_size,
                forall|j: int|
                    0 <= j < i ==> !((#[trigger] self.memory_free@[j]).0 <= offset && offset + size
                        <= end_of(self.memory_free@[j])),
            decreases self.memory_free@.len() - i,
        {
            let (a, s) = self.memory_free[i];
            assert(end_of(self@.free[i as int]) <= self@.memory_size);
            if a <= offset && offset + size <= a + s {
                return true;
            }
            i = i + 1;
        }
        false
    }

    /// Puts the free blocks in ascending order of offset and merges
    /// each block into the one that ends where it begins.
    pub fn defragment_free_memory(&mut self)
        requires
            old(self).wf(),
        ensures
            final(self).wf(),
            final(self)@ == old(self)@.with_free(coalesced(sorted_by_offset(old(self)@.free))),
    {
        proof {
            lemma_defragment_within(self@.free, self@.memory_size as int);
        }
        let mut blocks: Vec<(usize, usize)> = Vec::new();
        core::mem::swap(&mut blocks, &mut self.memory_free);
        sort_blocks(&mut blocks);
        self.memory_free = coalesce_blocks(blocks);
    }

    /// Gives the range `value` of the heap back: the block joins the
    /// free list, which is then put in order and merged. Fails with
    /// `OutOfBounds` where the range does not lie inside the heap, and
    /// with `DoubleFree` where it lies inside one free block; it then
    /// changes nothing.
    pub fn dealloc_memory_value(&mut self, value: &Value) -> (r: SimpleResult<()>)
        requires
            old(self).wf(),
        ensures
            final(self).wf(),
            match r {
                Ok(_) => {
                    &&& old(self)@.in_heap(*value)
                    &&& !contained(
                        old(self)@.free,
                        value.address - old(self)@.stack_size,
                        value.size as int,
                    )
                    &&& final(self)@ == old(self)@.with_free(
                        coalesced(
                            sorted_by_offset(
                                old(self)@.free.push(
                                    ((value.address - old(self)@.stack_size) as usize, value.size),
                                ),
                            ),
                        ),
                    )
                    &&& compact(old(self)@.free) && apart(
                        old(self)@.free,
                        ((value.address - old(self)@.stack_size) as usize, value.size),
                    ) ==> compact(final(self)@.free) && forall|o: int|
                        covers(final(self)@.free, o) <==> covers(old(self)@.free, o) || in_block(
                            ((value.address - old(self)@.stack_size) as usize, value.size),
                            o,
                        )
                },
                Err(e) => {
                    &&& final(self)@ == old(self)@
                    &&& e.kind == if !old(self)@.in_heap(*value) {
                        ErrorKind::OutOfBounds
                    } else {
                        ErrorKind::DoubleFree
                    }
                    &&& !old(self)@.in_heap(*value) || contained(
                        old(self)@.free,
                        value.address - old(self)@.stack_size,
                        value.size as int,
                    )
                },
            },
    {
        if value.address < self.stack_size || !self.holds(value.address, value.size) {
            return fail(ErrorKind::OutOfBounds, "the block to release lies outside of the heap");
        }
        let offset = value.address - self.stack_size;
        if self.is_free(offset, value.size) {
            return fail(ErrorKind::DoubleFree, "the block to release is free");
        }
        proof {
            if compact(self@.free) && apart(self@.free, (offset, value.size)) {
                assert(within(self@.free, usize::MAX as int));
                lemma_release_into_compact(self@.free, (offset, value.size));
            }
        }
        self.memory_free.push((offset, value.size));
        self.defragment_free_memory();
        Ok(())
    }
}

impl State {
    /// Pushes the bytes of `value` on the stack and gives their place.
    /// Fails with `StackOverflow`, and changes nothing, where the stack
    /// has no room for them.
    pub fn stack_push_data<T: Atom>(&mut self, value: &T) -> (r: SimpleResult<Value>)
        requires
            old(self).wf(),
        ensures
            final(self).wf(),
            match r {
                Ok(v) => {
                    &&& old(self)@.stack_pos + T::width() <= old(self)@.stack_size
                    &&& v == (Value { address: old(self)@.stack_pos, size: T::width() as usize })
                    &&& final(self)@ == old(self)@.pushed(atom_bytes(*value, old(self)@.order))
                },
                Err(e) => {
                    &&& old(self)@.stack_pos + T::width() > old(self)@.stack_size
                    &&& e.kind == ErrorKind::StackOverflow
                    &&& final(self)@ == old(self)@
                },
            },
    {
        proof {
            lemma_atom_round_trip(*value, self@.order);
        }
        let bytes = raw_to_bytes(value.to_raw(), T::size(), self.order);
        self.stack_push_bytes(bytes.as_slice())
    }

    /// Takes a value off the stack. Fails with `StackUnderflow` where
    /// the stack holds fewer bytes than the value is wide.
    pub fn stack_pop_data<T: Atom>(&mut self) -> (r: SimpleResult<T>)
        requires
            old(self).wf(),
        ensures
            final(self).wf(),
            match r {
                Ok(v) => {
                    &&& T::width() <= old(self)@.stack_pos
                    &&& v == atom_of::<T>(
                        old(self)@.window(old(self)@.stack_pos - T::width(), T::width() as int),
                        old(self)@.order,
                    )
                    &&& final(self)@ == old(self)@.with_stack_pos(
                        (old(self)@.stack_pos - T::width()) as usize,
                    )
                },
                Err(e) => {
                    &&& T::width() > old(self)@.stack_pos
                    &&& e.kind == ErrorKind::StackUnderflow
                    &&& final(self)@ == old(self)@
                },
            },
    {
        let bytes = self.stack_pop_bytes(T::size())?;
        Ok(T::from_raw(raw_from_bytes(bytes.as_slice(), self.order)))
    }

    /// Writes the bytes of `value` at `destination`. Fails with
    /// `OutOfBounds` where they do not lie inside the memory.
    pub fn store_data<T: Atom>(&mut self, destination: usize, value: &T) -> (r: SimpleResult<()>)
        requires
            old(self).wf(),
        ensures
            final(self).wf(),
            match r {
                Ok(_) => old(self)@.in_bounds(destination as int, T::width() as int) && final(self)@ == old(self)@.written(destination as int, atom_bytes(*value, old(self)@.order)),
                Err(e) => !old(self)@.in_bounds(destination as int, T::width() as int) && e.kind
                    == ErrorKind::OutOfBounds && final(self)@ == old(self)@,
            },
    {
        proof {
            lemma_atom_round_trip(*value, self@.order);
        }
        let bytes = raw_to_bytes(value.to_raw(), T::size(), self.order);
        self.store_bytes(destination, bytes.as_slice())
    }

    /// The value whose bytes stand at `source`. Fails with `OutOfBounds`
    /// where they do not lie inside the memory.
    pub fn load_data<T: Atom>(&self, source: usize) -> (r: SimpleResult<T>)
        requires
            self.wf(),
        ensures
            match r {
                Ok(v) => self@.in_bounds(source as int, T::width() as int) && v == atom_of::<T>(
                    self@.window(source as int, T::width() as int),
                    self@.order,
                ),
                Err(e) => !self@.in_bounds(source as int, T::width() as int) && e.kind
                    == ErrorKind::OutOfBounds,
            },
    {
        let bytes = self.load_bytes(source, T::size())?;
        Ok(T::from_raw(raw_from_bytes(bytes.as_slice(), self.order)))
    }
}

// ---------------------------------------------------------------------------
// Laws
// ---------------------------------------------------------------------------

/// Bytes that were written stand where they were written.
pub proof fn lemma_written_window(s: StateModel, address: int, data: Seq<u8>)
    requires
        s.wf(),
        s.in_bounds(address, data.len() as int),
    ensures
        s.written(address, data).window(address, data.len() as int) == data,
        s.written(address, data).wf(),
{
    assert(s.written(address, data).window(address, data.len() as int) =~= data);
}

/// A value that was stored at an address is the value that is loaded
/// from it.
pub proof fn lemma_store_then_load<T: Atom>(s: StateModel, address: int, v: T)
    requires
        s.wf(),
        s.in_bounds(address, T::width() as int),
    ensures
        atom_of::<T>(
            s.written(address, atom_bytes(v, s.order)).window(address, T::width() as int),
            s.written(address, atom_bytes(v, s.order)).order,
        ) == v,
{
    lemma_atom_round_trip(v, s.order);
    lemma_written_window(s, address, atom_bytes(v, s.order));
}

/// A value that was pushed is the value that is popped, and the pop
/// leaves the stack's top where it was before the push.
pub proof fn lemma_push_then_pop<T: Atom>(s: StateModel, v: T)
    requires
        s.wf(),
        s.stack_pos + T::width() <= s.stack_size,
    ensures
        ({
            let t = s.pushed(atom_bytes(v, s.order));
            &&& t.wf()
            &&& atom_of::<T>(t.window(t.stack_pos - T::width(), T::width() as int), t.order) == v
            &&& t.with_stack_pos((t.stack_pos - T::width()) as usize).stack_pos == s.stack_pos
        }),
{
    lemma_atom_round_trip(v, s.order);
    let data = atom_bytes(v, s.order);
    let t = s.pushed(data);
    assert(t.window(s.stack_pos as int, data.len() as int) =~= data);
}

/// The whole heap can be taken once from a fresh state, and then no
/// block is left that holds as many bytes.
pub proof fn lemma_whole_heap_once(memory_size: usize)
    ensures
        compact(seq![(0usize, memory_size)]),
        is_first_fit(seq![(0usize, memory_size)], memory_size, 0),
        taken_from(seq![(0usize, memory_size)], 0, memory_size) == Seq::<(usize, usize)>::empty(),
        no_fit(taken_from(seq![(0usize, memory_size)], 0, memory_size), memory_size),
{
    assert(taken_from(seq![(0usize, memory_size)], 0, memory_size) =~= Seq::<
        (usize, usize),
    >::empty());
}

/// A block that was taken from the front of a compact list and is given
/// back leaves the bytes free that were free before it was taken.
pub proof fn lemma_alloc_then_dealloc(free: Seq<(usize, usize)>, size: usize, i: int)
    requires
        compact(free),
        within(free, usize::MAX as int),
        is_first_fit(free, size, i),
        size > 0,
    ensures
        ({
            let taken = taken_from(free, i, size);
            let block = (free[i].0, size);
            let after = coalesced(sorted_by_offset(taken.push(block)));
            &&& apart(taken, block)
            &&& compact(after)
            &&& forall|o: int| covers(after, o) <==> covers(free, o)
        }),
{
    let taken = taken_from(free, i, size);
    let block = (free[i].0, size);
    assert(end_of(free[i]) <= usize::MAX);
    lemma_take_from_compact(free, size, i);
    assert forall|j: int| 0 <= j < taken.len() implies (end_of(block) <= (#[trigger] taken[j]).0
        || end_of(taken[j]) <= block.0) && !(taken[j].0 <= block.0 && end_of(block) <= end_of(
        taken[j],
    )) by {
        if free[i].1 == size {
            let j2 = if j < i { j } else { j + 1 };
            assert(taken[j] == free[j2]);
            if j2 < i {
                assert(end_of(free[j2]) < free[i].0);
            } else {
                assert(end_of(free[i]) < free[j2].0);
            }
        } else {
            if j < i {
                assert(taken[j] == free[j]);
                assert(end_of(free[j]) < free[i].0);
            } else if j > i {
                assert(taken[j] == free[j]);
                assert(end_of(free[i]) < free[j].0);
            }
        }
    }
    assert(within(taken, usize::MAX as int)) by {
        assert forall|j: int| 0 <= j < taken.len() implies end_of(#[trigger] taken[j])
            <= usize::MAX by {
            if free[i].1 == size {
                let j2 = if j < i { j } else { j + 1 };
                assert(taken[j] == free[j2]);
            } else if j != i {
                assert(taken[j] == free[j]);
            }
        }
    }
    lemma_release_into_compact(taken, block);
    let after = coalesced(sorted_by_offset(taken.push(block)));
    assert forall|o: int| covers(after, o) <==> covers(free, o) by {
        if in_block(block, o) {
            assert(in_block(free[i], o));
        }
    }
}

impl State {
    /// All bytes of the memory, to read and to write. The state stays
    /// well formed as the slice keeps its length.
    pub fn map_all_mut(&mut self) -> (r: &mut [u8])
        requires
            old(self).wf(),
        ensures
            r@ == old(self)@.bytes,
            final(self)@ == (StateModel { bytes: final(r)@, ..old(self)@ }),
            final(r)@.len() == r@.len() ==> final(self).wf(),
    {
        self.bytes.as_mut_slice()
    }

    /// The bytes of the stack's part of the memory, to read and to
    /// write.
    pub fn map_stack_mut(&mut self) -> (r: &mut [u8])
        requires
            old(self).wf(),
        ensures
            r@ == old(self)@.window(0, old(self)@.stack_size as int),
            final(self)@ == (StateModel {
                bytes: final(r)@ + old(self)@.window(
                    old(self)@.stack_size as int,
                    old(self)@.memory_size as int,
                ),
                ..old(self)@
            }),
            final(r)@.len() == r@.len() ==> final(self).wf(),
    {
        let n = self.stack_size;
        let (stack, _heap) = self.bytes.as_mut_slice().split_at_mut(n);
        stack
    }

    /// The bytes of the heap, to read and to write.
    pub fn map_memory_mut(&mut self) -> (r: &mut [u8])
        requires
            old(self).wf(),
        ensures
            r@ == old(self)@.window(old(self)@.stack_size as int, old(self)@.memory_size as int),
            final(self)@ == (StateModel {
                bytes: old(self)@.window(0, old(self)@.stack_size as int) + final(r)@,
                ..old(self)@
            }),
            final(r)@.len() == r@.len() ==> final(self).wf(),
    {
        let n = self.stack_size;
        let (_stack, heap) = self.bytes.as_mut_slice().split_at_mut(n);
        heap
    }
}

impl State {
    /// The bytes of the range `value`, to read and to write. Fails with
    /// `OutOfBounds` where the range does not lie inside the memory.
    pub fn map_mut(&mut self, value: Value) -> (r: SimpleResult<&mut [u8]>)
        requires
            old(self).wf(),
        ensures
            match r {
                Ok(v) => {
                    &&& old(self)@.in_bounds(value.address as int, value.size as int)
                    &&& v@ == old(self)@.window(value.address as int, value.size as int)
                    &&& final(self)@ == (StateModel {
                        bytes: old(self)@.bytes.take(value.address as int) + final(v)@ + old(self)@.bytes.skip(value.address + value.size),
                        ..old(self)@
                    })
                    &&& final(v)@.len() == v@.len() ==> final(self).wf()
                },
                Err(e) => !old(self)@.in_bounds(value.address as int, value.size as int) && e.kind
                    == ErrorKind::OutOfBounds && final(self)@ == old(self)@,
            },
    {
        if !self.holds(value.address, value.size) {
            fail(ErrorKind::OutOfBounds, "mapping bytes from outside of the memory")
        } else {
            let (front, _back) = self.bytes.as_mut_slice().split_at_mut(value.address + value.size);
            let (_before, window) = front.split_at_mut(value.address);
            assert(window@ =~= old(self)@.window(value.address as int, value.size as int));
            assert(_before@ =~= old(self)@.bytes.take(value.address as int));
            assert(_back@ =~= old(self)@.bytes.skip(value.address + value.size));
            Ok(window)
        }
    }
}

} // verus!
