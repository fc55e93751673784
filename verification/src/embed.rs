//! What a host that embeds the machine asks of its memory: the sizes of
//! the memory, room on the stack, and blocks of the heap that carry
//! their size in a word before them, so that the host can give a block
//! back by its address alone.

use crate::atom::{atom_bytes, atom_of, lemma_atom_round_trip};
use crate::freelist::{coalesced, contained, sorted_by_offset, total_size};
use crate::image::{host_word_size, word_size};
use crate::state::{lemma_written_window, State, StateModel, Value};
use vstd::prelude::*;

verus! {

/// The sizes of a memory.
#[derive(Debug, Clone, Copy, PartialEq, Eq, Structural)]
pub struct StateInfo {
    pub stack_size: usize,
    pub memory_size: usize,
    pub all_size: usize,
    pub stack_free: usize,
    pub memory_free: usize,
    pub all_free: usize,
}

/// `n`, or the largest number that the host can hold where `n` is
/// larger.
pub open spec fn capped(n: int) -> usize {
    if n <= usize::MAX {
        n as usize
    } else {
        usize::MAX
    }
}

/// The sizes of the memory `state`: of the stack, of the heap and of
/// both, and what is free of each.
pub fn state_info(state: &State) -> (r: StateInfo)
    requires
        state.wf(),
    ensures
        r.stack_size == state@.stack_size,
        r.memory_size == state@.memory_size,
        r.all_size == state@.all_size(),
        r.stack_free == state@.stack_size - state@.stack_pos,
        r.memory_free == capped(total_size(state@.free) as int),
        r.all_free == capped(r.stack_free + r.memory_free),
{
    let stack_free = state.stack_free();
    let memory_free = state.memory_free();
    StateInfo {
        stack_size: state.stack_size(),
        memory_size: state.memory_size(),
        all_size: state.all_size(),
        stack_free,
        memory_free,
        all_free: match stack_free.checked_add(memory_free) {
            Some(n) => n,
            None => usize::MAX,
        },
    }
}

/// Pushes `size` zero bytes on the stack and gives their address;
/// nothing, and no change, where the stack has no room.
pub fn alloc_stack(state: &mut State, size: usize) -> (r: Option<usize>)
    requires
        old(state).wf(),
    ensures
        final(state).wf(),
        if old(state)@.stack_pos + size <= old(state)@.stack_size {
            r == Some(old(state)@.stack_pos) && final(state)@ == old(state)@.reserved(size)
        } else {
            r is None && final(state)@ == old(state)@
        },
{
    match state.alloc_stack_value(size) {
        Ok(v) => Some(v.address),
        Err(_) => None,
    }
}

/// Takes the topmost `size` bytes from the stack. False, and no change,
/// where the stack holds fewer, or where its top would not lie below
/// its size.
pub fn pop_stack(state: &mut State, size: usize) -> (r: bool)
    requires
        old(state).wf(),
    ensures
        final(state).wf(),
        r == (size <= old(state)@.stack_pos && old(state)@.stack_pos - size < old(
            state,
        )@.stack_size),
        r ==> final(state)@ == old(state)@.with_stack_pos((old(state)@.stack_pos - size) as usize),
        !r ==> final(state)@ == old(state)@,
{
    let pos = state.stack_pos();
    pos >= size && state.stack_reset(pos - size).is_ok()
}

/// The state after a block for `size` bytes and a word before them was
/// taken from the heap and `size` was written into the word, and the
/// address behind the word; nothing where the heap has no such block.
pub open spec fn sized_alloc(m: StateModel, size: usize) -> Option<(StateModel, usize)> {
    if size + word_size() > usize::MAX {
        None
    } else {
        match m.allocated((size + word_size()) as usize) {
            None => None,
            Some((taken, v)) => Some(
                (
                    taken.written(v.address as int, atom_bytes(size, m.order)),
                    (v.address + word_size()) as usize,
                ),
            ),
        }
    }
}

/// Takes a block for `size` bytes from the heap, with its size in a
/// word before it, and gives the address of the bytes; nothing, and no
/// change, where the heap has no such block.
pub fn alloc_memory(state: &mut State, size: usize) -> (r: Option<usize>)
    requires
        old(state).wf(),
    ensures
        final(state).wf(),
        match sized_alloc(old(state)@, size) {
            Some((after, address)) => r == Some(address) && final(state)@ == after,
            None => r is None && final(state)@ == old(state)@,
        },
{
    let word = host_word_size();
    let total = match size.checked_add(word) {
        Some(n) => n,
        None => {
            return None;
        },
    };
    let v = match state.alloc_memory_value(total) {
        Ok(v) => v,
        Err(_) => {
            return None;
        },
    };
    assert(state@.in_bounds(v.address as int, word as int));
    match state.store_data(v.address, &size) {
        Ok(_) => Some(v.address + word),
        Err(_) => None,
    }
}

/// The block that the word before `address` names: it begins with the
/// word and holds as many bytes behind it as the word says. Nothing
/// where no word lies before `address` inside the memory, or the block
/// would exceed what the host can count.
pub open spec fn sized_block(m: StateModel, address: usize) -> Option<Value> {
    if address < word_size() || !m.in_bounds(address - word_size(), word_size() as int) {
        None
    } else {
        let size = atom_of::<usize>(
            m.window(address - word_size(), word_size() as int),
            m.order,
        );
        if size + word_size() > usize::MAX {
            None
        } else {
            Some(
                Value {
                    address: (address - word_size()) as usize,
                    size: (size + word_size()) as usize,
                },
            )
        }
    }
}

/// True when the block can be given back: it lies inside the heap and
/// not inside a free block.
pub open spec fn in_use(m: StateModel, v: Value) -> bool {
    m.in_heap(v) && !contained(m.free, v.address - m.stack_size, v.size as int)
}

/// Gives back the block whose bytes begin at `address`: the word before
/// them says how many they are. False, and no change, where there is
/// no such block in use.
pub fn dealloc_memory(state: &mut State, address: usize) -> (r: bool)
    requires
        old(state).wf(),
    ensures
        final(state).wf(),
        match sized_block(old(state)@, address) {
            Some(v) => if in_use(old(state)@, v) {
                r && final(state)@ == old(state)@.with_free(
                    coalesced(
                        sorted_by_offset(
                            old(state)@.free.push(
                                ((v.address - old(state)@.stack_size) as usize, v.size),
                            ),
                        ),
                    ),
                )
            } else {
                !r && final(state)@ == old(state)@
            },
            None => !r && final(state)@ == old(state)@,
        },
{
    let word = host_word_size();
    if address < word {
        return false;
    }
    let size: usize = match state.load_data::<usize>(address - word) {
        Ok(n) => n,
        Err(_) => {
            return false;
        },
    };
    let total = match size.checked_add(word) {
        Some(n) => n,
        None => {
            return false;
        },
    };
    state.dealloc_memory_value(&Value { address: address - word, size: total }).is_ok()
}

/// A block that was taken with its size before it is found again by its
/// address: the word before the address names the block that was taken.
pub proof fn lemma_sized_block_found(m: StateModel, size: usize)
    requires
        m.wf(),
        sized_alloc(m, size) is Some,
    ensures
        ({
            let (after, address) = sized_alloc(m, size).unwrap();
            sized_block(after, address) == Some(
                Value {
                    address: (address - word_size()) as usize,
                    size: (size + word_size()) as usize,
                },
            )
        }),
{
    let total = (size + word_size()) as usize;
    let (taken, v) = m.allocated(total).unwrap();
    let i = crate::freelist::first_fit(m.free, total).unwrap();
    assert(crate::freelist::is_first_fit(m.free, total, i));
    assert(m.free[i].0 + m.free[i].1 <= m.memory_size);
    assert(taken.in_bounds(v.address as int, word_size() as int));
    assert(taken.wf()) by {
        let t = crate::freelist::taken_from(m.free, i, total);
        assert forall|k: int| 0 <= k < t.len() implies (#[trigger] t[k]).0 + t[k].1
            <= m.memory_size by {
            if m.free[i].1 == total {
                let k2 = if k < i { k } else { k + 1 };
                assert(t[k] == m.free[k2]);
            } else if k != i {
                assert(t[k] == m.free[k]);
            }
        }
    }
    lemma_atom_round_trip(size, m.order);
    lemma_written_window(taken, v.address as int, atom_bytes(size, m.order));
}

} // verus!
