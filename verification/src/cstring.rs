//! Texts in the memory of a machine: a text lies in the memory as its
//! UTF-8 bytes with a zero byte behind them, and is handed on as the
//! address of its first byte.

use crate::atom::{atom_bytes, atom_of};
use crate::error::{ErrorKind, SimpleError, SimpleResult};
use crate::image::{utf8_string, word_size};
use crate::state::StateModel;
use crate::vm::Vm;
use vstd::prelude::*;
use vstd::slice::slice_to_vec;
use vstd::utf8::{encode_utf8, valid_utf8};

verus! {

fn fail<T>(kind: ErrorKind, message: &str) -> (r: SimpleResult<T>)
    ensures
        r matches Err(e) && e.kind == kind,
{
    Err(SimpleError::of(kind, message))
}

/// True when `bytes` are the bytes that stand at `source` before the
/// first zero byte or the end of the memory.
pub open spec fn is_text_at(s: StateModel, source: int, bytes: Seq<u8>) -> bool {
    if source >= s.bytes.len() {
        bytes.len() == 0
    } else {
        s.text_length(source, bytes.len() as int) && bytes == s.window(source, bytes.len() as int)
    }
}

/// The address that the memory holds at `address`.
pub open spec fn pointer_at(s: StateModel, address: int) -> usize {
    atom_of::<usize>(s.window(address, word_size() as int), s.order)
}

/// The text whose address the memory holds at `address`: the bytes from
/// that address up to the first zero byte. Fails with `OutOfBounds`
/// where no address lies at `address`, and with `TypeError` where the
/// bytes are no UTF-8.
pub fn load_cstring(address: usize, vm: &Vm) -> (r: SimpleResult<String>)
    requires
        vm.wf(),
    ensures
        match r {
            Ok(text) => vm@.state.in_bounds(address as int, word_size() as int) && is_text_at(
                vm@.state,
                pointer_at(vm@.state, address as int) as int,
                encode_utf8(text@),
            ),
            Err(e) => if !vm@.state.in_bounds(address as int, word_size() as int) {
                e.kind == ErrorKind::OutOfBounds
            } else {
                e.kind == ErrorKind::TypeError && exists|bytes: Seq<u8>|
                    is_text_at(vm@.state, pointer_at(vm@.state, address as int) as int, bytes)
                        && !valid_utf8(bytes)
            },
        },
{
    let p = vm.state().load_data::<usize>(address)?;
    let bytes = vm.state().load_bytes_while_non_zero(p);
    let ghost raw = bytes@;
    assert(is_text_at(vm@.state, p as int, raw));
    match utf8_string(bytes) {
        Some(text) => Ok(text),
        None => fail(ErrorKind::TypeError, "the text in the memory is no UTF-8"),
    }
}

/// Pushes the text `value` with a zero byte behind it on the stack and
/// writes its address at `address`. Fails with `TypeError`, and changes
/// nothing, where the text holds a zero byte; with `StackOverflow`, and
/// changes nothing, where the stack has no room; and with `OutOfBounds`,
/// the text being pushed, where no address can lie at `address`.
pub fn store_cstring(value: &str, address: usize, vm: &mut Vm) -> (r: SimpleResult<()>)
    requires
        old(vm).wf(),
    ensures
        final(vm).wf(),
        ({
            let before = old(vm)@.state;
            let bytes = encode_utf8(value@).push(0u8);
            let pushed = before.pushed(bytes);
            match r {
                Ok(_) => {
                    &&& !encode_utf8(value@).contains(0u8)
                    &&& before.stack_pos + bytes.len() <= before.stack_size
                    &&& pushed.in_bounds(address as int, word_size() as int)
                    &&& final(vm)@ == old(vm)@.with_state(
                        pushed.written(address as int, atom_bytes(before.stack_pos, before.order)),
                    )
                },
                Err(e) => if encode_utf8(value@).contains(0u8) {
                    e.kind == ErrorKind::TypeError && final(vm)@ == old(vm)@
                } else if before.stack_pos + bytes.len() > before.stack_size {
                    e.kind == ErrorKind::StackOverflow && final(vm)@ == old(vm)@
                } else {
                    e.kind == ErrorKind::OutOfBounds && !pushed.in_bounds(
                        address as int,
                        word_size() as int,
                    ) && final(vm)@ == old(vm)@.with_state(pushed)
                },
            }
        }),
{
    let raw = value.as_bytes();
    let mut i: usize = 0;
    while i < raw.len()
        invariant
            i <= raw@.len(),
            forall|k: int| 0 <= k < i ==> raw@[k] != 0,
            vm.wf(),
            vm@ == old(vm)@,
            raw@ == encode_utf8(value@),
        decreases raw@.len() - i,
    {
        if raw[i] == 0 {
            assert(raw@.contains(0u8));
            return fail(ErrorKind::TypeError, "the text holds a zero byte");
        }
        i = i + 1;
    }
    assert(!raw@.contains(0u8));
    let mut bytes = slice_to_vec(raw);
    bytes.push(0);
    let state = vm.state_mut();
    let v = state.stack_push_bytes(bytes.as_slice())?;
    state.store_data(address, &v.address)?;
    Ok(())
}

} // verus!
