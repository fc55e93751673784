//! The host's side of an operation: the machine hands the name of an
//! operation and the addresses of its parameters and targets to a
//! processor, which reads and writes the memory and says how to go on.

use crate::error::{ErrorKind, SimpleError, SimpleResult};
use crate::vm::Vm;
use vstd::prelude::*;

verus! {

/// How the machine goes on after an operation.
#[derive(Debug, Copy, Clone, PartialEq, Eq, Structural)]
pub enum OpAction {
    /// With the operation that follows; at the end of the code, with the
    /// return from the function.
    Continue,
    /// At the given offset in the code of the function.
    GoTo(usize),
    /// With the return from the function.
    Return,
}

/// What runs the operations of a program. The machine knows one
/// processor; it gives it itself, so that the processor can read and
/// write the memory.
pub trait Processor {
    /// Runs the operation `op` on the values at the addresses `params`,
    /// with its results to be written at the addresses `targets`.
    fn process_op(op: &String, params: &[usize], targets: &[usize], vm: &mut Vm) -> (r:
        SimpleResult<OpAction>)
        requires
            old(vm).wf(),
        ensures
            final(vm).wf(),
    ;
}

/// A processor that knows no operation: it fails with
/// `NoActiveProcessor` and leaves the machine as it is.
pub struct EmptyProcessor {}

impl Processor for EmptyProcessor {
    fn process_op(op: &String, params: &[usize], targets: &[usize], vm: &mut Vm) -> (r:
        SimpleResult<OpAction>)
        ensures
            r matches Err(e) && e.kind == ErrorKind::NoActiveProcessor,
            final(vm)@ == old(vm)@,
    {
        Err(SimpleError::of(ErrorKind::NoActiveProcessor, "no processor runs the operation"))
    }
}

} // verus!
