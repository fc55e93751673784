//! What the machine does, as mathematics: the model of a machine and the
//! meaning of each step of its code.

use crate::atom::{atom_bytes, atom_of, Atom};
use crate::error::ErrorKind;
use crate::image::{
    indexed, named, parse_seq, parse_size, parse_u64, parse_u8, type_size_of, word_size, DataModel,
    ImageModel, VariableModel,
};
use crate::processor::OpAction;
use crate::state::{zeros, StateModel, Value};
use vstd::prelude::*;
use vstd::utf8::encode_utf8;

verus! {

/// The stage of a machine's life.
#[derive(Debug, Clone, Copy, PartialEq, Eq, Structural)]
pub enum ExecutionStage {
    Uninitialized,
    Running,
    Complete,
}

/// The model of a frame of the call stack.
pub struct FrameModel {
    /// The index of the function that runs.
    pub function: usize,
    /// The offset in the function's code at which the frame goes on.
    pub address: usize,
    /// The stack's top before the parameters were pushed.
    pub params_stackpos: usize,
    pub result: Option<Value>,
    pub locals: Option<Value>,
    /// The addresses of the targets of the operation that is being read.
    pub op_target_addresses: Seq<usize>,
    /// The addresses of the parameters of the operation that is being read.
    pub op_param_addresses: Seq<usize>,
    /// The stack's top when the operation that is being read began.
    pub op_stackpos: usize,
}

impl FrameModel {
    /// A frame at the start of a function.
    pub open spec fn fresh(
        function: usize,
        params_stackpos: usize,
        result: Option<Value>,
        locals: Option<Value>,
    ) -> FrameModel {
        FrameModel {
            function,
            address: 0,
            params_stackpos,
            result,
            locals,
            op_target_addresses: Seq::empty(),
            op_param_addresses: Seq::empty(),
            op_stackpos: 0,
        }
    }

    /// The frame with no operation being read.
    pub open spec fn cleared(self) -> FrameModel {
        FrameModel { op_target_addresses: Seq::empty(), op_param_addresses: Seq::empty(), ..self }
    }

    /// The frame in which an inline operation is read: this frame with no
    /// operation being read and no mark of the stack's top.
    pub open spec fn duplicate(self) -> FrameModel {
        FrameModel { op_stackpos: 0, ..self.cleared() }
    }
}

/// The model of a machine.
pub struct VmModel {
    pub assembly: ImageModel,
    pub state: StateModel,
    pub stage: ExecutionStage,
    pub callstack: Seq<FrameModel>,
    /// The constants in the heap.
    pub data: Option<Value>,
    /// The globals in the heap.
    pub globals: Option<Value>,
    /// The addresses that the code has computed and not yet used.
    pub pointers: Seq<usize>,
}

/// An operation that the processor is to run.
pub struct PendingModel {
    pub name: Seq<char>,
    pub params: Seq<usize>,
    pub targets: Seq<usize>,
    /// The place of the result of an inline operation.
    pub inline: Option<Value>,
    /// The index of the frame that reads the code.
    pub frame: usize,
    /// The offset behind the operation in the code.
    pub resume_at: usize,
    /// The length of the code.
    pub body_size: usize,
}

/// How a step of the code ends.
pub enum Flow {
    /// The code goes on at the offset.
    Next(VmModel, int),
    /// The step is over; with `true` the next step follows at once.
    Done(VmModel, bool),
    /// The processor is to run an operation.
    Call(VmModel, PendingModel),
    /// The step fails.
    Fail(ErrorKind),
}

/// The sum of the sizes `sizes`.
pub open spec fn sum_sizes(sizes: Seq<usize>) -> nat
    decreases sizes.len(),
{
    if sizes.len() == 0 {
        0
    } else {
        sum_sizes(sizes.drop_last()) + sizes.last() as nat
    }
}

/// The sizes of the variables `vars`.
pub open spec fn sizes_of(vars: Seq<VariableModel>) -> Seq<usize> {
    Seq::new(vars.len(), |k: int| vars[k].size)
}

/// The ranges that `sizes` make with the addresses on top of
/// `pointers`: the first size goes with the topmost address.
pub open spec fn gathered(sizes: Seq<usize>, pointers: Seq<usize>) -> Seq<(usize, usize)> {
    Seq::new(sizes.len(), |k: int| (pointers[pointers.len() - 1 - k], sizes[k]))
}

/// The state after the ranges `parts` were copied, one behind the other
/// and in their order, to `base`. Fails with `OutOfBounds` where a range
/// does not lie inside the memory.
pub open spec fn scatter(s: StateModel, parts: Seq<(usize, usize)>, base: int) -> Result<
    StateModel,
    ErrorKind,
>
    decreases parts.len(),
{
    if parts.len() == 0 {
        Ok(s)
    } else {
        match scatter(s, parts.drop_last(), base) {
            Err(e) => Err(e),
            Ok(t) => {
                let a = parts.last().0 as int;
                let n = parts.last().1 as int;
                let dst = base + parts_total(parts.drop_last());
                if t.in_bounds(a, n) && t.in_bounds(dst, n) {
                    Ok(t.written(dst, t.window(a, n)))
                } else {
                    Err(ErrorKind::OutOfBounds)
                }
            },
        }
    }
}

/// The sum of the lengths of the ranges `parts`.
pub open spec fn parts_total(parts: Seq<(usize, usize)>) -> nat
    decreases parts.len(),
{
    if parts.len() == 0 {
        0
    } else {
        parts_total(parts.drop_last()) + parts.last().1 as nat
    }
}

pub open spec fn size_parser() -> spec_fn(Seq<u8>, int) -> Option<(usize, int)> {
    |b: Seq<u8>, p: int| parse_size(b, p)
}

/// The bytes of a text in the heap: its UTF-8 encoding and a zero byte.
/// None where the encoding holds a zero byte.
pub open spec fn text_bytes(s: Seq<char>) -> Option<Seq<u8>> {
    if encode_utf8(s).contains(0u8) {
        None
    } else {
        Some(encode_utf8(s).push(0u8))
    }
}

/// The bytes of a number of the data pool in the given order.
pub open spec fn number_bytes(d: DataModel, order: crate::state::Endianness) -> Seq<u8> {
    match d {
        DataModel::I8(v) => atom_bytes(v, order),
        DataModel::U8(v) => atom_bytes(v, order),
        DataModel::I16(v) => atom_bytes(v, order),
        DataModel::U16(v) => atom_bytes(v, order),
        DataModel::I32(v) => atom_bytes(v, order),
        DataModel::U32(v) => atom_bytes(v, order),
        DataModel::I64(v) => atom_bytes(v, order),
        DataModel::U64(v) => atom_bytes(v, order),
        DataModel::F32(v) => atom_bytes(v, order),
        DataModel::F64(v) => atom_bytes(v, order),
        DataModel::Isize(v) => atom_bytes(v, order),
        DataModel::Usize(v) => atom_bytes(v, order),
        DataModel::String(_) => Seq::empty(),
    }
}

/// The number of bytes of a number of the data pool.
pub open spec fn number_width(d: DataModel) -> nat {
    match d {
        DataModel::I8(_) | DataModel::U8(_) => 1,
        DataModel::I16(_) | DataModel::U16(_) => 2,
        DataModel::I32(_) | DataModel::U32(_) | DataModel::F32(_) => 4,
        DataModel::I64(_) | DataModel::U64(_) | DataModel::F64(_) => 8,
        DataModel::Isize(_) | DataModel::Usize(_) => word_size(),
        DataModel::String(_) => 0,
    }
}

/// The state after the constant `d` was put into the heap, and the place
/// of the constant. A number takes a block of its width. A text takes a
/// block for its bytes and then a block of a word that holds the address
/// of the first; its place spans both. Fails with `BadAssembly` where a
/// text holds a zero byte, and with `OutOfMemory` where the heap has no
/// room.
pub open spec fn constant_loaded(s: StateModel, d: DataModel) -> Result<
    (StateModel, Value),
    ErrorKind,
> {
    match d {
        DataModel::String(text) => match text_bytes(text) {
            None => Err(ErrorKind::BadAssembly),
            Some(bytes) => if bytes.len() > usize::MAX {
                Err(ErrorKind::OutOfMemory)
            } else {
                match s.allocated(bytes.len() as usize) {
                    None => Err(ErrorKind::OutOfMemory),
                    Some((s1, sv)) => {
                        let s2 = s1.written(sv.address as int, bytes);
                        match s2.allocated(word_size() as usize) {
                            None => Err(ErrorKind::OutOfMemory),
                            Some((s3, pv)) => if sv.size + pv.size > usize::MAX {
                                Err(ErrorKind::OutOfMemory)
                            } else {
                                Ok(
                                    (
                                        s3.written(
                                            pv.address as int,
                                            atom_bytes(sv.address, s.order),
                                        ),
                                        Value {
                                            address: sv.address,
                                            size: (sv.size + pv.size) as usize,
                                        },
                                    ),
                                )
                            },
                        }
                    },
                }
            },
        },
        _ => match s.allocated(number_width(d) as usize) {
            None => Err(ErrorKind::OutOfMemory),
            Some((s1, v)) => Ok((s1.written(v.address as int, number_bytes(d, s.order)), v)),
        },
    }
}

/// The state after the constants `data` were put into the heap in their
/// order, and the range that they take: from the lowest address of a
/// constant, as long as their sizes together. No range where there are
/// no constants.
pub open spec fn data_loaded(s: StateModel, data: Seq<DataModel>) -> Result<
    (StateModel, Option<Value>),
    ErrorKind,
>
    decreases data.len(),
{
    if data.len() == 0 {
        Ok((s, None))
    } else {
        match data_loaded(s, data.drop_last()) {
            Err(e) => Err(e),
            Ok((t, range)) => match constant_loaded(t, data.last()) {
                Err(e) => Err(e),
                Ok((u, v)) => match range {
                    None => Ok((u, Some(v))),
                    Some(r) => if r.size + v.size > usize::MAX {
                        Err(ErrorKind::OutOfMemory)
                    } else {
                        Ok(
                            (
                                u,
                                Some(
                                    Value {
                                        address: if v.address < r.address {
                                            v.address
                                        } else {
                                            r.address
                                        },
                                        size: (r.size + v.size) as usize,
                                    },
                                ),
                            ),
                        )
                    },
                },
            },
        }
    }
}

impl VmModel {
    /// What holds of every machine: its memory is well formed.
    pub open spec fn wf(self) -> bool {
        self.state.wf()
    }

    /// True when a step can be made: the machine runs and a function is
    /// on the call stack.
    pub open spec fn can_resume(self) -> bool {
        self.stage == ExecutionStage::Running && self.callstack.len() > 0
    }

    /// The frame that runs.
    pub open spec fn top(self) -> FrameModel {
        self.callstack.last()
    }

    pub open spec fn with_state(self, state: StateModel) -> VmModel {
        VmModel { state, ..self }
    }

    pub open spec fn with_stage(self, stage: ExecutionStage) -> VmModel {
        VmModel { stage, ..self }
    }

    pub open spec fn with_callstack(self, callstack: Seq<FrameModel>) -> VmModel {
        VmModel { callstack, ..self }
    }

    pub open spec fn with_pointers(self, pointers: Seq<usize>) -> VmModel {
        VmModel { pointers, ..self }
    }

    /// The machine with `frame` in place of the frame that runs.
    pub open spec fn with_top(self, frame: FrameModel) -> VmModel {
        self.with_callstack(self.callstack.update(self.callstack.len() - 1, frame))
    }

    /// The machine with the frame that runs going on at `address`.
    pub open spec fn jump(self, address: usize) -> VmModel {
        self.with_top(FrameModel { address, ..self.top() })
    }

    pub open spec fn push_pointer(self, a: usize) -> VmModel {
        self.with_pointers(self.pointers.push(a))
    }

    pub open spec fn drop_pointer(self) -> VmModel {
        self.with_pointers(self.pointers.drop_last())
    }

    /// The code of the function that runs.
    pub open spec fn code(self) -> Option<Seq<u8>> {
        match indexed(self.assembly.bodies, self.top().function) {
            Some(body) => Some(body.code),
            None => None,
        }
    }

    /// The offset of the label `id` in the function that runs.
    pub open spec fn label(self, id: Seq<char>) -> Option<usize> {
        if self.callstack.len() == 0 {
            None
        } else {
            match indexed(self.assembly.bodies, self.top().function) {
                Some(body) => crate::names::lookup(body.labels, id),
                None => None,
            }
        }
    }
}

/// The machine after the function at `function` was entered: the
/// parameters lie on top of the stack; a place for the result and one
/// for the locals are pushed, and a frame joins the call stack. Fails
/// with `BadStage` where the machine does not run, with `Resolution`
/// where the image has no such function, with `StackUnderflow` where
/// the stack holds fewer bytes than the parameters take, with
/// `TypeError` where the result's type has no size, and with
/// `StackOverflow` where the stack has no room.
pub open spec fn entered(m: VmModel, function: usize) -> Result<VmModel, ErrorKind> {
    if m.stage != ExecutionStage::Running {
        Err(ErrorKind::BadStage)
    } else {
        match indexed(m.assembly.functions, function) {
            None => Err(ErrorKind::Resolution),
            Some(f) => {
                let params = sum_sizes(sizes_of(f.params));
                let locals = sum_sizes(sizes_of(f.locals));
                if params > m.state.stack_pos {
                    Err(ErrorKind::StackUnderflow)
                } else {
                    let base = (m.state.stack_pos - params) as usize;
                    match f.typeid {
                        Some(t) => match type_size_of(m.assembly.structs, t) {
                            Some(n) => if n > usize::MAX {
                                Err(ErrorKind::TypeError)
                            } else if m.state.stack_pos + n > m.state.stack_size {
                                Err(ErrorKind::StackOverflow)
                            } else {
                                entered_with_result(
                                    m.with_state(m.state.reserved(n as usize)),
                                    f.index,
                                    base,
                                    Some(Value { address: m.state.stack_pos, size: n as usize }),
                                    locals,
                                )
                            },
                            None => Err(ErrorKind::TypeError),
                        },
                        None => entered_with_result(m, f.index, base, None, locals),
                    }
                }
            },
        }
    }
}

/// The last part of entering a function: the place for the locals and
/// the frame.
pub open spec fn entered_with_result(
    m: VmModel,
    index: usize,
    base: usize,
    result: Option<Value>,
    locals: nat,
) -> Result<VmModel, ErrorKind> {
    if locals == 0 {
        Ok(m.with_callstack(m.callstack.push(FrameModel::fresh(index, base, result, None))))
    } else if m.state.stack_pos + locals > m.state.stack_size {
        Err(ErrorKind::StackOverflow)
    } else {
        Ok(
            m.with_state(m.state.reserved(locals as usize)).with_callstack(
                m.callstack.push(
                    FrameModel::fresh(
                        index,
                        base,
                        result,
                        Some(Value { address: m.state.stack_pos, size: locals as usize }),
                    ),
                ),
            ),
        )
    }
}

/// The machine after the function that runs returned: its frame leaves
/// the call stack, the stack's top goes back to where it was before the
/// parameters were pushed, and the bytes of the result, if the function
/// has one, are pushed there. The address of the result, or zero, joins
/// the addresses. With no frame left the machine is complete. Fails with
/// `BadStage` where the machine does not run or no function runs, with
/// `OutOfBounds` where the result does not lie inside the memory, and
/// with `StackOverflow` where the stack's top cannot go back or the
/// result finds no room.
pub open spec fn returned(m: VmModel) -> Result<VmModel, ErrorKind> {
    if m.stage != ExecutionStage::Running || m.callstack.len() == 0 {
        Err(ErrorKind::BadStage)
    } else {
        let frame = m.top();
        let rest = m.callstack.drop_last();
        let stage = if rest.len() > 0 {
            ExecutionStage::Running
        } else {
            ExecutionStage::Complete
        };
        match frame.result {
            Some(v) => if !m.state.in_bounds(v.address as int, v.size as int) {
                Err(ErrorKind::OutOfBounds)
            } else if frame.params_stackpos >= m.state.stack_size || frame.params_stackpos + v.size
                > m.state.stack_size {
                Err(ErrorKind::StackOverflow)
            } else {
                Ok(
                    VmModel {
                        state: m.state.with_stack_pos(frame.params_stackpos).pushed(
                            m.state.window(v.address as int, v.size as int),
                        ),
                        callstack: rest,
                        pointers: m.pointers.push(frame.params_stackpos),
                        stage,
                        ..m
                    },
                )
            },
            None => if frame.params_stackpos >= m.state.stack_size {
                Err(ErrorKind::StackOverflow)
            } else {
                Ok(
                    VmModel {
                        state: m.state.with_stack_pos(frame.params_stackpos),
                        callstack: rest,
                        pointers: m.pointers.push(0),
                        stage,
                        ..m
                    },
                )
            },
        }
    }
}

/// The machine after the addresses on top of `pointers` were taken, one
/// for each of `sizes`, a block for the ranges was pushed on the stack
/// and the ranges were copied into it in the order of `sizes`; and the
/// address of the block. Fails with `BadAssembly` where there are fewer
/// addresses than sizes, with `StackOverflow` where the stack has no
/// room, and with `OutOfBounds` where a range does not lie inside the
/// memory.
pub open spec fn placed(m: VmModel, sizes: Seq<usize>) -> Result<(VmModel, usize), ErrorKind> {
    if m.pointers.len() < sizes.len() {
        Err(ErrorKind::BadAssembly)
    } else if m.state.stack_pos + sum_sizes(sizes) > m.state.stack_size {
        Err(ErrorKind::StackOverflow)
    } else {
        let base = m.state.stack_pos;
        match scatter(
            m.state.reserved(sum_sizes(sizes) as usize),
            gathered(sizes, m.pointers),
            base as int,
        ) {
            Err(e) => Err(e),
            Ok(state) => Ok(
                (
                    m.with_state(state).with_pointers(
                        m.pointers.take(m.pointers.len() - sizes.len()),
                    ),
                    base,
                ),
            ),
        }
    }
}

/// An opcode that pushes the address `off` bytes behind `base`.
pub open spec fn pointer_op(m: VmModel, next: int, base: Option<usize>, off: usize) -> Flow {
    match base {
        None => Flow::Fail(ErrorKind::BadAssembly),
        Some(b) => if b + off <= usize::MAX {
            Flow::Next(m.jump(next as usize).push_pointer((b + off) as usize), next)
        } else {
            Flow::Fail(ErrorKind::OutOfBounds)
        },
    }
}

/// The address of a range, if there is one.
pub open spec fn address_of(v: Option<Value>) -> Option<usize> {
    match v {
        Some(v) => Some(v.address),
        None => None,
    }
}

/// `ReferencePointer`: the topmost address is pushed on the stack as a
/// value, and the address of that value takes its place.
pub open spec fn reference_op(m: VmModel, next: int) -> Flow {
    if m.pointers.len() == 0 {
        Flow::Fail(ErrorKind::BadAssembly)
    } else if m.state.stack_pos + word_size() > m.state.stack_size {
        Flow::Fail(ErrorKind::StackOverflow)
    } else {
        Flow::Next(
            m.with_state(m.state.pushed(atom_bytes(m.pointers.last(), m.state.order))).with_pointers(
                m.pointers.drop_last().push(m.state.stack_pos),
            ).jump(next as usize),
            next,
        )
    }
}

/// `DereferencePointer`: the address that the memory holds at the
/// topmost address takes its place.
pub open spec fn dereference_op(m: VmModel, next: int) -> Flow {
    if m.pointers.len() == 0 {
        Flow::Fail(ErrorKind::BadAssembly)
    } else if !m.state.in_bounds(m.pointers.last() as int, word_size() as int) {
        Flow::Fail(ErrorKind::OutOfBounds)
    } else {
        Flow::Next(
            m.with_pointers(
                m.pointers.drop_last().push(
                    atom_of::<usize>(
                        m.state.window(m.pointers.last() as int, word_size() as int),
                        m.state.order,
                    ),
                ),
            ).jump(next as usize),
            next,
        )
    }
}

/// `StoreTargetAddress` and `StoreParamAddress`: the topmost address
/// joins the targets, or the parameters, of the operation being read.
pub open spec fn store_op(m: VmModel, next: int, target: bool) -> Flow {
    if m.pointers.len() == 0 {
        Flow::Fail(ErrorKind::BadAssembly)
    } else {
        let a = m.pointers.last();
        let top = m.top();
        Flow::Next(
            m.drop_pointer().with_top(
                if target {
                    FrameModel {
                        address: next as usize,
                        op_target_addresses: top.op_target_addresses.push(a),
                        ..top
                    }
                } else {
                    FrameModel {
                        address: next as usize,
                        op_param_addresses: top.op_param_addresses.push(a),
                        ..top
                    }
                },
            ),
            next,
        )
    }
}

/// `ExecuteOpStop`: the operation that was read goes to the processor.
pub open spec fn stop_op(m: VmModel, code: Seq<u8>, p: int) -> Flow {
    match parse_size(code, p) {
        None => Flow::Fail(ErrorKind::BadAssembly),
        Some((op, q)) => match indexed(m.assembly.ops, op) {
            None => Flow::Fail(ErrorKind::Resolution),
            Some(name) => Flow::Call(
                m.with_top(FrameModel { address: q as usize, ..m.top().cleared() }),
                PendingModel {
                    name,
                    params: m.top().op_param_addresses,
                    targets: m.top().op_target_addresses,
                    inline: None,
                    frame: (m.callstack.len() - 1) as usize,
                    resume_at: q as usize,
                    body_size: code.len() as usize,
                },
            ),
        },
    }
}

/// `ExecuteOpInlineStart`: a duplicate of the frame joins the call
/// stack, and the step is over.
pub open spec fn inline_start_op(m: VmModel, next: int) -> Flow {
    let top = FrameModel { address: next as usize, ..m.top() };
    Flow::Done(m.with_callstack(m.with_top(top).callstack.push(top.duplicate())), true)
}

/// `ExecuteOpInlineStop`: a place for the result is pushed on the stack
/// and joins the targets, the frame below goes on behind the opcode, and
/// the operation goes to the processor.
pub open spec fn inline_stop_op(m: VmModel, code: Seq<u8>, p: int) -> Flow {
    match parse_size(code, p) {
        None => Flow::Fail(ErrorKind::BadAssembly),
        Some((op, q)) => match parse_size(code, q) {
            None => Flow::Fail(ErrorKind::BadAssembly),
            Some((size, r)) => match indexed(m.assembly.ops, op) {
                None => Flow::Fail(ErrorKind::Resolution),
                Some(name) => if m.callstack.len() < 2 {
                    Flow::Fail(ErrorKind::BadAssembly)
                } else if m.state.stack_pos + size > m.state.stack_size {
                    Flow::Fail(ErrorKind::StackOverflow)
                } else {
                    let n = m.callstack.len() as int;
                    let v = Value { address: m.state.stack_pos, size };
                    Flow::Call(
                        m.with_state(m.state.reserved(size)).with_callstack(
                            m.callstack.update(n - 1, m.top().cleared()).update(
                                n - 2,
                                FrameModel { address: r as usize, ..m.callstack[n - 2] },
                            ),
                        ),
                        PendingModel {
                            name,
                            params: m.top().op_param_addresses,
                            targets: m.top().op_target_addresses.push(v.address),
                            inline: Some(v),
                            frame: (n - 1) as usize,
                            resume_at: r as usize,
                            body_size: code.len() as usize,
                        },
                    )
                },
            },
        },
    }
}

/// `ProduceTuple`: the parts of a tuple, whose addresses are on top of
/// the addresses, are copied into one block on the stack; its address
/// takes their place.
pub open spec fn tuple_op(m: VmModel, code: Seq<u8>, p: int) -> Flow {
    match parse_u64(code, p) {
        None => Flow::Fail(ErrorKind::BadAssembly),
        Some((count, q)) => match parse_seq(size_parser(), code, q, count as nat) {
            None => Flow::Fail(ErrorKind::BadAssembly),
            Some((sizes, r)) => match placed(m, sizes) {
                Err(e) => Flow::Fail(e),
                Ok((after, base)) => Flow::Next(after.push_pointer(base).jump(r as usize), r),
            },
        },
    }
}

/// `CallFunction`: the arguments, whose addresses are on top of the
/// addresses, are copied into one block on the stack, and the function
/// is entered. The step is over.
pub open spec fn call_op(m: VmModel, code: Seq<u8>, p: int) -> Flow {
    match parse_size(code, p) {
        None => Flow::Fail(ErrorKind::BadAssembly),
        Some((f, q)) => match indexed(m.assembly.functions, f) {
            None => Flow::Fail(ErrorKind::Resolution),
            Some(func) => match placed(m, sizes_of(func.params)) {
                Err(e) => Flow::Fail(e),
                Ok((after, _base)) => match entered(after.jump(q as usize), f) {
                    Err(e) => Flow::Fail(e),
                    Ok(inside) => Flow::Done(inside, true),
                },
            },
        },
    }
}

/// What the opcode at `pos` of `code` does to the machine.
pub open spec fn micro(m: VmModel, code: Seq<u8>, pos: int) -> Flow {
    match parse_u8(code, pos) {
        None => Flow::Fail(ErrorKind::BadAssembly),
        Some((op, p)) => if op == 1 || op == 2 || op == 4 || op == 5 || op == 6 {
            match parse_size(code, p) {
                None => Flow::Fail(ErrorKind::BadAssembly),
                Some((off, q)) => if op == 1 {
                    pointer_op(m, q, address_of(m.data), off)
                } else if op == 2 {
                    pointer_op(m, q, Some(m.top().params_stackpos), off)
                } else if op == 4 {
                    pointer_op(m, q, address_of(m.top().locals), off)
                } else if op == 5 {
                    pointer_op(m, q, address_of(m.globals), off)
                } else if m.pointers.len() == 0 {
                    Flow::Fail(ErrorKind::BadAssembly)
                } else {
                    pointer_op(m.drop_pointer(), q, Some(m.pointers.last()), off)
                },
            }
        } else if op == 3 {
            pointer_op(m, p, address_of(m.top().result), 0)
        } else if op == 7 {
            reference_op(m, p)
        } else if op == 8 {
            dereference_op(m, p)
        } else if op == 9 {
            store_op(m, p, true)
        } else if op == 10 {
            store_op(m, p, false)
        } else if op == 11 {
            Flow::Next(m.with_top(FrameModel { op_stackpos: m.state.stack_pos, ..m.top() }), p)
        } else if op == 12 {
            stop_op(m, code, p)
        } else if op == 13 {
            inline_start_op(m, p)
        } else if op == 14 {
            inline_stop_op(m, code, p)
        } else if op == 15 {
            tuple_op(m, code, p)
        } else if op == 16 {
            call_op(m, code, p)
        } else {
            Flow::Fail(ErrorKind::BadAssembly)
        },
    }
}

/// What the code does from `pos` on, until a step is over, an operation
/// goes to the processor, or an opcode fails.
pub open spec fn run(m: VmModel, code: Seq<u8>, pos: int) -> Flow
    decreases code.len() - pos,
{
    match micro(m, code, pos) {
        Flow::Next(after, next) => if pos < next <= code.len() {
            run(after, code, next)
        } else {
            Flow::Fail(ErrorKind::BadAssembly)
        },
        other => other,
    }
}

/// One step of the machine, up to the operation that goes to the
/// processor. Fails with `BadStage` where the machine does not run.
/// With no function on the call stack the machine is complete. A
/// function at the end of its code returns.
pub open spec fn advance(m: VmModel) -> Flow {
    if m.stage != ExecutionStage::Running {
        Flow::Fail(ErrorKind::BadStage)
    } else if m.callstack.len() == 0 {
        Flow::Done(m.with_stage(ExecutionStage::Complete), false)
    } else {
        match m.code() {
            None => Flow::Fail(ErrorKind::BadAssembly),
            Some(code) => if m.top().address >= code.len() {
                match returned(m) {
                    Ok(after) => Flow::Done(after, false),
                    Err(e) => Flow::Fail(e),
                }
            } else {
                run(m, code, m.top().address as int)
            },
        }
    }
}

/// The machine after the processor ran the operation `pending` and
/// answered `action`. After an inline operation the duplicate frame
/// leaves the call stack and the address of the result joins the
/// addresses. After another operation the stack's top goes back to
/// where it was when the operation began; then the function returns
/// where the processor said so, or where it said nothing and the code is
/// at its end or the machine cannot go on; and it goes on at the offset
/// where the processor named one. Fails with `BadStage` where the frame
/// of the operation is not on the call stack, with `StackOverflow`
/// where the stack's top cannot go back, and as the return fails.
pub open spec fn completed(m: VmModel, pending: PendingModel, action: OpAction) -> Result<
    VmModel,
    ErrorKind,
> {
    match pending.inline {
        Some(v) => Ok(
            m.with_callstack(
                if m.callstack.len() > 0 {
                    m.callstack.drop_last()
                } else {
                    m.callstack
                },
            ).push_pointer(v.address),
        ),
        None => if pending.frame >= m.callstack.len() {
            Err(ErrorKind::BadStage)
        } else if m.callstack[pending.frame as int].op_stackpos >= m.state.stack_size {
            Err(ErrorKind::StackOverflow)
        } else {
            let i = pending.frame as int;
            let frame = FrameModel { op_stackpos: 0, ..m.callstack[i] };
            let reset = m.with_state(
                m.state.with_stack_pos(m.callstack[i].op_stackpos),
            ).with_callstack(m.callstack.update(i, frame));
            match action {
                OpAction::Continue => if pending.resume_at >= pending.body_size
                    || !reset.can_resume() {
                    returned(reset)
                } else {
                    Ok(reset)
                },
                OpAction::GoTo(a) => Ok(
                    reset.with_callstack(reset.callstack.update(i, FrameModel { address: a, ..frame })),
                ),
                OpAction::Return => returned(reset),
            }
        },
    }
}

/// The machine after it was started at the exported function `entry`:
/// the constants and the globals are in the heap, the machine runs, and
/// the function is entered. Fails with `BadStage` where the machine was
/// started before, with `Resolution` where the image exports no such
/// function, with `BadEntry` where the function takes parameters or
/// gives a result, and as loading the constants, taking the globals and
/// entering the function fail.
pub open spec fn started(m: VmModel, entry: Seq<char>) -> Result<VmModel, ErrorKind> {
    if m.stage != ExecutionStage::Uninitialized {
        Err(ErrorKind::BadStage)
    } else {
        match named(m.assembly.export_functions, m.assembly.functions, entry) {
            None => Err(ErrorKind::Resolution),
            Some(f) => if f.params.len() > 0 || f.typeid is Some {
                Err(ErrorKind::BadEntry)
            } else {
                match data_loaded(m.state, m.assembly.data) {
                    Err(e) => Err(e),
                    Ok((s1, data)) => match s1.allocated(m.assembly.globals_size) {
                        None => Err(ErrorKind::OutOfMemory),
                        Some((s2, globals)) => entered(
                            VmModel {
                                state: s2,
                                data,
                                globals: Some(globals),
                                stage: ExecutionStage::Running,
                                ..m
                            },
                            f.index,
                        ),
                    },
                }
            },
        }
    }
}

/// True when a start at `entry` is refused before anything is done: the
/// machine was started before, the image exports no such function, or
/// the function takes parameters or gives a result.
pub open spec fn refused(m: VmModel, entry: Seq<char>) -> bool {
    m.stage != ExecutionStage::Uninitialized || match named(
        m.assembly.export_functions,
        m.assembly.functions,
        entry,
    ) {
        None => true,
        Some(f) => f.params.len() > 0 || f.typeid is Some,
    }
}

/// True when `after` has the frames, the addresses and the image of
/// `before`.
pub open spec fn same_frames(before: VmModel, after: VmModel) -> bool {
    after.callstack == before.callstack && after.pointers == before.pointers && after.assembly
        == before.assembly
}

/// How the steps end that follow each other at once: a step that enters
/// a function or an inline operation is followed by the next, as long
/// as the call stack grows and the host can count it; the step that
/// ends otherwise is the last.
pub open spec fn eventual(m: VmModel) -> Flow
    decreases usize::MAX - m.callstack.len(),
{
    match advance(m) {
        Flow::Done(after, true) => if m.callstack.len() < after.callstack.len() <= usize::MAX {
            eventual(after)
        } else {
            Flow::Done(after, true)
        },
        other => other,
    }
}

/// How a run to the end ends, as far as no processor is asked.
pub enum Drained {
    /// No step can follow: this is the machine.
    Settled(VmModel),
    /// A step failed.
    Failed(ErrorKind),
    /// More steps were needed than were allowed.
    Spent,
    /// The processor was asked: what follows is its answer's.
    Asked,
}

/// How a run of at most `fuel` rounds ends: each round makes the steps
/// that follow each other at once; the run is over when no step can
/// follow.
pub open spec fn drained(m: VmModel, fuel: nat) -> Drained
    decreases fuel,
{
    if !m.can_resume() {
        Drained::Settled(m)
    } else if fuel == 0 {
        Drained::Spent
    } else {
        match eventual(m) {
            Flow::Fail(kind) => Drained::Failed(kind),
            Flow::Done(after, false) => drained(after, (fuel - 1) as nat),
            _ => Drained::Asked,
        }
    }
}

} // verus!
