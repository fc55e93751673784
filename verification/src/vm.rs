//! The machine: it owns a memory, runs the code of an image function by
//! function, and hands each operation to the host's processor.

use crate::error::{ErrorKind, SimpleError, SimpleResult};
use crate::image::{
    lemma_parse_seq_fails, parse_seq, read_size, read_u64, read_u8, views, Data, OpIndex, Variable,
    VmAssembly,
};
use crate::machine::{
    address_of, advance, call_op, completed, constant_loaded, data_loaded, entered,
    entered_with_result, gathered, inline_start_op, inline_stop_op, micro, parts_total, placed,
    pointer_op, reference_op, dereference_op, returned, run, scatter, size_parser, sizes_of,
    drained, eventual, refused, same_frames, started, stop_op, store_op, sum_sizes, text_bytes,
    tuple_op, Drained, Flow, FrameModel, PendingModel, VmModel,
};
use crate::processor::{OpAction, Processor};
use crate::image::host_word_size;
use crate::state::{State, StateModel, Value};
use vstd::slice::slice_to_vec;
use std::sync::Arc;
use crate::checks::Rule;
use crate::encode::{encode_assembly, encoded};
use crate::program::{Module, OpRule, OpsDescriptor, Program};
use crate::validator::{compile_program, program_ok, rules_of, DeepValidator};
use vstd::prelude::*;

verus! {

pub use crate::machine::ExecutionStage;

/// `Arc::clone`: another handle to the same image.
#[verifier::external_body]
fn share(image: &Arc<VmAssembly>) -> (r: Arc<VmAssembly>)
    ensures
        r@ == image@,
{
    Arc::clone(image)
}

fn fail<T>(kind: ErrorKind, message: &str) -> (r: SimpleResult<T>)
    ensures
        r matches Err(e) && e.kind == kind,
{
    Err(SimpleError::of(kind, message))
}

/// A frame of the call stack: the function that runs, where it goes on,
/// and the places of its parameters, its result and its locals on the
/// stack.
#[derive(Debug, Clone)]
pub struct CallStackFrame {
    function: usize,
    address: usize,
    params_stackpos: usize,
    result: Option<Value>,
    locals: Option<Value>,
    op_target_addresses: Vec<usize>,
    op_param_addresses: Vec<usize>,
    op_stackpos: usize,
}

impl View for CallStackFrame {
    type V = FrameModel;

    closed spec fn view(&self) -> FrameModel {
        FrameModel {
            function: self.function,
            address: self.address,
            params_stackpos: self.params_stackpos,
            result: self.result,
            locals: self.locals,
            op_target_addresses: self.op_target_addresses@,
            op_param_addresses: self.op_param_addresses@,
            op_stackpos: self.op_stackpos,
        }
    }
}

impl CallStackFrame {
    pub(crate) fn new(
        function: usize,
        address: usize,
        params_stackpos: usize,
        result: Option<Value>,
        locals: Option<Value>,
    ) -> (r: Self)
        ensures
            r@ == (FrameModel { address, ..FrameModel::fresh(function, params_stackpos, result, locals) }),
    {
        CallStackFrame {
            function,
            address,
            params_stackpos,
            result,
            locals,
            op_target_addresses: Vec::new(),
            op_param_addresses: Vec::new(),
            op_stackpos: 0,
        }
    }

    pub fn function(&self) -> (r: usize)
        ensures
            r == self@.function,
    {
        self.function
    }

    pub fn address(&self) -> (r: usize)
        ensures
            r == self@.address,
    {
        self.address
    }

    pub fn params_stackpos(&self) -> (r: usize)
        ensures
            r == self@.params_stackpos,
    {
        self.params_stackpos
    }

    pub fn result(&self) -> (r: &Option<Value>)
        ensures
            *r == self@.result,
    {
        &self.result
    }

    pub fn locals(&self) -> (r: &Option<Value>)
        ensures
            *r == self@.locals,
    {
        &self.locals
    }

    pub fn op_target_addresses(&self) -> (r: &[usize])
        ensures
            r@ == self@.op_target_addresses,
    {
        self.op_target_addresses.as_slice()
    }

    pub fn op_param_addresses(&self) -> (r: &[usize])
        ensures
            r@ == self@.op_param_addresses,
    {
        self.op_param_addresses.as_slice()
    }

    /// Takes the addresses of the parameters and of the targets of the
    /// operation that was read out of the frame.
    pub(crate) fn collect_params_targets(&mut self) -> (r: (Vec<usize>, Vec<usize>))
        ensures
            r.0@ == old(self)@.op_param_addresses,
            r.1@ == old(self)@.op_target_addresses,
            final(self)@ == old(self)@.cleared(),
    {
        let mut params: Vec<usize> = Vec::new();
        let mut targets: Vec<usize> = Vec::new();
        core::mem::swap(&mut params, &mut self.op_param_addresses);
        core::mem::swap(&mut targets, &mut self.op_target_addresses);
        (params, targets)
    }

    /// The frame in which an inline operation is read.
    pub(crate) fn duplicate(&self) -> (r: Self)
        ensures
            r@ == self@.duplicate(),
    {
        CallStackFrame {
            function: self.function,
            address: self.address,
            params_stackpos: self.params_stackpos,
            result: self.result,
            locals: self.locals,
            op_target_addresses: Vec::new(),
            op_param_addresses: Vec::new(),
            op_stackpos: 0,
        }
    }
}

/// An operation that the processor is to run.
#[derive(Debug, Clone)]
pub struct PendingOp {
    pub name: String,
    pub params: Vec<usize>,
    pub targets: Vec<usize>,
    /// The place of the result of an inline operation.
    pub inline: Option<Value>,
    /// The index of the frame that reads the code.
    pub frame: usize,
    /// The offset behind the operation in the code.
    pub resume_at: usize,
    /// The length of the code.
    pub body_size: usize,
}

impl View for PendingOp {
    type V = PendingModel;

    open spec fn view(&self) -> PendingModel {
        PendingModel {
            name: self.name@,
            params: self.params@,
            targets: self.targets@,
            inline: self.inline,
            frame: self.frame,
            resume_at: self.resume_at,
            body_size: self.body_size,
        }
    }
}

/// How a step of the code ended.
#[derive(Debug, Clone)]
pub enum Step {
    /// The code goes on at the offset.
    Next(usize),
    /// The step is over; with `true` the next step follows at once.
    Done(bool),
    /// The processor is to run an operation.
    Call(PendingOp),
}

/// What a step owes: the outcome that the meaning of the code gives, and
/// the machine that it gives.
pub open spec fn flows(r: SimpleResult<Step>, after: VmModel, expected: Flow) -> bool {
    match expected {
        Flow::Next(m, p) => r matches Ok(Step::Next(q)) && q == p && after == m,
        Flow::Done(m, more) => r matches Ok(Step::Done(b)) && b == more && after == m,
        Flow::Call(m, pending) => r matches Ok(Step::Call(x)) && x@ == pending && after == m,
        Flow::Fail(kind) => r matches Err(e) && e.kind == kind,
    }
}

/// True when `image` is what the decoder reads in the bytes that the
/// encoder gives for `program`, and `program` is in order by the rules
/// `rules`, which say what the rules `given` of a descriptor say.
pub open spec fn made_of(
    image: crate::image::ImageModel,
    program: Program,
    rules: Seq<Rule>,
    given: Seq<OpRule>,
) -> bool {
    &&& rules_of(rules, given)
    &&& program_ok(program, rules)
    &&& encoded(program, given) is Ok
    &&& crate::image::parse_image(encoded(program, given)->Ok_0) == Some(image)
}

/// What a run to the end owes: the machine in which no step can follow,
/// the failure of a step, or `Host` where the rounds were spent.
/// Nothing is owed once the processor was asked.
pub open spec fn drained_outcome<T>(r: SimpleResult<T>, after: VmModel, expected: Drained) -> bool {
    match expected {
        Drained::Settled(m) => r is Ok && after == m,
        Drained::Failed(kind) => r matches Err(e) && e.kind == kind,
        Drained::Spent => r matches Err(e) && e.kind == ErrorKind::Host,
        Drained::Asked => true,
    }
}

/// What a change of the machine owes: the machine that the meaning
/// gives, or the failure that it gives.
pub open spec fn outcome<T>(r: SimpleResult<T>, after: VmModel, expected: Result<VmModel, ErrorKind>) -> bool {
    match expected {
        Ok(m) => r is Ok && after == m,
        Err(kind) => r matches Err(e) && e.kind == kind,
    }
}

/// The sum of a list of sizes is at least that of each of its prefixes.
pub proof fn lemma_sum_sizes_prefix(sizes: Seq<usize>, k: int)
    requires
        0 <= k <= sizes.len(),
    ensures
        sum_sizes(sizes.take(k)) <= sum_sizes(sizes),
    decreases sizes.len(),
{
    if k == sizes.len() {
        assert(sizes.take(k) =~= sizes);
    } else {
        assert(sizes.drop_last().take(k) =~= sizes.take(k));
        lemma_sum_sizes_prefix(sizes.drop_last(), k);
    }
}

/// Where copying the first ranges fails, copying all of them fails in
/// the same way.
pub proof fn lemma_scatter_fails(s: crate::state::StateModel, parts: Seq<(usize, usize)>, base: int, k: int)
    requires
        0 <= k <= parts.len(),
        scatter(s, parts.take(k), base) is Err,
    ensures
        scatter(s, parts, base) == scatter(s, parts.take(k), base),
    decreases parts.len(),
{
    if k == parts.len() {
        assert(parts.take(k) =~= parts);
    } else {
        assert(parts.drop_last().take(k) =~= parts.take(k));
        lemma_scatter_fails(s, parts.drop_last(), base, k);
    }
}

/// Copying ranges leaves the state well formed, with its stack and its
/// free blocks as they were.
pub proof fn lemma_scatter_keeps(s: crate::state::StateModel, parts: Seq<(usize, usize)>, base: int)
    requires
        s.wf(),
    ensures
        scatter(s, parts, base) matches Ok(t) ==> t.wf() && t.stack_pos == s.stack_pos
            && t.stack_size == s.stack_size && t.memory_size == s.memory_size && t.free == s.free
            && t.order == s.order,
    decreases parts.len(),
{
    if parts.len() > 0 {
        lemma_scatter_keeps(s, parts.drop_last(), base);
    }
}

/// The sum of the sizes of `vars`; none where it does not fit the host's
/// address range.
fn total_size(vars: &[Variable]) -> (r: Option<usize>)
    ensures
        match r {
            Some(n) => n == sum_sizes(sizes_of(views(vars@))),
            None => sum_sizes(sizes_of(views(vars@))) > usize::MAX,
        },
{
    let ghost sizes = sizes_of(views(vars@));
    let mut total: usize = 0;
    let mut i: usize = 0;
    assert(sizes.take(0) =~= Seq::<usize>::empty());
    while i < vars.len()
        invariant
            i <= vars@.len(),
            sizes == sizes_of(views(vars@)),
            total == sum_sizes(sizes.take(i as int)),
        decreases vars@.len() - i,
    {
        proof {
            assert(sizes.take(i + 1).drop_last() =~= sizes.take(i as int));
            assert(sizes.take(i + 1).last() == views(vars@)[i as int].size);
            lemma_sum_sizes_prefix(sizes, i + 1);
        }
        total = match total.checked_add(vars[i].size()) {
            Some(n) => n,
            None => { return None; },
        };
        i = i + 1;
    }
    assert(sizes.take(i as int) =~= sizes);
    Some(total)
}

/// The sizes of `vars`.
fn sizes_list(vars: &[Variable]) -> (r: Vec<usize>)
    ensures
        r@ == sizes_of(views(vars@)),
{
    let mut out: Vec<usize> = Vec::new();
    let mut i: usize = 0;
    while i < vars.len()
        invariant
            i <= vars@.len(),
            out@.len() == i,
            forall|k: int| 0 <= k < i ==> out@[k] == views(vars@)[k].size,
        decreases vars@.len() - i,
    {
        out.push(vars[i].size());
        i = i + 1;
    }
    assert(out@ =~= sizes_of(views(vars@)));
    out
}

/// `count` sizes from `start` on in the code.
fn read_sizes(code: &[u8], start: usize, count: u64) -> (r: SimpleResult<(Vec<usize>, usize)>)
    ensures
        match r {
            Ok((v, p)) => parse_seq(size_parser(), code@, start as int, count as nat) == Some(
                (v@, p as int),
            ),
            Err(e) => parse_seq(size_parser(), code@, start as int, count as nat) is None && e.kind
                == ErrorKind::BadAssembly,
        },
{
    let mut items: Vec<usize> = Vec::new();
    let mut at: usize = start;
    let mut i: u64 = 0;
    while i < count
        invariant
            i <= count,
            parse_seq(size_parser(), code@, start as int, i as nat) == Some((items@, at as int)),
        decreases count - i,
    {
        proof {
            if crate::image::parse_size(code@, at as int) is None {
                assert(parse_seq(size_parser(), code@, start as int, (i + 1) as nat) is None);
                lemma_parse_seq_fails(size_parser(), code@, start as int, (i + 1) as nat, count as nat);
            }
        }
        let (x, q) = read_size(code, at)?;
        items.push(x);
        at = q;
        i = i + 1;
    }
    Ok((items, at))
}

/// A machine: an image, a memory, the call stack, and the addresses that
/// the code works with.
#[derive(Debug)]
pub struct Vm {
    assembly: Arc<VmAssembly>,
    state: State,
    stage: ExecutionStage,
    callstack: Vec<CallStackFrame>,
    data: Option<Value>,
    globals: Option<Value>,
    pointers: Vec<usize>,
}

impl View for Vm {
    type V = VmModel;

    closed spec fn view(&self) -> VmModel {
        VmModel {
            assembly: self.assembly@,
            state: self.state@,
            stage: self.stage,
            callstack: views(self.callstack@),
            data: self.data,
            globals: self.globals,
            pointers: self.pointers@,
        }
    }
}

/// What is wrong with the sizes of a machine's stack and heap: each must
/// be positive and a multiple of four, and both together must fit the
/// host's address range.
pub open spec fn region_fault(stack_size: usize, memory_size: usize) -> Option<ErrorKind> {
    if stack_size == 0 || stack_size % 4 != 0 || memory_size == 0 || memory_size % 4 != 0 {
        Some(ErrorKind::UnalignedRegionSize)
    } else if stack_size + memory_size > usize::MAX {
        Some(ErrorKind::OutOfBounds)
    } else {
        None
    }
}

/// True of a machine that was made and not started: its memory holds
/// zero bytes, its stack is empty, its heap is one free block, and it
/// has no frame, no address and no constants.
pub open spec fn is_fresh(m: VmModel, stack_size: usize, memory_size: usize) -> bool {
    &&& m.wf()
    &&& m.state.bytes == crate::state::zeros((stack_size + memory_size) as nat)
    &&& m.state.stack_size == stack_size
    &&& m.state.memory_size == memory_size
    &&& m.state.stack_pos == 0
    &&& m.state.free == seq![(0usize, memory_size)]
    &&& m.stage == ExecutionStage::Uninitialized
    &&& m.callstack.len() == 0
    &&& m.pointers.len() == 0
    &&& m.data is None
    &&& m.globals is None
}

impl Vm {
    /// What holds of every machine.
    pub open spec fn wf(&self) -> bool {
        self@.wf()
    }

    fn make(assembly: Arc<VmAssembly>, stack_size: usize, memory_size: usize) -> (r: SimpleResult<
        Self,
    >)
        ensures
            match r {
                Ok(vm) => region_fault(stack_size, memory_size) is None && vm@.assembly
                    == assembly@ && is_fresh(vm@, stack_size, memory_size),
                Err(e) => region_fault(stack_size, memory_size) == Some(e.kind),
            },
    {
        if stack_size == 0 || stack_size % 4 != 0 {
            return fail(
                ErrorKind::UnalignedRegionSize,
                "the stack's size is not a positive multiple of four bytes",
            );
        }
        if memory_size == 0 || memory_size % 4 != 0 {
            return fail(
                ErrorKind::UnalignedRegionSize,
                "the heap's size is not a positive multiple of four bytes",
            );
        }
        if memory_size > usize::MAX - stack_size {
            return fail(
                ErrorKind::OutOfBounds,
                "the stack and the heap together exceed the host's address range",
            );
        }
        let vm = Vm {
            assembly,
            state: State::new(stack_size, memory_size),
            stage: ExecutionStage::Uninitialized,
            callstack: Vec::new(),
            data: None,
            globals: None,
            pointers: Vec::new(),
        };
        Ok(vm)
    }

    /// A machine for the image `assembly`, not yet started. Fails as
    /// `region_fault` says.
    pub fn new(assembly: VmAssembly, stack_size: usize, memory_size: usize) -> (r: SimpleResult<
        Self,
    >)
        ensures
            match r {
                Ok(vm) => region_fault(stack_size, memory_size) is None && vm@.assembly
                    == assembly@ && is_fresh(vm@, stack_size, memory_size),
                Err(e) => region_fault(stack_size, memory_size) == Some(e.kind),
            },
    {
        Self::make(Arc::new(assembly), stack_size, memory_size)
    }

    /// A machine for the image that `bytes` hold. Fails with
    /// `BadAssembly` where they hold none, and else as `region_fault`
    /// says.
    pub fn from_bytes(bytes: Vec<u8>, stack_size: usize, memory_size: usize) -> (r: SimpleResult<
        Self,
    >)
        ensures
            match r {
                Ok(vm) => crate::image::parse_image(bytes@) == Some(vm@.assembly) && region_fault(
                    stack_size,
                    memory_size,
                ) is None && is_fresh(vm@, stack_size, memory_size),
                Err(e) => if crate::image::parse_image(bytes@) is None {
                    e.kind == ErrorKind::BadAssembly
                } else {
                    region_fault(stack_size, memory_size) == Some(e.kind)
                },
            },
    {
        let assembly = VmAssembly::new(bytes)?;
        Self::new(assembly, stack_size, memory_size)
    }

    /// A machine for the program of the modules, as the dialect `V` of
    /// the rules lets it pass, with `main` of the first module of the
    /// path `entry_path` as its beginning: a fresh machine whose image
    /// is what the decoder reads in the bytes that the encoder gives
    /// for a program in order. Fails as the passes over the program,
    /// the encoder and `region_fault` say.
    pub fn from_source<V: DeepValidator>(
        entry_path: &str,
        modules: Vec<Module>,
        ops_descriptor: &OpsDescriptor,
        stack_size: usize,
        memory_size: usize,
    ) -> (r: SimpleResult<Self>)
        ensures
            r matches Ok(vm) ==> region_fault(stack_size, memory_size) is None && is_fresh(
                vm@,
                stack_size,
                memory_size,
            ),
            r matches Ok(vm) ==> (exists|program: Program, rules: Seq<Rule>|
                made_of(vm@.assembly, program, rules, ops_descriptor.rules@)),
            region_fault(stack_size, memory_size) is Some ==> r is Err,
    {
        let program = compile_program::<V>(entry_path, modules, ops_descriptor)?;
        let bytes = encode_assembly(&program, ops_descriptor)?;
        let r = Self::from_bytes(bytes, stack_size, memory_size);
        proof {
            if r is Ok {
                let rules = choose|rules: Seq<Rule>|
                    rules_of(rules, ops_descriptor.rules@) && program_ok(program, rules);
                assert(made_of(r->Ok_0@.assembly, program, rules, ops_descriptor.rules@));
            }
        }
        r
    }

    /// A fresh machine for the same image, with a memory of the same
    /// sizes. This machine is not changed.
    pub fn fork(&self) -> (r: SimpleResult<Self>)
        ensures
            match r {
                Ok(vm) => region_fault(self@.state.stack_size, self@.state.memory_size) is None
                    && vm@.assembly == self@.assembly && is_fresh(
                    vm@,
                    self@.state.stack_size,
                    self@.state.memory_size,
                ),
                Err(e) => region_fault(self@.state.stack_size, self@.state.memory_size) == Some(
                    e.kind,
                ),
            },
    {
        self.fork_advanced(self.state.stack_size(), self.state.memory_size())
    }

    /// A fresh machine for the same image, with a memory of the given
    /// sizes. This machine is not changed.
    pub fn fork_advanced(&self, stack_size: usize, memory_size: usize) -> (r: SimpleResult<Self>)
        ensures
            match r {
                Ok(vm) => region_fault(stack_size, memory_size) is None && vm@.assembly
                    == self@.assembly && is_fresh(vm@, stack_size, memory_size),
                Err(e) => region_fault(stack_size, memory_size) == Some(e.kind),
            },
    {
        Self::make(share(&self.assembly), stack_size, memory_size)
    }

    pub fn assembly(&self) -> (r: &VmAssembly)
        ensures
            r@ == self@.assembly,
    {
        &self.assembly
    }

    pub fn state(&self) -> (r: &State)
        ensures
            r@ == self@.state,
    {
        &self.state
    }

    /// The memory, to read and to write. The machine is changed only as
    /// its memory is.
    pub fn state_mut(&mut self) -> (r: &mut State)
        ensures
            r@ == old(self)@.state,
            final(self)@ == old(self)@.with_state(final(r)@),
    {
        &mut self.state
    }

    pub fn stage(&self) -> (r: ExecutionStage)
        ensures
            r == self@.stage,
    {
        self.stage
    }

    /// The frames of the call stack, the one that runs last.
    pub fn callstack(&self) -> (r: &[CallStackFrame])
        ensures
            views(r@) == self@.callstack,
    {
        self.callstack.as_slice()
    }

    /// The addresses that the code has computed and not yet used.
    pub fn pointers(&self) -> (r: &[usize])
        ensures
            r@ == self@.pointers,
    {
        self.pointers.as_slice()
    }

    /// The range of the constants in the heap.
    pub fn data(&self) -> (r: Option<Value>)
        ensures
            r == self@.data,
    {
        self.data
    }

    /// The range of the globals in the heap.
    pub fn globals(&self) -> (r: Option<Value>)
        ensures
            r == self@.globals,
    {
        self.globals
    }

    /// True when a step can be made: the machine runs and a function is
    /// on the call stack.
    pub fn can_resume(&self) -> (r: bool)
        ensures
            r == self@.can_resume(),
            r <==> self@.stage == ExecutionStage::Running && self@.callstack.len() > 0,
    {
        self.stage == ExecutionStage::Running && self.callstack.len() > 0
    }

    /// The offset of the label `id` in the code of the function that
    /// runs.
    pub fn find_label(&self, id: &str) -> (r: Option<usize>)
        ensures
            r == self@.label(id@),
    {
        let n = self.callstack.len();
        if n == 0 {
            return None;
        }
        assert(self@.top() == self.callstack@[n - 1]@);
        match self.assembly.function_body_by_index(self.callstack[n - 1].function) {
            Some(body) => match body.labels().get(id) {
                Some(a) => Some(*a),
                None => None,
            },
            None => None,
        }
    }

    /// Makes the frame that runs go on at `address`.
    fn set_address(&mut self, address: usize)
        requires
            old(self)@.callstack.len() > 0,
        ensures
            final(self)@ == old(self)@.jump(address),
    {
        let n = self.callstack.len();
        let mut frame = self.callstack.pop().unwrap();
        frame.address = address;
        self.callstack.push(frame);
        assert(self@.callstack =~= old(self)@.jump(address).callstack);
    }

    /// The frame that runs, taken off the call stack.
    fn take_top(&mut self) -> (frame: CallStackFrame)
        requires
            old(self)@.callstack.len() > 0,
        ensures
            frame@ == old(self)@.top(),
            final(self)@ == old(self)@.with_callstack(old(self)@.callstack.drop_last()),
    {
        let frame = self.callstack.pop().unwrap();
        assert(self@.callstack =~= old(self)@.callstack.drop_last());
        frame
    }

    fn push_frame(&mut self, frame: CallStackFrame)
        ensures
            final(self)@ == old(self)@.with_callstack(old(self)@.callstack.push(frame@)),
    {
        self.callstack.push(frame);
        assert(self@.callstack =~= old(self)@.callstack.push(frame@));
    }
}

fn addr_of(v: Option<Value>) -> (r: Option<usize>)
    ensures
        r == address_of(v),
{
    match v {
        Some(v) => Some(v.address),
        None => None,
    }
}

/// Puts the constant `d` into the heap and gives its place.
fn load_constant(state: &mut State, d: &Data) -> (r: SimpleResult<Value>)
    requires
        old(state).wf(),
    ensures
        final(state).wf(),
        match constant_loaded(old(state)@, d@) {
            Ok((s, v)) => r matches Ok(x) && x == v && final(state)@ == s,
            Err(kind) => r matches Err(e) && e.kind == kind,
        },
{
    match d {
        Data::I8(v) => {
            let r = state.alloc_memory_value(1)?;
            state.store_data(r.address, v)?;
            Ok(r)
        },
        Data::U8(v) => {
            let r = state.alloc_memory_value(1)?;
            state.store_data(r.address, v)?;
            Ok(r)
        },
        Data::I16(v) => {
            let r = state.alloc_memory_value(2)?;
            state.store_data(r.address, v)?;
            Ok(r)
        },
        Data::U16(v) => {
            let r = state.alloc_memory_value(2)?;
            state.store_data(r.address, v)?;
            Ok(r)
        },
        Data::I32(v) => {
            let r = state.alloc_memory_value(4)?;
            state.store_data(r.address, v)?;
            Ok(r)
        },
        Data::U32(v) => {
            let r = state.alloc_memory_value(4)?;
            state.store_data(r.address, v)?;
            Ok(r)
        },
        Data::I64(v) => {
            let r = state.alloc_memory_value(8)?;
            state.store_data(r.address, v)?;
            Ok(r)
        },
        Data::U64(v) => {
            let r = state.alloc_memory_value(8)?;
            state.store_data(r.address, v)?;
            Ok(r)
        },
        Data::F32(v) => {
            let r = state.alloc_memory_value(4)?;
            state.store_data(r.address, v)?;
            Ok(r)
        },
        Data::F64(v) => {
            let r = state.alloc_memory_value(8)?;
            state.store_data(r.address, v)?;
            Ok(r)
        },
        Data::Isize(v) => {
            let r = state.alloc_memory_value(host_word_size())?;
            state.store_data(r.address, v)?;
            Ok(r)
        },
        Data::Usize(v) => {
            let r = state.alloc_memory_value(host_word_size())?;
            state.store_data(r.address, v)?;
            Ok(r)
        },
        Data::String(text) => {
            let raw = text.as_str().as_bytes();
            let mut i: usize = 0;
            while i < raw.len()
                invariant
                    i <= raw@.len(),
                    state.wf(),
                    state@ == old(state)@,
                    d@ == crate::image::DataModel::String(text@),
                    raw@ == vstd::utf8::encode_utf8(text@),
                    forall|k: int| 0 <= k < i ==> raw@[k] != 0,
                decreases raw@.len() - i,
            {
                if raw[i] == 0 {
                    assert(raw@.contains(0u8));
                    return fail(ErrorKind::BadAssembly, "a text of the constants holds a zero byte");
                }
                i = i + 1;
            }
            assert(!raw@.contains(0u8));
            let mut bytes = slice_to_vec(raw);
            bytes.push(0);
            assert(text_bytes(text@) == Some(bytes@));
            let sv = state.alloc_memory_value(bytes.len())?;
            state.store_bytes(sv.address, bytes.as_slice())?;
            let pv = state.alloc_memory_value(host_word_size())?;
            state.store_data(pv.address, &sv.address)?;
            match sv.size.checked_add(pv.size) {
                Some(size) => Ok(Value { address: sv.address, size }),
                None => fail(ErrorKind::OutOfMemory, "the constants exceed the host's address range"),
            }
        },
    }
}

impl Vm {
    fn pop_pointer(&mut self) -> (r: Option<usize>)
        ensures
            match r {
                Some(a) => old(self)@.pointers.len() > 0 && a == old(self)@.pointers.last()
                    && final(self)@ == old(self)@.drop_pointer(),
                None => old(self)@.pointers.len() == 0 && final(self)@ == old(self)@,
            },
    {
        self.pointers.pop()
    }

    fn push_pointer(&mut self, a: usize)
        ensures
            final(self)@ == old(self)@.push_pointer(a),
    {
        self.pointers.push(a);
    }

    fn pointer_step(&mut self, next: usize, base: Option<usize>, off: usize) -> (r: SimpleResult<
        Step,
    >)
        requires
            old(self).wf(),
            old(self)@.callstack.len() > 0,
        ensures
            final(self).wf(),
            flows(r, final(self)@, pointer_op(old(self)@, next as int, base, off)),
    {
        match base {
            None => fail(ErrorKind::BadAssembly, "the code refers to a place that is not there"),
            Some(b) => match b.checked_add(off) {
                Some(a) => {
                    self.set_address(next);
                    self.push_pointer(a);
                    Ok(Step::Next(next))
                },
                None => fail(ErrorKind::OutOfBounds, "an address exceeds the host's address range"),
            },
        }
    }

    /// Takes one address for each of `sizes`, pushes a block for the
    /// ranges on the stack, copies them into it, and gives its address.
    fn place(&mut self, sizes: &[usize]) -> (r: SimpleResult<usize>)
        requires
            old(self).wf(),
        ensures
            final(self).wf(),
            match placed(old(self)@, sizes@) {
                Ok((m, base)) => r matches Ok(b) && b == base && final(self)@ == m,
                Err(kind) => r matches Err(e) && e.kind == kind,
            },
    {
        let n = sizes.len();
        let have = self.pointers.len();
        if have < n {
            return fail(ErrorKind::BadAssembly, "the code uses more addresses than it computed");
        }
        let mut total: usize = 0;
        let mut i: usize = 0;
        assert(sizes@.take(0) =~= Seq::<usize>::empty());
        while i < n
            invariant
                i <= n,
                n == sizes@.len(),
                n <= have,
                have == self@.pointers.len(),
                self.wf(),
                self@ == old(self)@,
                total == sum_sizes(sizes@.take(i as int)),
            decreases n - i,
        {
            proof {
                assert(sizes@.take(i + 1).drop_last() =~= sizes@.take(i as int));
                assert(sizes@.take(i + 1).last() == sizes@[i as int]);
                lemma_sum_sizes_prefix(sizes@, i + 1);
            }
            total = match total.checked_add(sizes[i]) {
                Some(t) => t,
                None => {
                    return fail(ErrorKind::StackOverflow, "stack overflow while pushing bytes");
                },
            };
            i = i + 1;
        }
        assert(sizes@.take(n as int) =~= sizes@);
        let block = self.state.alloc_stack_value(total)?;
        let ghost first = self.state@;
        let ghost parts = gathered(sizes@, old(self)@.pointers);
        let ghost base = block.address as int;
        let ghost goal = placed(old(self)@, sizes@);
        let mut offset: usize = 0;
        let mut k: usize = 0;
        assert(parts.take(0) =~= Seq::<(usize, usize)>::empty());
        assert(first == old(self)@.state.reserved(total));
        assert(goal == match scatter(first, parts, base) {
            Err(e) => Err::<(VmModel, usize), ErrorKind>(e),
            Ok(state) => Ok(
                (
                    old(self)@.with_state(state).with_pointers(
                        old(self)@.pointers.take(have - n),
                    ),
                    block.address,
                ),
            ),
        });
        while k < n
            invariant
                k <= n,
                n == sizes@.len(),
                have == self.pointers@.len(),
                n <= have,
                self.state.wf(),
                first.wf(),
                base == block.address,
                parts == gathered(sizes@, self.pointers@),
                self@ == (VmModel { state: self@.state, ..old(self)@ }),
                goal == placed(old(self)@, sizes@),
                goal == match scatter(first, parts, base) {
                    Err(e) => Err::<(VmModel, usize), ErrorKind>(e),
                    Ok(state) => Ok(
                        (
                            old(self)@.with_state(state).with_pointers(
                                old(self)@.pointers.take(have - n),
                            ),
                            block.address,
                        ),
                    ),
                },
                scatter(first, parts.take(k as int), base) == Ok::<StateModel, ErrorKind>(
                    self.state@,
                ),
                offset == parts_total(parts.take(k as int)),
            decreases n - k,
        {
            let a = self.pointers[have - 1 - k];
            let size = sizes[k];
            proof {
                assert(parts.take(k + 1).drop_last() =~= parts.take(k as int));
                assert(parts.take(k + 1).last() == (a, size));
            }
            let dst = match block.address.checked_add(offset) {
                Some(d) => d,
                None => {
                    proof {
                        assert(scatter(first, parts.take(k + 1), base) == Err::<
                            StateModel,
                            ErrorKind,
                        >(ErrorKind::OutOfBounds));
                        lemma_scatter_fails(first, parts, base, k + 1);
                    }
                    return fail(ErrorKind::OutOfBounds, "moving bytes to outside of the memory");
                },
            };
            match self.state.memory_move(a, size, dst) {
                Ok(_) => {},
                Err(e) => {
                    proof {
                        assert(scatter(first, parts.take(k + 1), base) == Err::<
                            StateModel,
                            ErrorKind,
                        >(ErrorKind::OutOfBounds));
                        lemma_scatter_fails(first, parts, base, k + 1);
                    }
                    return Err(e);
                },
            }
            offset = offset + size;
            k = k + 1;
        }
        assert(parts.take(n as int) =~= parts);
        self.pointers.truncate(have - n);
        assert(self@.pointers =~= old(self)@.pointers.take(have - n));
        Ok(block.address)
    }

    /// Enters the function at `function`.
    fn call_function(&mut self, image: &VmAssembly, function: usize) -> (r: SimpleResult<()>)
        requires
            old(self).wf(),
            image@ == old(self)@.assembly,
        ensures
            final(self).wf(),
            outcome(r, final(self)@, entered(old(self)@, function)),
            r is Err ==> final(self)@ == old(self)@.with_state(final(self)@.state),
    {
        if self.stage != ExecutionStage::Running {
            return fail(ErrorKind::BadStage, "calling a function on a machine that does not run");
        }
        let f = match image.function_by_index(function) {
            Some(f) => f,
            None => {
                return fail(ErrorKind::Resolution, "calling a function that the image does not have");
            },
        };
        let params = match total_size(f.params()) {
            Some(n) => n,
            None => {
                return fail(ErrorKind::StackUnderflow, "the parameters are not on the stack");
            },
        };
        if params > self.state.stack_pos() {
            return fail(ErrorKind::StackUnderflow, "the parameters are not on the stack");
        }
        let base = self.state.stack_pos() - params;
        let result = match f.typeid() {
            Some(t) => match image.type_size(t) {
                Some(n) => Some(self.state.alloc_stack_value(n)?),
                None => {
                    return fail(ErrorKind::TypeError, "the type of the result has no size");
                },
            },
            None => None,
        };
        let locals_size = match total_size(f.locals()) {
            Some(n) => n,
            None => {
                return fail(ErrorKind::StackOverflow, "stack overflow while pushing bytes");
            },
        };
        let locals = if locals_size != 0 {
            Some(self.state.alloc_stack_value(locals_size)?)
        } else {
            None
        };
        self.push_frame(CallStackFrame::new(f.index(), 0, base, result, locals));
        Ok(())
    }

    /// Returns from the function that runs.
    fn return_function(&mut self) -> (r: SimpleResult<()>)
        requires
            old(self).wf(),
        ensures
            final(self).wf(),
            outcome(r, final(self)@, returned(old(self)@)),
    {
        if self.stage != ExecutionStage::Running || self.callstack.len() == 0 {
            return fail(ErrorKind::BadStage, "returning from no running function");
        }
        let frame = self.take_top();
        match frame.result {
            Some(v) => {
                let bytes = self.state.load_bytes(v.address, v.size)?;
                self.state.stack_reset(frame.params_stackpos)?;
                let pushed = self.state.stack_push_bytes(bytes.as_slice())?;
                self.pointers.push(pushed.address);
            },
            None => {
                self.state.stack_reset(frame.params_stackpos)?;
                self.pointers.push(0);
            },
        }
        if self.callstack.len() == 0 {
            self.stage = ExecutionStage::Complete;
        }
        Ok(())
    }

    /// Puts the constants of the image into the heap and gives the range
    /// that they take.
    fn alloc_data(&mut self, image: &VmAssembly) -> (r: SimpleResult<Option<Value>>)
        requires
            old(self).wf(),
            image@ == old(self)@.assembly,
        ensures
            final(self).wf(),
            match data_loaded(old(self)@.state, old(self)@.assembly.data) {
                Ok((s, range)) => r matches Ok(x) && x == range && final(self)@ == old(
                    self,
                )@.with_state(s),
                Err(kind) => r matches Err(e) && e.kind == kind,
            },
            final(self)@ == old(self)@.with_state(final(self)@.state),
    {
        let data = image.data();
        let ghost all = views(data@);
        let ghost first = self.state@;
        let mut range: Option<Value> = None;
        let mut i: usize = 0;
        assert(all.take(0) =~= Seq::<crate::image::DataModel>::empty());
        while i < data.len()
            invariant
                i <= data@.len(),
                all == views(data@),
                all == old(self)@.assembly.data,
                first == old(self)@.state,
                self.state.wf(),
                self@ == (VmModel { state: self@.state, ..old(self)@ }),
                data_loaded(first, all.take(i as int)) == Ok::<
                    (StateModel, Option<Value>),
                    ErrorKind,
                >((self.state@, range)),
            decreases data@.len() - i,
        {
            proof {
                assert(all.take(i + 1).drop_last() =~= all.take(i as int));
                assert(all.take(i + 1).last() == data@[i as int]@);
            }
            let ghost before = self.state@;
            let loaded = load_constant(&mut self.state, &data[i]);
            let v = match loaded {
                Ok(v) => v,
                Err(e) => {
                    proof {
                        assert(data_loaded(first, all.take(i + 1)) == Err::<
                            (StateModel, Option<Value>),
                            ErrorKind,
                        >(e.kind));
                        lemma_data_loaded_fails(first, all, i + 1);
                    }
                    return Err(e);
                },
            };
            range = match range {
                None => Some(v),
                Some(r) => match r.size.checked_add(v.size) {
                    Some(size) => Some(
                        Value {
                            address: if v.address < r.address {
                                v.address
                            } else {
                                r.address
                            },
                            size,
                        },
                    ),
                    None => {
                        proof {
                            assert(data_loaded(first, all.take(i + 1)) == Err::<
                                (StateModel, Option<Value>),
                                ErrorKind,
                            >(ErrorKind::OutOfMemory));
                            lemma_data_loaded_fails(first, all, i + 1);
                        }
                        return fail(
                            ErrorKind::OutOfMemory,
                            "the constants exceed the host's address range",
                        );
                    },
                },
            };
            i = i + 1;
        }
        assert(all.take(i as int) =~= all);
        Ok(range)
    }

    /// Starts the machine at the exported function `entry`, which takes
    /// no parameters and gives no result: the constants and the globals
    /// are put into the heap, the machine runs, and the function is
    /// entered. What `started` says. A start that is refused changes
    /// nothing; one that fails later has changed the memory, and where
    /// the function could not be entered also the stage, but never the
    /// frames or the addresses.
    pub fn start(&mut self, entry: &str) -> (r: SimpleResult<()>)
        requires
            old(self).wf(),
        ensures
            final(self).wf(),
            outcome(r, final(self)@, started(old(self)@, entry@)),
            refused(old(self)@, entry@) ==> final(self)@ == old(self)@,
            r is Err ==> same_frames(old(self)@, final(self)@),
    {
        if self.stage != ExecutionStage::Uninitialized {
            return fail(ErrorKind::BadStage, "starting a machine that runs or is complete");
        }
        let image = share(&self.assembly);
        let index = match image.function_by_id(entry) {
            Some(f) => {
                if f.params().len() > 0 {
                    return fail(ErrorKind::BadEntry, "the entry function takes parameters");
                }
                if f.typeid().is_some() {
                    return fail(ErrorKind::BadEntry, "the entry function gives a result");
                }
                f.index()
            },
            None => {
                return fail(ErrorKind::Resolution, "the image exports no such entry function");
            },
        };
        let data = self.alloc_data(&image)?;
        let globals = self.state.alloc_memory_value(image.globals_size())?;
        self.data = data;
        self.globals = Some(globals);
        self.stage = ExecutionStage::Running;
        self.call_function(&image, index)
    }
}

/// Where the first constants cannot be put into the heap, all of them
/// cannot, and they fail in the same way.
pub proof fn lemma_data_loaded_fails(s: StateModel, data: Seq<crate::image::DataModel>, k: int)
    requires
        0 <= k <= data.len(),
        data_loaded(s, data.take(k)) is Err,
    ensures
        data_loaded(s, data) == data_loaded(s, data.take(k)),
    decreases data.len(),
{
    if k == data.len() {
        assert(data.take(k) =~= data);
    } else {
        assert(data.drop_last().take(k) =~= data.take(k));
        lemma_data_loaded_fails(s, data.drop_last(), k);
    }
}

impl Vm {
    /// The name of the operation at `op` in the image's table.
    fn op_name(image: &VmAssembly, op: usize) -> (r: SimpleResult<String>)
        ensures
            match r {
                Ok(name) => crate::image::indexed(image@.ops, op) == Some(name@),
                Err(e) => crate::image::indexed(image@.ops, op) is None && e.kind
                    == ErrorKind::Resolution,
            },
    {
        let ops = image.ops_map();
        if op < ops.len() {
            assert(views(ops@)[op as int] == ops@[op as int]@);
            Ok(ops[op].clone())
        } else {
            fail(ErrorKind::Resolution, "the code names an operation that the image does not have")
        }
    }

    fn reference_step(&mut self, next: usize) -> (r: SimpleResult<Step>)
        requires
            old(self).wf(),
            old(self)@.callstack.len() > 0,
        ensures
            final(self).wf(),
            flows(r, final(self)@, reference_op(old(self)@, next as int)),
    {
        match self.pop_pointer() {
            None => fail(ErrorKind::BadAssembly, "the code uses more addresses than it computed"),
            Some(a) => {
                let v = self.state.stack_push_data(&a)?;
                self.push_pointer(v.address);
                self.set_address(next);
                assert(self@.pointers =~= old(self)@.pointers.drop_last().push(
                    old(self)@.state.stack_pos,
                ));
                Ok(Step::Next(next))
            },
        }
    }

    fn dereference_step(&mut self, next: usize) -> (r: SimpleResult<Step>)
        requires
            old(self).wf(),
            old(self)@.callstack.len() > 0,
        ensures
            final(self).wf(),
            flows(r, final(self)@, dereference_op(old(self)@, next as int)),
    {
        match self.pop_pointer() {
            None => fail(ErrorKind::BadAssembly, "the code uses more addresses than it computed"),
            Some(a) => {
                let v = self.state.load_data::<usize>(a)?;
                self.push_pointer(v);
                self.set_address(next);
                Ok(Step::Next(next))
            },
        }
    }

    fn store_step(&mut self, next: usize, target: bool) -> (r: SimpleResult<Step>)
        requires
            old(self).wf(),
            old(self)@.callstack.len() > 0,
        ensures
            final(self).wf(),
            flows(r, final(self)@, store_op(old(self)@, next as int, target)),
    {
        match self.pop_pointer() {
            None => fail(ErrorKind::BadAssembly, "the code uses more addresses than it computed"),
            Some(a) => {
                let mut frame = self.take_top();
                if target {
                    frame.op_target_addresses.push(a);
                } else {
                    frame.op_param_addresses.push(a);
                }
                frame.address = next;
                self.push_frame(frame);
                assert(self@.callstack =~= store_op(old(self)@, next as int, target)->Next_0.callstack);
                Ok(Step::Next(next))
            },
        }
    }

    fn start_step(&mut self, next: usize) -> (r: SimpleResult<Step>)
        requires
            old(self).wf(),
            old(self)@.callstack.len() > 0,
        ensures
            final(self).wf(),
            flows(
                r,
                final(self)@,
                Flow::Next(
                    old(self)@.with_top(
                        FrameModel { op_stackpos: old(self)@.state.stack_pos, ..old(self)@.top() },
                    ),
                    next as int,
                ),
            ),
    {
        let mut frame = self.take_top();
        frame.op_stackpos = self.state.stack_pos();
        self.push_frame(frame);
        assert(self@.callstack =~= old(self)@.with_top(
            FrameModel { op_stackpos: old(self)@.state.stack_pos, ..old(self)@.top() },
        ).callstack);
        Ok(Step::Next(next))
    }

    fn stop_step(&mut self, image: &VmAssembly, code: &[u8], p: usize) -> (r: SimpleResult<Step>)
        requires
            old(self).wf(),
            old(self)@.callstack.len() > 0,
            image@ == old(self)@.assembly,
        ensures
            final(self).wf(),
            flows(r, final(self)@, stop_op(old(self)@, code@, p as int)),
    {
        let (op, q) = read_size(code, p)?;
        let name = Self::op_name(image, op)?;
        let frame_index = self.callstack.len() - 1;
        let mut frame = self.take_top();
        let (params, targets) = frame.collect_params_targets();
        frame.address = q;
        self.push_frame(frame);
        assert(self@.callstack =~= stop_op(old(self)@, code@, p as int)->Call_0.callstack);
        Ok(
            Step::Call(
                PendingOp {
                    name,
                    params,
                    targets,
                    inline: None,
                    frame: frame_index,
                    resume_at: q,
                    body_size: code.len(),
                },
            ),
        )
    }

    fn inline_start_step(&mut self, next: usize) -> (r: SimpleResult<Step>)
        requires
            old(self).wf(),
            old(self)@.callstack.len() > 0,
        ensures
            final(self).wf(),
            flows(r, final(self)@, inline_start_op(old(self)@, next as int)),
    {
        let mut frame = self.take_top();
        frame.address = next;
        let twin = frame.duplicate();
        self.push_frame(frame);
        self.push_frame(twin);
        assert(self@.callstack =~= inline_start_op(old(self)@, next as int)->Done_0.callstack);
        Ok(Step::Done(true))
    }

    fn inline_stop_step(&mut self, image: &VmAssembly, code: &[u8], p: usize) -> (r: SimpleResult<
        Step,
    >)
        requires
            old(self).wf(),
            old(self)@.callstack.len() > 0,
            image@ == old(self)@.assembly,
        ensures
            final(self).wf(),
            flows(r, final(self)@, inline_stop_op(old(self)@, code@, p as int)),
    {
        let (op, q) = read_size(code, p)?;
        let (size, next) = read_size(code, q)?;
        let name = Self::op_name(image, op)?;
        if self.callstack.len() < 2 {
            return fail(ErrorKind::BadAssembly, "an inline operation ends that did not begin");
        }
        let v = self.state.alloc_stack_value(size)?;
        let frame_index = self.callstack.len() - 1;
        let mut frame = self.take_top();
        let (params, mut targets) = frame.collect_params_targets();
        targets.push(v.address);
        let mut below = self.take_top();
        below.address = next;
        self.push_frame(below);
        self.push_frame(frame);
        assert(self@.callstack =~= inline_stop_op(old(self)@, code@, p as int)->Call_0.callstack);
        Ok(
            Step::Call(
                PendingOp {
                    name,
                    params,
                    targets,
                    inline: Some(v),
                    frame: frame_index,
                    resume_at: next,
                    body_size: code.len(),
                },
            ),
        )
    }

    fn tuple_step(&mut self, code: &[u8], p: usize) -> (r: SimpleResult<Step>)
        requires
            old(self).wf(),
            old(self)@.callstack.len() > 0,
        ensures
            final(self).wf(),
            flows(r, final(self)@, tuple_op(old(self)@, code@, p as int)),
    {
        let (count, q) = read_u64(code, p)?;
        let (sizes, next) = read_sizes(code, q, count)?;
        let base = self.place(sizes.as_slice())?;
        self.push_pointer(base);
        self.set_address(next);
        Ok(Step::Next(next))
    }

    fn call_step(&mut self, image: &VmAssembly, code: &[u8], p: usize) -> (r: SimpleResult<Step>)
        requires
            old(self).wf(),
            old(self)@.callstack.len() > 0,
            image@ == old(self)@.assembly,
        ensures
            final(self).wf(),
            flows(r, final(self)@, call_op(old(self)@, code@, p as int)),
    {
        let (f, q) = read_size(code, p)?;
        let sizes = match image.function_by_index(f) {
            Some(func) => sizes_list(func.params()),
            None => {
                return fail(ErrorKind::Resolution, "calling a function that the image does not have");
            },
        };
        let _ = self.place(sizes.as_slice())?;
        self.set_address(q);
        self.call_function(image, f)?;
        Ok(Step::Done(true))
    }

    /// Runs the opcode at `pos` of `code`, the code of the function that
    /// runs.
    fn micro_step(&mut self, image: &VmAssembly, code: &[u8], pos: usize) -> (r: SimpleResult<Step>)
        requires
            old(self).wf(),
            old(self)@.callstack.len() > 0,
            image@ == old(self)@.assembly,
        ensures
            final(self).wf(),
            flows(r, final(self)@, micro(old(self)@, code@, pos as int)),
    {
        let (byte, p) = read_u8(code, pos)?;
        let n = self.callstack.len();
        assert(self@.top() == self.callstack@[n - 1]@);
        match OpIndex::from_byte(byte) {
            Some(OpIndex::DataPointer) => {
                let (off, q) = read_size(code, p)?;
                self.pointer_step(q, addr_of(self.data), off)
            },
            Some(OpIndex::ParamsPointer) => {
                let (off, q) = read_size(code, p)?;
                let base = self.callstack[n - 1].params_stackpos;
                self.pointer_step(q, Some(base), off)
            },
            Some(OpIndex::ResultPointer) => {
                let base = addr_of(self.callstack[n - 1].result);
                self.pointer_step(p, base, 0)
            },
            Some(OpIndex::LocalsPointer) => {
                let (off, q) = read_size(code, p)?;
                let base = addr_of(self.callstack[n - 1].locals);
                self.pointer_step(q, base, off)
            },
            Some(OpIndex::GlobalsPointer) => {
                let (off, q) = read_size(code, p)?;
                self.pointer_step(q, addr_of(self.globals), off)
            },
            Some(OpIndex::OffsetPointer) => {
                let (off, q) = read_size(code, p)?;
                match self.pop_pointer() {
                    None => fail(
                        ErrorKind::BadAssembly,
                        "the code uses more addresses than it computed",
                    ),
                    Some(a) => self.pointer_step(q, Some(a), off),
                }
            },
            Some(OpIndex::ReferencePointer) => self.reference_step(p),
            Some(OpIndex::DereferencePointer) => self.dereference_step(p),
            Some(OpIndex::StoreTargetAddress) => self.store_step(p, true),
            Some(OpIndex::StoreParamAddress) => self.store_step(p, false),
            Some(OpIndex::ExecuteOpStart) => self.start_step(p),
            Some(OpIndex::ExecuteOpStop) => self.stop_step(image, code, p),
            Some(OpIndex::ExecuteOpInlineStart) => self.inline_start_step(p),
            Some(OpIndex::ExecuteOpInlineStop) => self.inline_stop_step(image, code, p),
            Some(OpIndex::ProduceTuple) => self.tuple_step(code, p),
            Some(OpIndex::CallFunction) => self.call_step(image, code, p),
            _ => fail(ErrorKind::BadAssembly, "the code holds an unknown opcode"),
        }
    }

    /// Makes one step of the machine, up to the operation that the
    /// processor is to run: what `advance` says. The step never ends
    /// with `Step::Next`.
    pub fn advance(&mut self) -> (r: SimpleResult<Step>)
        requires
            old(self).wf(),
        ensures
            final(self).wf(),
            flows(r, final(self)@, advance(old(self)@)),
    {
        if self.stage != ExecutionStage::Running {
            return fail(ErrorKind::BadStage, "resuming a machine that does not run");
        }
        let n = self.callstack.len();
        if n == 0 {
            self.stage = ExecutionStage::Complete;
            return Ok(Step::Done(false));
        }
        assert(self@.top() == self.callstack@[n - 1]@);
        let image = share(&self.assembly);
        let body = match image.function_body_by_index(self.callstack[n - 1].function) {
            Some(body) => body,
            None => {
                return fail(ErrorKind::BadAssembly, "the function that runs has no code");
            },
        };
        let code = body.code();
        let start = self.callstack[n - 1].address;
        if start >= code.len() {
            self.return_function()?;
            return Ok(Step::Done(false));
        }
        let mut pos: usize = start;
        loop
            invariant
                self.wf(),
                self@.callstack.len() > 0,
                image@ == self@.assembly,
                pos < code@.len(),
                run(self@, code@, pos as int) == advance(old(self)@),
            decreases code@.len() - pos,
        {
            match self.micro_step(&image, code, pos)? {
                Step::Next(next) => {
                    if next <= pos || next > code.len() {
                        return fail(ErrorKind::BadAssembly, "the code does not go on");
                    }
                    if next == code.len() {
                        proof {
                            lemma_run_off_end(self@, code@, next as int);
                        }
                        return fail(ErrorKind::BadAssembly, "the code ends inside an operation");
                    }
                    pos = next;
                },
                other => {
                    return Ok(other);
                },
            }
        }
    }

    /// Goes on after the processor ran the operation `pending` and
    /// answered `action`: what `completed` says.
    pub fn complete_op(&mut self, pending: &PendingOp, action: OpAction) -> (r: SimpleResult<()>)
        requires
            old(self).wf(),
        ensures
            final(self).wf(),
            outcome(r, final(self)@, completed(old(self)@, pending@, action)),
    {
        match pending.inline {
            Some(v) => {
                if self.callstack.len() > 0 {
                    let _ = self.take_top();
                }
                self.push_pointer(v.address);
                Ok(())
            },
            None => {
                let i = pending.frame;
                if i >= self.callstack.len() {
                    return fail(ErrorKind::BadStage, "the frame of the operation is gone");
                }
                assert(self@.callstack[i as int] == self.callstack@[i as int]@);
                let mark = self.callstack[i].op_stackpos;
                self.state.stack_reset(mark)?;
                let mut frame = self.callstack.remove(i);
                frame.op_stackpos = 0;
                let ghost cleared = frame@;
                match action {
                    OpAction::Continue => {
                        self.callstack.insert(i, frame);
                        assert(self@.callstack =~= old(self)@.callstack.update(i as int, cleared));
                        if pending.resume_at >= pending.body_size || !self.can_resume() {
                            self.return_function()
                        } else {
                            Ok(())
                        }
                    },
                    OpAction::GoTo(a) => {
                        frame.address = a;
                        self.callstack.insert(i, frame);
                        assert(self@.callstack =~= old(self)@.callstack.update(
                            i as int,
                            FrameModel { address: a, ..cleared },
                        ));
                        assert(old(self)@.callstack.update(i as int, cleared).update(
                            i as int,
                            FrameModel { address: a, ..cleared },
                        ) =~= old(self)@.callstack.update(
                            i as int,
                            FrameModel { address: a, ..cleared },
                        ));
                        Ok(())
                    },
                    OpAction::Return => {
                        self.callstack.insert(i, frame);
                        assert(self@.callstack =~= old(self)@.callstack.update(i as int, cleared));
                        self.return_function()
                    },
                }
            },
        }
    }

    /// Makes one step of the machine and has the processor `P` run the
    /// operation that the step ends with. `Ok(true)` says that the next
    /// step follows at once: a function or an inline operation was
    /// entered, and one frame more is on the call stack. Where the step
    /// ends without an operation, the machine is as `advance` says.
    /// Where it ends with one, the processor has run it and the machine
    /// went on as `complete_op` does; the failure of the processor is
    /// handed on as it is.
    pub fn resume_op<P: Processor>(&mut self) -> (r: SimpleResult<bool>)
        requires
            old(self).wf(),
        ensures
            final(self).wf(),
            match advance(old(self)@) {
                Flow::Done(m, more) => r matches Ok(b) && b == more && final(self)@ == m,
                Flow::Fail(kind) => r matches Err(e) && e.kind == kind,
                Flow::Call(_, _) => !(r matches Ok(true)),
                Flow::Next(_, _) => false,
            },
            r matches Ok(true) ==> final(self)@.callstack.len() == old(self)@.callstack.len() + 1,
    {
        proof {
            lemma_advance_pushes(old(self)@);
        }
        match self.advance()? {
            Step::Done(more) => Ok(more),
            Step::Next(_) => Ok(false),
            Step::Call(pending) => {
                let action = P::process_op(
                    &pending.name,
                    pending.params.as_slice(),
                    pending.targets.as_slice(),
                    self,
                )?;
                self.complete_op(&pending, action)?;
                Ok(false)
            },
        }
    }

    /// Runs the machine until the processor has run one operation or a
    /// function has returned. Fails with `BadStage`, and changes
    /// nothing, where the machine does not run.
    pub fn resume<P: Processor>(&mut self) -> (r: SimpleResult<()>)
        requires
            old(self).wf(),
        ensures
            final(self).wf(),
            old(self)@.stage != ExecutionStage::Running ==> (r matches Err(e) && e.kind
                == ErrorKind::BadStage && final(self)@ == old(self)@),
            match eventual(old(self)@) {
                Flow::Fail(kind) => r matches Err(e) && e.kind == kind,
                Flow::Done(m, false) => r is Ok && final(self)@ == m,
                _ => true,
            },
    {
        if self.stage != ExecutionStage::Running {
            return fail(ErrorKind::BadStage, "resuming a machine that does not run");
        }
        loop
            invariant
                self.wf(),
                old(self)@.stage == ExecutionStage::Running,
                eventual(old(self)@) == eventual(self@),
            decreases usize::MAX - self@.callstack.len(),
        {
            let ghost before = self@.callstack.len();
            assert(before == self.callstack@.len());
            let more = self.resume_op::<P>()?;
            if !more {
                return Ok(());
            }
            let depth = self.callstack.len();
            assert(self@.callstack.len() == depth);
        }
    }

    /// Runs the machine until no function is left on its call stack or
    /// it no longer runs: one `resume` after the other, `u64::MAX` of
    /// them at most. Fails with `BadStage`, and changes nothing, where
    /// the machine does not run; hands on the failure of a step; and
    /// fails with `Host` once it has made as many rounds as it may. As
    /// far as no processor is asked, the result is what `drained` says.
    pub fn consume<P: Processor>(&mut self) -> (r: SimpleResult<()>)
        requires
            old(self).wf(),
        ensures
            final(self).wf(),
            old(self)@.stage != ExecutionStage::Running ==> (r matches Err(e) && e.kind
                == ErrorKind::BadStage && final(self)@ == old(self)@),
            old(self)@.stage == ExecutionStage::Running ==> drained_outcome(
                r,
                final(self)@,
                drained(old(self)@, u64::MAX as nat),
            ),
            r is Ok ==> !final(self)@.can_resume(),
    {
        if self.stage != ExecutionStage::Running {
            return fail(ErrorKind::BadStage, "consuming a machine that does not run");
        }
        let ghost whole = drained(self@, u64::MAX as nat);
        let mut left: u64 = u64::MAX;
        while self.can_resume()
            invariant
                self.wf(),
                whole == drained(old(self)@, u64::MAX as nat),
                !(whole is Asked) ==> whole == drained(self@, left as nat),
            decreases left,
        {
            if left == 0 {
                return fail(ErrorKind::Host, "the machine has made too many steps");
            }
            left = left - 1;
            self.resume::<P>()?;
        }
        Ok(())
    }

    /// Starts the machine at `entry` and runs it to its end. Where the
    /// start fails, its failure is the result; where it succeeds, the
    /// result is that of `consume` on the machine that was started.
    pub fn run<P: Processor>(&mut self, entry: &str) -> (r: SimpleResult<()>)
        requires
            old(self).wf(),
        ensures
            final(self).wf(),
            match started(old(self)@, entry@) {
                Err(kind) => r matches Err(e) && e.kind == kind,
                Ok(m) => drained_outcome(r, final(self)@, drained(m, u64::MAX as nat)),
            },
            r is Ok ==> !final(self)@.can_resume(),
    {
        self.start(entry)?;
        proof {
            lemma_started_runs(old(self)@, entry@);
        }
        self.consume::<P>()
    }
}

/// A machine that was started runs.
pub proof fn lemma_started_runs(m: VmModel, entry: Seq<char>)
    requires
        started(m, entry) is Ok,
    ensures
        started(m, entry)->Ok_0.stage == ExecutionStage::Running,
        started(m, entry)->Ok_0.callstack.len() == m.callstack.len() + 1,
{
}

/// Code that goes on at its end fails: the opcode that would follow is
/// missing.
pub proof fn lemma_run_off_end(m: VmModel, code: Seq<u8>, pos: int)
    requires
        pos >= code.len(),
    ensures
        run(m, code, pos) == Flow::Fail(ErrorKind::BadAssembly),
{
}

/// The code cannot end a step with the wish to go on.
pub proof fn lemma_run_ends(m: VmModel, code: Seq<u8>, pos: int)
    ensures
        !(run(m, code, pos) is Next),
    decreases code.len() - pos,
{
    match micro(m, code, pos) {
        Flow::Next(after, next) => {
            if pos < next <= code.len() {
                lemma_run_ends(after, code, next);
            }
        },
        _ => {},
    }
}

/// An opcode after which the code goes on leaves the call stack as long
/// as it was.
pub proof fn lemma_micro_keeps_frames(m: VmModel, code: Seq<u8>, pos: int)
    requires
        m.callstack.len() > 0,
    ensures
        micro(m, code, pos) matches Flow::Next(after, _) ==> after.callstack.len()
            == m.callstack.len() && after.assembly == m.assembly,
        micro(m, code, pos) matches Flow::Done(after, more) ==> more && after.callstack.len()
            == m.callstack.len() + 1,
{
}

/// A run of the code that ends a step puts one frame more on the call
/// stack.
pub proof fn lemma_run_pushes(m: VmModel, code: Seq<u8>, pos: int)
    requires
        m.callstack.len() > 0,
    ensures
        run(m, code, pos) matches Flow::Done(after, more) ==> more && after.callstack.len()
            == m.callstack.len() + 1,
        !(run(m, code, pos) is Next),
    decreases code.len() - pos,
{
    lemma_micro_keeps_frames(m, code, pos);
    match micro(m, code, pos) {
        Flow::Next(after, next) => {
            if pos < next <= code.len() {
                lemma_run_pushes(after, code, next);
            }
        },
        _ => {},
    }
}

/// A step after which the next follows at once has put one frame more
/// on the call stack; a step never ends with the wish to go on.
pub proof fn lemma_advance_pushes(m: VmModel)
    ensures
        advance(m) matches Flow::Done(after, true) ==> after.callstack.len() == m.callstack.len()
            + 1,
        !(advance(m) is Next),
{
    if m.stage == ExecutionStage::Running && m.callstack.len() > 0 {
        match m.code() {
            Some(code) => {
                if m.top().address < code.len() {
                    lemma_run_pushes(m, code, m.top().address as int);
                }
            },
            None => {},
        }
    }
}

/// After a function returned, the stack's top stands where it stood
/// before the parameters were pushed, with the bytes of the result, if
/// there is one, above it: they are the bytes that stood at the place
/// of the result. The frame of the function has left the call stack,
/// and one address has joined the addresses: that of the result where
/// there is one, else zero.
pub proof fn lemma_return_restores_stack(m: VmModel)
    requires
        m.wf(),
        returned(m) is Ok,
    ensures
        returned(m)->Ok_0.state.stack_pos == m.top().params_stackpos + match m.top().result {
            Some(v) => v.size as int,
            None => 0,
        },
        m.top().result matches Some(v) ==> returned(m)->Ok_0.state.window(
            m.top().params_stackpos as int,
            v.size as int,
        ) == m.state.window(v.address as int, v.size as int),
        returned(m)->Ok_0.callstack == m.callstack.drop_last(),
        returned(m)->Ok_0.pointers == m.pointers.push(
            match m.top().result {
                Some(_) => m.top().params_stackpos,
                None => 0,
            },
        ),
        returned(m)->Ok_0.state.free == m.state.free,
        returned(m)->Ok_0.wf(),
{
    match m.top().result {
        Some(v) => {
            let base = m.state.with_stack_pos(m.top().params_stackpos);
            let data = m.state.window(v.address as int, v.size as int);
            assert(base.pushed(data).window(m.top().params_stackpos as int, v.size as int) =~= data);
        },
        None => {},
    }
}

/// An operation after which the processor asks to go on, or names an
/// offset, leaves the addresses as the processor left them.
pub proof fn lemma_completed_keeps_pointers(m: VmModel, pending: PendingModel, action: OpAction)
    requires
        pending.inline is None,
        completed(m, pending, action) is Ok,
        action != OpAction::Return,
        action == OpAction::Continue ==> pending.resume_at < pending.body_size && m.can_resume(),
    ensures
        completed(m, pending, action)->Ok_0.pointers == m.pointers,
{
}

/// The number of addresses that the code holds: those that it has
/// computed and not yet used, and those that it has stored for the
/// operation that is being read.
pub open spec fn held_addresses(m: VmModel) -> int {
    (m.pointers.len() + m.top().op_target_addresses.len() + m.top().op_param_addresses.len())
        as int
}

/// What an opcode after which the code goes on does to the addresses:
/// an opcode that names a place computes one address; an opcode that
/// offsets, references or dereferences an address replaces it; an opcode
/// that stores an address moves it to the operation that is being read;
/// the opcode that begins an operation leaves the addresses alone; and
/// the opcode that makes a tuple replaces the addresses of the parts by
/// one address.
pub proof fn lemma_micro_addresses(m: VmModel, code: Seq<u8>, pos: int)
    requires
        m.callstack.len() > 0,
        micro(m, code, pos) is Next,
    ensures
        ({
            let op = code[pos];
            let after = micro(m, code, pos)->Next_0;
            &&& 1 <= op <= 11 || op == 15
            &&& 1 <= op <= 5 ==> after.pointers.len() == m.pointers.len() + 1 && held_addresses(
                after,
            ) == held_addresses(m) + 1
            &&& 6 <= op <= 8 ==> m.pointers.len() >= 1 && after.pointers.len() == m.pointers.len()
                && held_addresses(after) == held_addresses(m)
            &&& 9 <= op <= 10 ==> m.pointers.len() >= 1 && after.pointers.len() == m.pointers.len()
                - 1 && held_addresses(after) == held_addresses(m)
            &&& op == 11 ==> after.pointers == m.pointers && held_addresses(after)
                == held_addresses(m)
            &&& op == 15 ==> after.pointers.len() == m.pointers.len() - crate::image::parse_u64(
                code,
                pos + 1,
            ).unwrap().0 + 1
        }),
{
    let op = code[pos];
    if op == 15 {
        let count = crate::image::parse_u64(code, pos + 1).unwrap().0;
        let sizes = parse_seq(size_parser(), code, pos + 9, count as nat).unwrap().0;
        lemma_parse_seq_len(size_parser(), code, pos + 9, count as nat);
    }
}

/// A list that was read has as many items as were asked for.
pub proof fn lemma_parse_seq_len<T>(
    one: spec_fn(Seq<u8>, int) -> Option<(T, int)>,
    b: Seq<u8>,
    pos: int,
    count: nat,
)
    requires
        parse_seq(one, b, pos, count) is Some,
    ensures
        parse_seq(one, b, pos, count).unwrap().0.len() == count,
    decreases count,
{
    if count > 0 {
        lemma_parse_seq_len(one, b, pos, (count - 1) as nat);
    }
}

/// The operation that goes to the processor takes the addresses that
/// were stored for it, all of them: none stays with the frame, and the
/// addresses that the code has computed and not yet used are as they
/// were.
pub proof fn lemma_operation_takes_addresses(m: VmModel, code: Seq<u8>, pos: int)
    requires
        m.callstack.len() > 0,
        code[pos] == 12,
        micro(m, code, pos) is Call,
    ensures
        ({
            let after = micro(m, code, pos)->Call_0;
            let pending = micro(m, code, pos)->Call_1;
            &&& after.pointers == m.pointers
            &&& pending.params == m.top().op_param_addresses
            &&& pending.targets == m.top().op_target_addresses
            &&& after.top().op_param_addresses.len() == 0
            &&& after.top().op_target_addresses.len() == 0
            &&& held_addresses(after) == m.pointers.len()
        }),
{
}

/// Putting constants into the heap leaves the stack as it was.
pub proof fn lemma_data_loaded_keeps_stack(s: StateModel, data: Seq<crate::image::DataModel>)
    requires
        data_loaded(s, data) is Ok,
    ensures
        data_loaded(s, data)->Ok_0.0.stack_pos == s.stack_pos,
        data_loaded(s, data)->Ok_0.0.stack_size == s.stack_size,
    decreases data.len(),
{
    if data.len() > 0 {
        lemma_data_loaded_keeps_stack(s, data.drop_last());
    }
}

/// The function that the image exports under the name `entry`.
pub open spec fn entry_function(m: VmModel, entry: Seq<char>) -> Option<crate::image::FunctionModel> {
    crate::image::named(m.assembly.export_functions, m.assembly.functions, entry)
}

/// A machine that was started at a function with an empty body, which
/// stands in the image at its index, runs to its end without a question
/// to the processor: no step can follow, the machine is complete, no
/// function is on the call stack, and the stack's top stands where it
/// stood before the start.
pub proof fn lemma_empty_entry_completes(m: VmModel, entry: Seq<char>)
    requires
        m.callstack.len() == 0,
        m.state.stack_pos < m.state.stack_size,
        started(m, entry) is Ok,
        crate::image::indexed(m.assembly.functions, entry_function(m, entry)->Some_0.index)
            == entry_function(m, entry),
        started(m, entry)->Ok_0.code() == Some(Seq::<u8>::empty()),
    ensures
        ({
            let end = drained(started(m, entry)->Ok_0, u64::MAX as nat);
            &&& end is Settled
            &&& end->Settled_0.stage == ExecutionStage::Complete
            &&& end->Settled_0.callstack.len() == 0
            &&& end->Settled_0.state.stack_pos == m.state.stack_pos
        }),
{
    let s = started(m, entry)->Ok_0;
    let f = entry_function(m, entry)->Some_0;
    lemma_data_loaded_keeps_stack(m.state, m.assembly.data);
    assert(sizes_of(f.params) =~= Seq::<usize>::empty());
    assert(sum_sizes(sizes_of(f.params)) == 0);
    assert(s.top().params_stackpos == m.state.stack_pos);
    assert(s.top().result is None);
    assert(s.state.stack_size == m.state.stack_size);
    assert(returned(s) is Ok);
    let after = returned(s)->Ok_0;
    assert(advance(s) == Flow::Done(after, false));
    assert(eventual(s) == Flow::Done(after, false));
    assert(!after.can_resume());
    assert(drained(after, (u64::MAX - 1) as nat) == Drained::Settled(after));
}

/// After an operation to which the processor answered with an offset,
/// the frame of the operation goes on at that offset.
pub proof fn lemma_go_to_sets_address(m: VmModel, pending: PendingModel, a: usize)
    requires
        pending.inline is None,
        completed(m, pending, OpAction::GoTo(a)) is Ok,
    ensures
        completed(m, pending, OpAction::GoTo(a))->Ok_0.callstack.len() == m.callstack.len(),
        completed(m, pending, OpAction::GoTo(a))->Ok_0.callstack[pending.frame as int].address == a,
        completed(m, pending, OpAction::GoTo(a))->Ok_0.pointers == m.pointers,
{
}

/// After an operation of the only function on the call stack to which
/// the processor answered with a return, the machine is complete: no
/// function is on the call stack, no step can follow, and the stack's
/// top stands where it stood before the function was entered, below the
/// bytes of its result if it has one. The heap is as the processor left
/// it.
pub proof fn lemma_return_on_last_frame_completes(m: VmModel, pending: PendingModel)
    requires
        m.wf(),
        pending.inline is None,
        m.callstack.len() == 1,
        completed(m, pending, OpAction::Return) is Ok,
    ensures
        ({
            let end = completed(m, pending, OpAction::Return)->Ok_0;
            &&& end.stage == ExecutionStage::Complete
            &&& end.callstack.len() == 0
            &&& !end.can_resume()
            &&& end.state.stack_pos == m.top().params_stackpos + match m.top().result {
                Some(v) => v.size as int,
                None => 0,
            }
            &&& end.state.free == m.state.free
        }),
{
    assert(pending.frame == 0);
    let frame = FrameModel { op_stackpos: 0, ..m.callstack[0] };
    let reset = m.with_state(m.state.with_stack_pos(m.callstack[0].op_stackpos)).with_callstack(
        m.callstack.update(0, frame),
    );
    assert(reset.top() == frame);
    assert(completed(m, pending, OpAction::Return) == returned(reset));
    assert(reset.callstack.drop_last().len() == 0);
    match frame.result {
        Some(v) => {
            let data = reset.state.window(v.address as int, v.size as int);
            assert(data.len() == v.size);
        },
        None => {},
    }
}

} // verus!
