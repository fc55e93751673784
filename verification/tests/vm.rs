use kaiju::error::{ErrorKind, SimpleError, SimpleResult};
use kaiju::image::{Data, OpIndex, Type, VmAssembly};
use kaiju::processor::{EmptyProcessor, OpAction, Processor};
use kaiju::state::Value;
use kaiju::vm::{ExecutionStage, Step, Vm};

const DATA_POINTER: u8 = 1;
const PARAMS_POINTER: u8 = 2;
const RESULT_POINTER: u8 = 3;
const LOCALS_POINTER: u8 = 4;
const GLOBALS_POINTER: u8 = 5;
const OFFSET_POINTER: u8 = 6;
const REFERENCE_POINTER: u8 = 7;
const DEREFERENCE_POINTER: u8 = 8;
const STORE_TARGET: u8 = 9;
const STORE_PARAM: u8 = 10;
const OP_START: u8 = 11;
const OP_STOP: u8 = 12;
const INLINE_START: u8 = 13;
const INLINE_STOP: u8 = 14;
const PRODUCE_TUPLE: u8 = 15;
const CALL_FUNCTION: u8 = 16;

const WORD: usize = std::mem::size_of::<usize>();

fn be(out: &mut Vec<u8>, v: u64) {
    out.extend_from_slice(&v.to_be_bytes());
}

fn text(out: &mut Vec<u8>, s: &str) {
    be(out, s.len() as u64);
    out.extend_from_slice(s.as_bytes());
}

fn op1(code: &mut Vec<u8>, op: u8, arg: u64) {
    code.push(op);
    be(code, arg);
}

struct Func {
    name: &'static str,
    export: bool,
    params: Vec<u64>,
    ret: Option<u64>,
    locals: Vec<u64>,
    labels: Vec<(&'static str, u64)>,
    code: Vec<u8>,
}

fn func(name: &'static str, code: Vec<u8>) -> Func {
    Func { name, export: true, params: vec![], ret: None, locals: vec![], labels: vec![], code }
}

fn variable(out: &mut Vec<u8>, index: u64, size: u64, offset: u64) {
    be(out, index);
    out.push(0);
    be(out, 4);
    be(out, size);
    out.push(1);
    be(out, offset);
}

fn image(funcs: &[Func], data: &[Vec<u8>], globals: u64, ops: &[&str]) -> Vec<u8> {
    let mut out = vec![0x4b, 0x4a, 0x50, 1];
    // exported structs
    be(&mut out, 0);
    be(&mut out, 0);
    // exported functions
    let mut names = vec![];
    let mut count = 0;
    for (i, f) in funcs.iter().enumerate() {
        if f.export {
            be(&mut names, i as u64);
            text(&mut names, f.name);
            count += 1;
        }
    }
    be(&mut out, names.len() as u64);
    be(&mut out, count);
    out.extend_from_slice(&names);
    // structs: the twelve atoms
    let sizes = [1u64, 1, 2, 2, 4, 4, 8, 8, 4, 8, WORD as u64, WORD as u64];
    let mut offsets = vec![];
    let mut records = vec![];
    for (i, s) in sizes.iter().enumerate() {
        be(&mut offsets, i as u64);
        be(&mut offsets, records.len() as u64);
        be(&mut records, i as u64);
        be(&mut records, 0);
        be(&mut records, *s);
        records.push(0);
    }
    be(&mut out, offsets.len() as u64);
    be(&mut out, sizes.len() as u64);
    out.extend_from_slice(&offsets);
    out.extend_from_slice(&records);
    // function headers
    let mut offsets = vec![];
    let mut records = vec![];
    for (i, f) in funcs.iter().enumerate() {
        be(&mut offsets, i as u64);
        be(&mut offsets, records.len() as u64);
        be(&mut records, i as u64);
        be(&mut records, f.params.len() as u64);
        let mut at = 0;
        for (k, s) in f.params.iter().enumerate() {
            variable(&mut records, k as u64, *s, at);
            at += s;
        }
        match f.ret {
            Some(t) => {
                records.push(1);
                records.push(0);
                be(&mut records, t);
            }
            None => records.push(0),
        }
        be(&mut records, f.locals.len() as u64);
        let mut at = 0;
        for (k, s) in f.locals.iter().enumerate() {
            variable(&mut records, k as u64, *s, at);
            at += s;
        }
        records.push(0);
        records.push(if f.export { 1 } else { 0 });
    }
    be(&mut out, offsets.len() as u64);
    be(&mut out, funcs.len() as u64);
    out.extend_from_slice(&offsets);
    out.extend_from_slice(&records);
    // constants
    let pool: Vec<u8> = data.iter().flatten().cloned().collect();
    be(&mut out, pool.len() as u64);
    be(&mut out, data.len() as u64);
    out.extend_from_slice(&pool);
    // globals
    be(&mut out, globals);
    // operation names
    let mut table = vec![];
    for o in ops {
        text(&mut table, o);
    }
    be(&mut out, table.len() as u64);
    be(&mut out, ops.len() as u64);
    out.extend_from_slice(&table);
    // bodies
    let mut offsets = vec![];
    let mut records = vec![];
    for (i, f) in funcs.iter().enumerate() {
        be(&mut offsets, i as u64);
        be(&mut offsets, records.len() as u64);
        let mut labels = vec![];
        for (name, at) in &f.labels {
            text(&mut labels, name);
            be(&mut labels, *at);
        }
        let mut body = vec![];
        be(&mut body, labels.len() as u64);
        be(&mut body, f.labels.len() as u64);
        body.extend_from_slice(&labels);
        be(&mut body, f.code.len() as u64);
        be(&mut body, 0);
        body.extend_from_slice(&f.code);
        be(&mut records, body.len() as u64);
        records.extend_from_slice(&body);
    }
    be(&mut out, offsets.len() as u64);
    be(&mut out, funcs.len() as u64);
    out.extend_from_slice(&offsets);
    out.extend_from_slice(&records);
    out
}

fn int32(v: i32) -> Vec<u8> {
    let mut out = vec![5];
    out.extend_from_slice(&v.to_be_bytes());
    out
}

struct Calc {}

impl Processor for Calc {
    fn process_op(
        op: &String,
        params: &[usize],
        targets: &[usize],
        vm: &mut Vm,
    ) -> SimpleResult<OpAction> {
        match op.as_str() {
            "ret" => Ok(OpAction::Return),
            "nop" => Ok(OpAction::Continue),
            "add" => {
                let a = vm.state().load_data::<i32>(params[0])?;
                let b = vm.state().load_data::<i32>(params[1])?;
                vm.state_mut().store_data(targets[0], &(a + b))?;
                Ok(OpAction::Continue)
            }
            "mov" => {
                let a = vm.state().load_data::<i32>(params[0])?;
                vm.state_mut().store_data(targets[0], &a)?;
                Ok(OpAction::Continue)
            }
            "jmp" => match vm.find_label("L") {
                Some(at) => Ok(OpAction::GoTo(at)),
                None => Err(SimpleError::new("no label".to_owned())),
            },
            "alloc" => {
                let n = vm.state().load_data::<i32>(params[0])?;
                let v = vm.state_mut().alloc_memory_value(n as usize)?;
                vm.state_mut().store_data(targets[0], &v.address)?;
                Ok(OpAction::Continue)
            }
            "free" => {
                let a = vm.state().load_data::<usize>(params[0])?;
                let n = vm.state().load_data::<i32>(params[1])?;
                vm.state_mut().dealloc_memory_value(&Value::new(a, n as usize))?;
                Ok(OpAction::Continue)
            }
            _ => Err(SimpleError::new(format!("unknown op {}", op))),
        }
    }
}

fn consume<P: Processor>(vm: &mut Vm) -> SimpleResult<()> {
    vm.consume::<P>()
}

fn ret_program() -> Vec<u8> {
    let mut code = vec![OP_START];
    op1(&mut code, OP_STOP, 0);
    image(&[func("main", code)], &[], 0, &["ret"])
}

#[test]
fn empty_program_runs_to_completion() {
    let mut vm = Vm::from_bytes(ret_program(), 64, 64).unwrap();
    assert_eq!(vm.stage(), ExecutionStage::Uninitialized);
    assert!(!vm.can_resume());
    vm.start("main").unwrap();
    assert_eq!(vm.stage(), ExecutionStage::Running);
    assert!(vm.can_resume());
    consume::<Calc>(&mut vm).unwrap();
    assert_eq!(vm.stage(), ExecutionStage::Complete);
    assert!(!vm.can_resume());
    assert_eq!(vm.state().stack_pos(), 0);
    assert_eq!(vm.callstack().len(), 0);
}

#[test]
fn empty_body_returns_at_once() {
    let mut vm = Vm::from_bytes(image(&[func("main", vec![])], &[], 4, &[]), 16, 16).unwrap();
    vm.start("main").unwrap();
    assert_eq!(vm.globals(), Some(Value::new(16, 4)));
    assert_eq!(vm.data(), None);
    consume::<EmptyProcessor>(&mut vm).unwrap();
    assert_eq!(vm.stage(), ExecutionStage::Complete);
    assert_eq!(vm.state().stack_pos(), 0);
    assert_eq!(vm.pointers().to_vec(), vec![0]);
}

#[test]
fn inline_add_stores_five() {
    let mut code = vec![OP_START];
    op1(&mut code, LOCALS_POINTER, 0);
    code.push(STORE_TARGET);
    code.push(INLINE_START);
    op1(&mut code, DATA_POINTER, 0);
    code.push(STORE_PARAM);
    op1(&mut code, DATA_POINTER, 4);
    code.push(STORE_PARAM);
    code.push(INLINE_STOP);
    be(&mut code, 0);
    be(&mut code, 4);
    code.push(STORE_PARAM);
    op1(&mut code, OP_STOP, 1);
    let mut main = func("main", code);
    main.locals = vec![4];
    let bytes = image(&[main], &[int32(2), int32(3)], 0, &["add", "mov"]);
    let mut vm = Vm::from_bytes(bytes, 64, 64).unwrap();
    vm.start("main").unwrap();
    assert_eq!(vm.data(), Some(Value::new(64, 8)));
    assert_eq!(vm.state().load_data::<i32>(64).unwrap(), 2);
    assert_eq!(vm.state().load_data::<i32>(68).unwrap(), 3);
    let x = vm.callstack()[0].locals().unwrap().address;
    assert_eq!(x, 0);
    consume::<Calc>(&mut vm).unwrap();
    assert_eq!(vm.stage(), ExecutionStage::Complete);
    assert_eq!(vm.state().load_bytes(x, 4).unwrap(), 5i32.to_ne_bytes().to_vec());
    assert_eq!(vm.state().load_data::<i32>(x).unwrap(), 5);
}

#[test]
fn inline_operation_yields_between_steps() {
    let mut code = vec![OP_START];
    op1(&mut code, LOCALS_POINTER, 0);
    code.push(STORE_TARGET);
    code.push(INLINE_START);
    op1(&mut code, DATA_POINTER, 0);
    code.push(STORE_PARAM);
    op1(&mut code, DATA_POINTER, 4);
    code.push(STORE_PARAM);
    code.push(INLINE_STOP);
    be(&mut code, 0);
    be(&mut code, 4);
    code.push(STORE_PARAM);
    op1(&mut code, OP_STOP, 1);
    let mut main = func("main", code);
    main.locals = vec![4];
    let bytes = image(&[main], &[int32(20), int32(22)], 0, &["add", "mov"]);
    let mut vm = Vm::from_bytes(bytes, 64, 64).unwrap();
    vm.start("main").unwrap();
    // the first step ends where the inline operation begins
    assert_eq!(vm.resume_op::<Calc>().unwrap(), true);
    assert_eq!(vm.callstack().len(), 2);
    assert_eq!(vm.callstack()[0].op_target_addresses().to_vec(), vec![0]);
    // the second runs the inline operation
    assert_eq!(vm.resume_op::<Calc>().unwrap(), false);
    assert_eq!(vm.callstack().len(), 1);
    assert_eq!(vm.pointers().to_vec(), vec![4]);
    assert_eq!(vm.state().load_data::<i32>(4).unwrap(), 42);
    // the third runs the operation around it and returns
    assert_eq!(vm.resume_op::<Calc>().unwrap(), false);
    assert_eq!(vm.stage(), ExecutionStage::Complete);
    assert_eq!(vm.state().load_data::<i32>(0).unwrap(), 42);
}

#[test]
fn heap_allocate_and_free_through_the_processor() {
    // local 0: the pointer, the constant: 16
    let mut code = vec![OP_START];
    op1(&mut code, LOCALS_POINTER, 0);
    code.push(STORE_TARGET);
    op1(&mut code, DATA_POINTER, 0);
    code.push(STORE_PARAM);
    op1(&mut code, OP_STOP, 0);
    code.push(OP_START);
    op1(&mut code, LOCALS_POINTER, 0);
    code.push(STORE_PARAM);
    op1(&mut code, DATA_POINTER, 0);
    code.push(STORE_PARAM);
    op1(&mut code, OP_STOP, 1);
    let mut main = func("main", code);
    main.locals = vec![WORD as u64];
    let bytes = image(&[main], &[int32(16)], 0, &["alloc", "free"]);
    let mut vm = Vm::from_bytes(bytes, 64, 64).unwrap();
    vm.start("main").unwrap();
    let before = vm.state().free_blocks().to_vec();
    assert_eq!(before, vec![(4, 60)]);
    vm.resume::<Calc>().unwrap();
    assert_eq!(vm.state().free_blocks().to_vec(), vec![(20, 44)]);
    assert_eq!(vm.state().load_data::<usize>(0).unwrap(), 64 + 4);
    consume::<Calc>(&mut vm).unwrap();
    assert_eq!(vm.state().free_blocks().to_vec(), before);
    assert_eq!(vm.stage(), ExecutionStage::Complete);
}

#[test]
fn go_to_label_sets_the_address() {
    let mut code = vec![OP_START];
    op1(&mut code, OP_STOP, 0);
    code.push(OP_START);
    op1(&mut code, OP_STOP, 1);
    let k = code.len() as u64;
    code.push(OP_START);
    op1(&mut code, OP_STOP, 2);
    let mut main = func("main", code);
    main.labels = vec![("L", k)];
    let bytes = image(&[main], &[], 0, &["jmp", "nop", "ret"]);
    let mut vm = Vm::from_bytes(bytes, 64, 64).unwrap();
    vm.start("main").unwrap();
    assert_eq!(vm.find_label("L"), Some(k as usize));
    assert_eq!(vm.find_label("M"), None);
    vm.resume::<Calc>().unwrap();
    assert_eq!(vm.callstack()[0].address(), k as usize);
    assert!(vm.can_resume());
    vm.resume::<Calc>().unwrap();
    assert_eq!(vm.stage(), ExecutionStage::Complete);
}

#[test]
fn function_call_with_one_parameter() {
    // main: y = double(21)
    let mut main_code = vec![OP_START];
    op1(&mut main_code, LOCALS_POINTER, 0);
    main_code.push(STORE_TARGET);
    op1(&mut main_code, DATA_POINTER, 0);
    op1(&mut main_code, CALL_FUNCTION, 1);
    main_code.push(STORE_PARAM);
    op1(&mut main_code, OP_STOP, 1);
    let mut main = func("main", main_code);
    main.locals = vec![4];
    // double: _ = x + x
    let mut code = vec![OP_START];
    code.push(RESULT_POINTER);
    code.push(STORE_TARGET);
    op1(&mut code, PARAMS_POINTER, 0);
    code.push(STORE_PARAM);
    op1(&mut code, PARAMS_POINTER, 0);
    code.push(STORE_PARAM);
    op1(&mut code, OP_STOP, 0);
    let mut double = func("double", code);
    double.export = false;
    double.params = vec![4];
    double.ret = Some(4);
    let bytes = image(&[main, double], &[int32(21)], 0, &["add", "mov"]);
    let mut vm = Vm::from_bytes(bytes, 64, 64).unwrap();
    vm.start("main").unwrap();
    // the call is a step of its own
    assert_eq!(vm.resume_op::<Calc>().unwrap(), true);
    assert_eq!(vm.callstack().len(), 2);
    let frame = &vm.callstack()[1];
    assert_eq!(frame.function(), 1);
    assert_eq!(frame.params_stackpos(), 4);
    assert_eq!(*frame.result(), Some(Value::new(8, 4)));
    assert_eq!(*frame.locals(), None);
    assert_eq!(vm.state().load_data::<i32>(4).unwrap(), 21);
    // the callee runs its operation and returns
    assert_eq!(vm.resume_op::<Calc>().unwrap(), false);
    assert_eq!(vm.callstack().len(), 1);
    assert_eq!(vm.state().stack_pos(), 4 + 4);
    assert_eq!(vm.pointers().to_vec(), vec![4]);
    assert_eq!(vm.state().load_data::<i32>(4).unwrap(), 42);
    consume::<Calc>(&mut vm).unwrap();
    assert_eq!(vm.stage(), ExecutionStage::Complete);
    assert_eq!(vm.state().load_data::<i32>(0).unwrap(), 42);
    assert_eq!(vm.state().stack_pos(), 0);
}

#[test]
fn fork_has_a_fresh_memory() {
    let mut vm = Vm::from_bytes(ret_program(), 64, 64).unwrap();
    vm.start("main").unwrap();
    let v = vm.state_mut().alloc_memory_value(8).unwrap();
    vm.state_mut().store_bytes(v.address, &[0xaa; 8]).unwrap();
    let free = vm.state().free_blocks().to_vec();
    let mut fork = vm.fork().unwrap();
    assert_eq!(fork.stage(), ExecutionStage::Uninitialized);
    assert_eq!(fork.state().stack_size(), 64);
    assert_eq!(fork.state().memory_size(), 64);
    assert_eq!(fork.state().load_bytes(v.address, 1).unwrap(), vec![0]);
    assert_eq!(fork.callstack().len(), 0);
    let w = fork.state_mut().alloc_memory_value(8).unwrap();
    assert_eq!(w.size, 8);
    assert_eq!(vm.state().free_blocks().to_vec(), free);
    assert_eq!(vm.state().load_bytes(v.address, 8).unwrap(), vec![0xaa; 8]);
    // the fork shares the image
    assert!(fork.assembly().function_by_id("main").is_some());
    fork.start("main").unwrap();
    consume::<Calc>(&mut fork).unwrap();
    assert_eq!(fork.stage(), ExecutionStage::Complete);
    assert_eq!(vm.stage(), ExecutionStage::Running);
    let other = vm.fork_advanced(16, 32).unwrap();
    assert_eq!(other.state().all_size(), 48);
}

#[test]
fn null_pointer_dereferences_to_zero() {
    let mut code = vec![OP_START];
    op1(&mut code, LOCALS_POINTER, 0);
    code.push(DEREFERENCE_POINTER);
    code.push(STORE_PARAM);
    op1(&mut code, OP_STOP, 0);
    let mut main = func("main", code);
    main.locals = vec![WORD as u64];
    let bytes = image(&[main], &[], 0, &["ret"]);
    let mut vm = Vm::from_bytes(bytes, 64, 64).unwrap();
    vm.start("main").unwrap();
    match vm.advance().unwrap() {
        Step::Call(pending) => {
            assert_eq!(pending.name, "ret");
            assert_eq!(pending.params, vec![0]);
            assert_eq!(pending.targets, Vec::<usize>::new());
            assert_eq!(pending.inline, None);
            vm.complete_op(&pending, OpAction::Return).unwrap();
        }
        _ => panic!("an operation was expected"),
    }
    assert_eq!(vm.stage(), ExecutionStage::Complete);
    let last = vm.state().all_size() - 1;
    assert_eq!(vm.state().load_data::<usize>(last).unwrap_err().kind, ErrorKind::OutOfBounds);
}

#[test]
fn reference_and_offset_pointers() {
    let mut code = vec![OP_START];
    op1(&mut code, GLOBALS_POINTER, 4);
    op1(&mut code, OFFSET_POINTER, 2);
    code.push(REFERENCE_POINTER);
    code.push(STORE_PARAM);
    op1(&mut code, OP_STOP, 0);
    let bytes = image(&[func("main", code)], &[], 8, &["ret"]);
    let mut vm = Vm::from_bytes(bytes, 64, 64).unwrap();
    vm.start("main").unwrap();
    match vm.advance().unwrap() {
        Step::Call(pending) => {
            assert_eq!(pending.params, vec![0]);
            assert_eq!(vm.state().load_data::<usize>(0).unwrap(), 64 + 4 + 2);
            assert_eq!(vm.state().stack_pos(), WORD);
            vm.complete_op(&pending, OpAction::Continue).unwrap();
        }
        _ => panic!("an operation was expected"),
    }
    assert_eq!(vm.stage(), ExecutionStage::Complete);
    assert_eq!(vm.state().stack_pos(), 0);
}

#[test]
fn produce_tuple_copies_in_declaration_order() {
    let mut code = vec![OP_START];
    // the parts are lowered in reverse order
    op1(&mut code, DATA_POINTER, 4);
    op1(&mut code, DATA_POINTER, 0);
    code.push(PRODUCE_TUPLE);
    be(&mut code, 2);
    be(&mut code, 4);
    be(&mut code, 4);
    code.push(STORE_PARAM);
    op1(&mut code, OP_STOP, 0);
    let bytes = image(&[func("main", code)], &[int32(7), int32(9)], 0, &["ret"]);
    let mut vm = Vm::from_bytes(bytes, 64, 64).unwrap();
    vm.start("main").unwrap();
    match vm.advance().unwrap() {
        Step::Call(pending) => {
            assert_eq!(pending.params, vec![0]);
            assert_eq!(vm.state().load_data::<i32>(0).unwrap(), 7);
            assert_eq!(vm.state().load_data::<i32>(4).unwrap(), 9);
            assert_eq!(vm.state().stack_pos(), 8);
            assert_eq!(vm.pointers().len(), 0);
        }
        _ => panic!("an operation was expected"),
    }
}

#[test]
fn text_constant_is_followed_by_its_pointer() {
    let mut constant = vec![13];
    text(&mut constant, "hi");
    let bytes = image(&[func("main", vec![])], &[int32(1), constant], 0, &[]);
    let mut vm = Vm::from_bytes(bytes, 16, 64).unwrap();
    vm.start("main").unwrap();
    assert_eq!(vm.data(), Some(Value::new(16, 4 + 3 + WORD)));
    assert_eq!(vm.state().load_bytes(20, 3).unwrap(), vec![b'h', b'i', 0]);
    assert_eq!(vm.state().load_data::<usize>(23).unwrap(), 20);
    assert_eq!(vm.state().load_bytes_while_non_zero(20), vec![b'h', b'i']);
}

#[test]
fn text_constant_with_a_zero_byte_is_refused() {
    let mut constant = vec![13];
    text(&mut constant, "a\0b");
    let bytes = image(&[func("main", vec![])], &[constant], 0, &[]);
    let mut vm = Vm::from_bytes(bytes, 16, 64).unwrap();
    assert_eq!(vm.start("main").unwrap_err().kind, ErrorKind::BadAssembly);
}

#[test]
fn start_checks_stage_and_entry() {
    let mut with_param = func("takes", vec![]);
    with_param.params = vec![4];
    let mut with_result = func("gives", vec![]);
    with_result.ret = Some(4);
    let mut hidden = func("hidden", vec![]);
    hidden.export = false;
    let bytes = image(&[func("main", vec![]), with_param, with_result, hidden], &[], 0, &[]);
    let mut vm = Vm::from_bytes(bytes, 16, 16).unwrap();
    assert_eq!(vm.resume::<Calc>().unwrap_err().kind, ErrorKind::BadStage);
    assert_eq!(vm.resume_op::<Calc>().unwrap_err().kind, ErrorKind::BadStage);
    assert_eq!(vm.start("takes").unwrap_err().kind, ErrorKind::BadEntry);
    assert_eq!(vm.start("gives").unwrap_err().kind, ErrorKind::BadEntry);
    assert_eq!(vm.start("hidden").unwrap_err().kind, ErrorKind::Resolution);
    assert_eq!(vm.start("nothing").unwrap_err().kind, ErrorKind::Resolution);
    assert_eq!(vm.stage(), ExecutionStage::Uninitialized);
    vm.start("main").unwrap();
    assert_eq!(vm.start("main").unwrap_err().kind, ErrorKind::BadStage);
    vm.resume::<Calc>().unwrap();
    assert_eq!(vm.stage(), ExecutionStage::Complete);
    assert_eq!(vm.resume::<Calc>().unwrap_err().kind, ErrorKind::BadStage);
    assert_eq!(vm.start("main").unwrap_err().kind, ErrorKind::BadStage);
}

#[test]
fn region_sizes_are_checked() {
    let image = || VmAssembly::new(ret_program()).unwrap();
    assert_eq!(Vm::new(image(), 6, 8).unwrap_err().kind, ErrorKind::UnalignedRegionSize);
    assert_eq!(Vm::new(image(), 8, 7).unwrap_err().kind, ErrorKind::UnalignedRegionSize);
    assert_eq!(Vm::new(image(), 0, 8).unwrap_err().kind, ErrorKind::UnalignedRegionSize);
    assert_eq!(Vm::new(image(), 8, 0).unwrap_err().kind, ErrorKind::UnalignedRegionSize);
    let huge = usize::MAX - 3;
    assert_eq!(Vm::new(image(), huge, 8).unwrap_err().kind, ErrorKind::OutOfBounds);
    assert!(Vm::new(image(), 8, 8).is_ok());
    let vm = Vm::new(image(), 8, 8).unwrap();
    assert_eq!(vm.fork_advanced(6, 8).unwrap_err().kind, ErrorKind::UnalignedRegionSize);
}

#[test]
fn bad_code_is_bad_assembly() {
    let run = |code: Vec<u8>| {
        let bytes = image(&[func("main", code)], &[], 0, &["ret"]);
        let mut vm = Vm::from_bytes(bytes, 16, 16).unwrap();
        vm.start("main").unwrap();
        vm.resume::<Calc>().unwrap_err().kind
    };
    assert_eq!(run(vec![200]), ErrorKind::BadAssembly);
    assert_eq!(run(vec![0]), ErrorKind::BadAssembly);
    assert_eq!(run(vec![OP_START]), ErrorKind::BadAssembly);
    assert_eq!(run(vec![OP_STOP, 0, 0]), ErrorKind::BadAssembly);
    assert_eq!(run(vec![STORE_PARAM]), ErrorKind::BadAssembly);
    assert_eq!(run(vec![RESULT_POINTER]), ErrorKind::BadAssembly);
    assert_eq!(run(vec![INLINE_STOP, 0, 0, 0, 0, 0, 0, 0, 0, 0, 0, 0, 0, 0, 0, 0, 0]), ErrorKind::BadAssembly);
    let mut unknown_op = vec![OP_START];
    op1(&mut unknown_op, OP_STOP, 5);
    assert_eq!(run(unknown_op), ErrorKind::Resolution);
    let mut unknown_function = vec![];
    op1(&mut unknown_function, CALL_FUNCTION, 9);
    assert_eq!(run(unknown_function), ErrorKind::Resolution);
    let mut far = vec![];
    op1(&mut far, PARAMS_POINTER, 1000);
    far.push(DEREFERENCE_POINTER);
    assert_eq!(run(far), ErrorKind::OutOfBounds);
    let mut deep = vec![];
    for _ in 0..4 {
        op1(&mut deep, PARAMS_POINTER, 0);
        deep.push(REFERENCE_POINTER);
    }
    assert_eq!(run(deep), ErrorKind::StackOverflow);
}

#[test]
fn the_processor_s_failure_is_handed_on() {
    let mut code = vec![OP_START];
    op1(&mut code, OP_STOP, 0);
    let bytes = image(&[func("main", code)], &[], 0, &["what"]);
    let mut vm = Vm::from_bytes(bytes.clone(), 16, 16).unwrap();
    vm.start("main").unwrap();
    let e = vm.resume::<Calc>().unwrap_err();
    assert_eq!(e.kind, ErrorKind::Host);
    assert_eq!(e.message, "unknown op what");
    let mut vm = Vm::from_bytes(bytes, 16, 16).unwrap();
    vm.start("main").unwrap();
    assert_eq!(vm.resume::<EmptyProcessor>().unwrap_err().kind, ErrorKind::NoActiveProcessor);
}

#[test]
fn image_tables_are_decoded() {
    let mut main = func("main", vec![OP_START, OP_STOP, 0, 0, 0, 0, 0, 0, 0, 0]);
    main.locals = vec![4, 8];
    main.labels = vec![("a", 1), ("b", 10)];
    let mut other = func("other", vec![]);
    other.params = vec![4];
    other.ret = Some(6);
    let mut constant = vec![13];
    text(&mut constant, "héllo");
    let data = vec![
        vec![1, 0xff],
        vec![2, 0xff],
        vec![3, 0xff, 0xfe],
        vec![4, 0xff, 0xfe],
        int32(-2),
        vec![6, 0, 0, 1, 0],
        vec![7, 0xff, 0xff, 0xff, 0xff, 0xff, 0xff, 0xff, 0xfd],
        vec![8, 0, 0, 0, 0, 0, 0, 0, 9],
        {
            let mut v = vec![9];
            v.extend_from_slice(&1.5f32.to_bits().to_be_bytes());
            v
        },
        {
            let mut v = vec![10];
            v.extend_from_slice(&2.5f64.to_bits().to_be_bytes());
            v
        },
        {
            let mut v = vec![11];
            v.extend_from_slice(&(-3isize).to_be_bytes());
            v
        },
        {
            let mut v = vec![12];
            v.extend_from_slice(&77usize.to_be_bytes());
            v
        },
        constant,
    ];
    let bytes = image(&[main, other], &data, 24, &["ret", "add"]);
    let a = VmAssembly::new(bytes).unwrap();
    assert_eq!(a.structs().len(), 12);
    assert_eq!(a.structs()[4].size(), 4);
    assert_eq!(a.structs()[4].index(), 4);
    assert_eq!(a.structs()[4].fields().len(), 0);
    assert!(!a.structs()[4].export());
    assert_eq!(a.struct_by_index(11).unwrap().size(), WORD);
    assert!(a.struct_by_index(12).is_none());
    assert!(a.struct_by_id("i32").is_none());
    assert_eq!(a.functions().len(), 2);
    assert_eq!(a.globals_size(), 24);
    assert_eq!(a.ops_map().to_vec(), vec!["ret".to_owned(), "add".to_owned()]);
    assert_eq!(a.export_functions().len(), 2);
    assert_eq!(a.export_functions().get("other"), Some(&1));
    assert_eq!(a.export_structs().len(), 0);
    let f = a.function_by_id("main").unwrap();
    assert_eq!(f.index(), 0);
    assert_eq!(f.params().len(), 0);
    assert!(f.typeid().is_none());
    assert!(f.external().is_none());
    assert!(f.export());
    assert_eq!(f.locals().len(), 2);
    assert_eq!(f.locals()[1].index(), 1);
    assert_eq!(f.locals()[1].size(), 8);
    assert_eq!(*f.locals()[1].offset(), Some(4));
    assert!(matches!(f.locals()[1].typeid(), Type::Identifier(4)));
    let g = a.function_by_index(1).unwrap();
    assert_eq!(g.params().len(), 1);
    assert!(matches!(g.typeid(), Some(Type::Identifier(6))));
    assert_eq!(a.type_size(g.typeid().as_ref().unwrap()), Some(8));
    assert!(a.function_by_index(2).is_none());
    assert!(a.function_by_id("none").is_none());
    let body = a.function_body_by_id("main").unwrap();
    assert_eq!(body.code().len(), 10);
    assert_eq!(body.labels().get("a"), Some(&1));
    assert_eq!(body.labels().get("b"), Some(&10));
    assert_eq!(body.labels().get("c"), None);
    assert_eq!(a.function_body_by_index(1).unwrap().code().len(), 0);
    assert_eq!(a.functions_code().len(), 2);
    assert_eq!(a.data().len(), 13);
    assert!(matches!(a.data()[0], Data::I8(-1)));
    assert!(matches!(a.data()[1], Data::U8(255)));
    assert!(matches!(a.data()[2], Data::I16(-2)));
    assert!(matches!(a.data()[3], Data::U16(0xfffe)));
    assert!(matches!(a.data()[4], Data::I32(-2)));
    assert!(matches!(a.data()[5], Data::U32(256)));
    assert!(matches!(a.data()[6], Data::I64(-3)));
    assert!(matches!(a.data()[7], Data::U64(9)));
    match a.data()[8] {
        Data::F32(bits) => assert_eq!(f32::from_bits(bits), 1.5),
        _ => panic!("a float was expected"),
    }
    match a.data()[9] {
        Data::F64(bits) => assert_eq!(f64::from_bits(bits), 2.5),
        _ => panic!("a float was expected"),
    }
    assert!(matches!(a.data()[10], Data::Isize(-3)));
    assert!(matches!(a.data()[11], Data::Usize(77)));
    match &a.data()[12] {
        Data::String(s) => assert_eq!(s, "héllo"),
        _ => panic!("a text was expected"),
    }
}

#[test]
fn type_sizes() {
    let a = VmAssembly::new(ret_program()).unwrap();
    assert_eq!(a.type_size(&Type::Identifier(2)), Some(2));
    assert_eq!(a.type_size(&Type::Identifier(12)), None);
    assert_eq!(a.type_size(&Type::Pointer(Box::new(Type::Identifier(99)))), Some(WORD));
    let tuple = Type::Tuple(vec![
        Type::Identifier(0),
        Type::Identifier(7),
        Type::Tuple(vec![Type::Identifier(4), Type::Pointer(Box::new(Type::Identifier(0)))]),
    ]);
    assert_eq!(a.type_size(&tuple), Some(1 + 8 + 4 + WORD));
    assert_eq!(a.type_size(&Type::Tuple(vec![])), Some(0));
    assert_eq!(a.type_size(&Type::Tuple(vec![Type::Identifier(40)])), None);
}

#[test]
fn bad_images_are_refused() {
    let kind = |bytes: Vec<u8>| VmAssembly::new(bytes).unwrap_err().kind;
    assert_eq!(kind(vec![]), ErrorKind::BadAssembly);
    assert_eq!(kind(vec![0x4b, 0x4a, 0x50]), ErrorKind::BadAssembly);
    let good = ret_program();
    assert!(VmAssembly::new(good.clone()).is_ok());
    let mut version = good.clone();
    version[3] = 2;
    assert_eq!(kind(version), ErrorKind::BadAssembly);
    let mut magic = good.clone();
    magic[2] = 0x4d;
    assert_eq!(kind(magic), ErrorKind::BadAssembly);
    for cut in [4, 5, 20, good.len() / 2, good.len() - 1] {
        assert_eq!(kind(good[..cut].to_vec()), ErrorKind::BadAssembly);
    }
    let mut longer = good.clone();
    longer.extend_from_slice(&[1, 2, 3]);
    assert!(VmAssembly::new(longer).is_ok());
    let with = |constant: Vec<u8>| image(&[func("main", vec![])], &[constant], 0, &[]);
    assert_eq!(kind(with(vec![0])), ErrorKind::BadAssembly);
    assert_eq!(kind(with(vec![14, 0])), ErrorKind::BadAssembly);
    assert_eq!(kind(with(vec![13, 0, 0, 0, 0, 0, 0, 0, 2, 0xff, 0xfe])), ErrorKind::BadAssembly);
    assert!(VmAssembly::new(with(vec![13, 0, 0, 0, 0, 0, 0, 0, 0])).is_ok());
}

#[test]
fn op_index_bytes() {
    assert_eq!(OpIndex::from_byte(0), Some(OpIndex::NoOp));
    assert_eq!(OpIndex::from_byte(12), Some(OpIndex::ExecuteOpStop));
    assert_eq!(OpIndex::from_byte(16), Some(OpIndex::CallFunction));
    assert_eq!(OpIndex::from_byte(17), None);
    assert_eq!(OpIndex::ProduceTuple.to_byte(), 15);
    for b in 0..=16u8 {
        assert_eq!(OpIndex::from_byte(b).unwrap().to_byte(), b);
    }
}

#[test]
fn run_starts_and_consumes() {
    let mut vm = Vm::from_bytes(ret_program(), 64, 64).unwrap();
    assert_eq!(vm.consume::<Calc>().unwrap_err().kind, ErrorKind::BadStage);
    assert_eq!(vm.stage(), ExecutionStage::Uninitialized);
    vm.run::<Calc>("main").unwrap();
    assert_eq!(vm.stage(), ExecutionStage::Complete);
    assert!(!vm.can_resume());
    assert_eq!(vm.state().stack_pos(), 0);
    assert_eq!(vm.consume::<Calc>().unwrap_err().kind, ErrorKind::BadStage);
    assert_eq!(vm.run::<Calc>("main").unwrap_err().kind, ErrorKind::BadStage);
    let mut vm = Vm::from_bytes(ret_program(), 64, 64).unwrap();
    assert_eq!(vm.run::<Calc>("nothing").unwrap_err().kind, ErrorKind::Resolution);
    let mut vm = Vm::from_bytes(ret_program(), 64, 64).unwrap();
    assert_eq!(vm.run::<EmptyProcessor>("main").unwrap_err().kind, ErrorKind::NoActiveProcessor);
}

struct Never {}

impl Processor for Never {
    fn process_op(_op: &String, _params: &[usize], _targets: &[usize], _vm: &mut Vm) -> SimpleResult<OpAction> {
        panic!("the processor is asked nothing");
    }
}

#[test]
fn an_empty_entry_completes_without_the_processor() {
    let bytes = image(&[func("main", vec![])], &[], 0, &[]);
    let mut vm = Vm::from_bytes(bytes, 64, 64).unwrap();
    vm.run::<Never>("main").unwrap();
    assert_eq!(vm.stage(), ExecutionStage::Complete);
    assert_eq!(vm.state().stack_pos(), 0);
    assert!(!vm.can_resume());
    assert!(vm.callstack().is_empty());
}

#[test]
fn a_refused_start_changes_nothing() {
    let mut vm = Vm::from_bytes(ret_program(), 64, 64).unwrap();
    let free = vm.state().free_blocks().to_vec();
    assert_eq!(vm.start("nothing").unwrap_err().kind, ErrorKind::Resolution);
    assert_eq!(vm.stage(), ExecutionStage::Uninitialized);
    assert_eq!(vm.state().free_blocks().to_vec(), free);
    assert!(vm.callstack().is_empty());
    assert!(vm.pointers().is_empty());
    assert!(vm.data().is_none() && vm.globals().is_none());
    vm.start("main").unwrap();
    let pos = vm.state().stack_pos();
    let frames = vm.callstack().len();
    assert_eq!(vm.start("main").unwrap_err().kind, ErrorKind::BadStage);
    assert_eq!(vm.stage(), ExecutionStage::Running);
    assert_eq!(vm.state().stack_pos(), pos);
    assert_eq!(vm.callstack().len(), frames);
}

#[test]
fn the_failure_of_a_step_is_the_failure_of_the_run() {
    // the code ends within an opcode: the first step fails, the processor is not asked
    let bytes = image(&[func("main", vec![OP_START, OP_STOP])], &[], 0, &["ret"]);
    let mut vm = Vm::from_bytes(bytes.clone(), 64, 64).unwrap();
    assert_eq!(vm.run::<Never>("main").unwrap_err().kind, ErrorKind::BadAssembly);
    let mut vm = Vm::from_bytes(bytes.clone(), 64, 64).unwrap();
    vm.start("main").unwrap();
    assert_eq!(vm.resume::<Never>().unwrap_err().kind, ErrorKind::BadAssembly);
    let mut vm = Vm::from_bytes(bytes, 64, 64).unwrap();
    vm.start("main").unwrap();
    assert_eq!(vm.consume::<Never>().unwrap_err().kind, ErrorKind::BadAssembly);
}
