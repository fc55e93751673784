use kaiju::encode::encode_assembly;
use kaiju::error::{ErrorKind, SimpleError, SimpleResult};
use kaiju::image::{Data, Type as ImageType, VmAssembly};
use kaiju::layout::calculate_type_size;
use kaiju::link::Assembly;
use kaiju::processor::{OpAction, Processor};
use kaiju::program::{
    Access, BlockOp, Entry, Extern, FloatConstant, Function, FunctionHeader, Import, Module, Number,
    OpRule, Operation, OpsDescriptor, Program, Struct, Type, Value, Variable,
};
use kaiju::vm::{ExecutionStage, Vm};

const WORD: usize = std::mem::size_of::<usize>();

fn named(name: &str) -> Type {
    Type::Identifier(name.to_owned())
}

fn ptr(t: Type) -> Type {
    Type::Pointer(Box::new(t))
}

fn var(name: &str, t: Type) -> Variable {
    Variable { id: name.to_owned(), typeid: t }
}

fn integer(v: i64, t: &str) -> Value {
    Value::Number(Number::Integer(v, named(t)))
}

fn decimal(v: f64, t: &str) -> Value {
    Value::Number(Number::Float(
        FloatConstant { text: format!("{}", v), single: (v as f32).to_bits(), double: v.to_bits() },
        named(t),
    ))
}

fn name(n: &str) -> Value {
    Value::Variable(n.to_owned(), None)
}

fn op(name: &str, params: Vec<Value>, targets: Vec<Value>) -> BlockOp {
    BlockOp::Operation(Operation { meta: vec![], id: name.to_owned(), params, targets })
}

fn function(name: &str, params: Vec<Variable>, ret: Option<Type>, locals: Vec<Variable>, body: Vec<BlockOp>) -> Function {
    Function {
        meta: vec![],
        export: true,
        header: FunctionHeader { id: name.to_owned(), params, typeid: ret },
        locals,
        body,
    }
}

fn module(path: &str, functions: Vec<Function>) -> Module {
    Module {
        magic: [0x4b, 0x4a, 0x4d, 1],
        shebang: None,
        path: path.to_owned(),
        meta: vec![],
        imports: vec![],
        globals: vec![],
        externs: vec![],
        structs: vec![],
        functions,
    }
}

fn program(modules: Vec<Module>) -> Program {
    Program::from_modules(None, modules).unwrap()
}

fn rule(name: &str, targets: Vec<Type>) -> OpRule {
    OpRule { meta: vec![], id: name.to_owned(), params: vec![], targets, definition: vec![] }
}

fn rules(list: Vec<OpRule>) -> OpsDescriptor {
    OpsDescriptor { meta: vec![], rules: list }
}

struct Calc {}

impl Processor for Calc {
    fn process_op(
        op: &String,
        params: &[usize],
        targets: &[usize],
        vm: &mut Vm,
    ) -> SimpleResult<OpAction> {
        match op.as_str() {
            "ret" => Ok(OpAction::Return),
            "add" => {
                let a = vm.state().load_data::<i32>(params[0])?;
                let b = vm.state().load_data::<i32>(params[1])?;
                vm.state_mut().store_data(targets[0], &(a + b))?;
                Ok(OpAction::Continue)
            }
            "mov" => {
                let a = vm.state().load_data::<i32>(params[0])?;
                vm.state_mut().store_data(targets[0], &a)?;
                Ok(OpAction::Continue)
            }
            "movb" => {
                let a = vm.state().load_data::<u8>(params[0])?;
                vm.state_mut().store_data(targets[0], &a)?;
                Ok(OpAction::Continue)
            }
            "len" => {
                let p = vm.state().load_data::<usize>(params[0])?;
                let n = vm.state().load_bytes_while_non_zero(p).len() as i32;
                vm.state_mut().store_data(targets[0], &n)?;
                Ok(OpAction::Continue)
            }
            _ => Err(SimpleError::new(format!("unknown op {}", op))),
        }
    }
}

fn run(bytes: Vec<u8>) -> Vm {
    let mut vm = Vm::from_bytes(bytes, 256, 256).unwrap();
    vm.start("main").unwrap();
    while vm.can_resume() {
        vm.resume::<Calc>().unwrap();
    }
    assert_eq!(vm.stage(), ExecutionStage::Complete);
    vm
}

fn be(out: &mut Vec<u8>, v: u64) {
    out.extend_from_slice(&v.to_be_bytes());
}

fn text(out: &mut Vec<u8>, s: &str) {
    be(out, s.len() as u64);
    out.extend_from_slice(s.as_bytes());
}

#[test]
fn empty_main_compiles_and_runs_to_completion() {
    let p = program(vec![module("main.kj", vec![function("main", vec![], None, vec![], vec![])])]);
    let bytes = encode_assembly(&p, &OpsDescriptor::empty()).unwrap();
    let vm = run(bytes);
    assert_eq!(vm.state().stack_pos(), 0);
}

#[test]
fn minimal_image_has_the_documented_layout() {
    let p = program(vec![module(
        "main.kj",
        vec![function("main", vec![], None, vec![], vec![op("ret", vec![], vec![])])],
    )]);
    let bytes = encode_assembly(&p, &rules(vec![rule("ret", vec![])])).unwrap();
    let mut expected = vec![0x4b, 0x4a, 0x50, 1];
    // exported structs
    be(&mut expected, 0);
    be(&mut expected, 0);
    // exported functions
    be(&mut expected, 8 + 8 + 4);
    be(&mut expected, 1);
    be(&mut expected, 0);
    text(&mut expected, "main");
    // structs
    let sizes = [1u64, 1, 2, 2, 4, 4, 8, 8, 4, 8, WORD as u64, WORD as u64];
    be(&mut expected, 12 * 16);
    be(&mut expected, 12);
    for i in 0..12u64 {
        be(&mut expected, i);
        be(&mut expected, i * 25);
    }
    for (i, s) in sizes.iter().enumerate() {
        be(&mut expected, i as u64);
        be(&mut expected, 0);
        be(&mut expected, *s);
        expected.push(0);
    }
    // function headers
    be(&mut expected, 16);
    be(&mut expected, 1);
    be(&mut expected, 0);
    be(&mut expected, 0);
    be(&mut expected, 0);
    be(&mut expected, 0);
    expected.push(0);
    be(&mut expected, 0);
    expected.push(0);
    expected.push(1);
    // constants
    be(&mut expected, 0);
    be(&mut expected, 0);
    // globals
    be(&mut expected, 0);
    // operation names
    be(&mut expected, 8 + 3);
    be(&mut expected, 1);
    text(&mut expected, "ret");
    // bodies
    be(&mut expected, 16);
    be(&mut expected, 1);
    be(&mut expected, 0);
    be(&mut expected, 0);
    be(&mut expected, 8 * 4 + 10);
    be(&mut expected, 0);
    be(&mut expected, 0);
    be(&mut expected, 10);
    be(&mut expected, 1);
    expected.push(11);
    expected.push(12);
    be(&mut expected, 0);
    assert_eq!(bytes, expected);
    let vm = run(bytes);
    assert_eq!(vm.state().stack_pos(), 0);
}

#[test]
fn inline_add_is_lowered_and_run() {
    let body = vec![op(
        "mov",
        vec![Value::OperationInline("add".to_owned(), vec![integer(2, "i32"), integer(3, "i32")], None)],
        vec![name("x")],
    )];
    let p = program(vec![module(
        "main.kj",
        vec![function("main", vec![], None, vec![var("x", named("i32"))], body)],
    )]);
    let ops = rules(vec![rule("mov", vec![named("i32")]), rule("add", vec![named("i32")])]);
    let bytes = encode_assembly(&p, &ops).unwrap();
    let a = VmAssembly::new(bytes.clone()).unwrap();
    assert_eq!(a.ops_map().to_vec(), vec!["mov".to_owned(), "add".to_owned()]);
    assert_eq!(a.data().len(), 2);
    assert!(matches!(a.data()[0], Data::I32(2)));
    assert!(matches!(a.data()[1], Data::I32(3)));
    let code = a.function_body_by_id("main").unwrap().code().to_vec();
    let mut expected = vec![11u8, 4];
    be(&mut expected, 0);
    expected.push(9);
    expected.push(13);
    expected.push(1);
    be(&mut expected, 0);
    expected.push(10);
    expected.push(1);
    be(&mut expected, 4);
    expected.push(10);
    expected.push(14);
    be(&mut expected, 1);
    be(&mut expected, 4);
    expected.push(10);
    expected.push(12);
    be(&mut expected, 0);
    assert_eq!(code, expected);
    let vm = run(bytes);
    assert_eq!(vm.state().load_data::<i32>(0).unwrap(), 5);
}

#[test]
fn function_call_is_lowered_and_run() {
    let double = function(
        "double",
        vec![var("x", named("i32"))],
        Some(named("i32")),
        vec![],
        vec![op("add", vec![name("x"), name("x")], vec![name("_")])],
    );
    let main = function(
        "main",
        vec![],
        None,
        vec![var("y", named("i32"))],
        vec![op(
            "mov",
            vec![Value::FunctionCall("double".to_owned(), vec![integer(21, "i32")], None)],
            vec![name("y")],
        )],
    );
    let p = program(vec![module("main.kj", vec![main, double])]);
    let bytes = encode_assembly(&p, &OpsDescriptor::empty()).unwrap();
    let a = VmAssembly::new(bytes.clone()).unwrap();
    let f = a.function_by_id("double").unwrap();
    assert_eq!(f.index(), 1);
    assert_eq!(f.params().len(), 1);
    assert_eq!(*f.params()[0].offset(), Some(0));
    assert!(matches!(f.typeid(), Some(ImageType::Identifier(4))));
    let vm = run(bytes);
    assert_eq!(vm.state().load_data::<i32>(0).unwrap(), 42);
}

#[test]
fn text_constants_are_stored_with_a_pointer() {
    let main = function(
        "main",
        vec![],
        None,
        vec![var("n", named("i32"))],
        vec![op(
            "len",
            vec![Value::String("héllo".to_owned(), ptr(named("u8"))), integer(7, "i8")],
            vec![name("n")],
        )],
    );
    let p = program(vec![module("main.kj", vec![main])]);
    let bytes = encode_assembly(&p, &OpsDescriptor::empty()).unwrap();
    let a = VmAssembly::new(bytes.clone()).unwrap();
    assert_eq!(a.data().len(), 2);
    match &a.data()[0] {
        Data::String(s) => assert_eq!(s, "héllo"),
        _ => panic!("a text was expected"),
    }
    assert!(matches!(a.data()[1], Data::I8(7)));
    let code = a.function_body_by_id("main").unwrap().code().to_vec();
    // target, then the text at the offset of its pointer, then the integer behind it
    let mut expected = vec![11u8, 4];
    be(&mut expected, 0);
    expected.push(9);
    expected.push(1);
    be(&mut expected, 7);
    expected.push(10);
    expected.push(1);
    be(&mut expected, 7 + WORD as u64);
    expected.push(10);
    expected.push(12);
    be(&mut expected, 0);
    assert_eq!(code, expected);
    let vm = run(bytes);
    assert_eq!(vm.state().load_data::<i32>(0).unwrap(), 6);
}

#[test]
fn text_with_a_zero_byte_is_refused() {
    let main = function(
        "main",
        vec![],
        None,
        vec![],
        vec![op("len", vec![Value::String("a\0b".to_owned(), ptr(named("u8")))], vec![])],
    );
    let p = program(vec![module("main.kj", vec![main])]);
    let e = encode_assembly(&p, &OpsDescriptor::empty()).unwrap_err();
    assert_eq!(e.kind, ErrorKind::TypeError);
}

#[test]
fn constants_need_matching_types() {
    let with = |v: Value| {
        let main = function("main", vec![], None, vec![], vec![op("nop", vec![v], vec![])]);
        encode_assembly(&program(vec![module("m", vec![main])]), &OpsDescriptor::empty())
    };
    assert_eq!(with(Value::String("a".to_owned(), named("u8"))).unwrap_err().kind, ErrorKind::TypeError);
    assert_eq!(with(integer(1, "f32")).unwrap_err().kind, ErrorKind::TypeError);
    assert_eq!(with(decimal(1.0, "i32")).unwrap_err().kind, ErrorKind::TypeError);
    assert!(with(decimal(1.5, "f32")).is_ok());
    assert!(with(integer(-1, "usize")).is_ok());
}

#[test]
fn constants_are_written_once_in_their_width() {
    let main = function(
        "main",
        vec![],
        None,
        vec![],
        vec![op(
            "nop",
            vec![
                integer(-2, "i16"),
                integer(-2, "i64"),
                integer(300, "u8"),
                decimal(1.5, "f32"),
                decimal(2.5, "f64"),
                decimal(1.5, "f64"),
                integer(-1, "isize"),
                integer(65536 + 5, "u16"),
                integer(9, "u64"),
            ],
            vec![],
        )],
    );
    let bytes = encode_assembly(&program(vec![module("m", vec![main])]), &OpsDescriptor::empty()).unwrap();
    let a = VmAssembly::new(bytes).unwrap();
    assert_eq!(a.data().len(), 7);
    assert!(matches!(a.data()[0], Data::I16(-2)));
    assert!(matches!(a.data()[1], Data::U8(44)));
    match a.data()[2] {
        Data::F32(bits) => assert_eq!(f32::from_bits(bits), 1.5),
        _ => panic!("a float was expected"),
    }
    match a.data()[3] {
        Data::F64(bits) => assert_eq!(f64::from_bits(bits), 2.5),
        _ => panic!("a float was expected"),
    }
    assert!(matches!(a.data()[4], Data::Isize(-1)));
    assert!(matches!(a.data()[5], Data::U16(5)));
    assert!(matches!(a.data()[6], Data::U64(9)));
    let code = a.function_body_by_id("main").unwrap().code().to_vec();
    let offsets = [0u64, 0, 2, 3, 7, 3, 15, 15 + WORD as u64, 17 + WORD as u64];
    let mut expected = vec![11u8];
    for o in offsets {
        expected.push(1);
        be(&mut expected, o);
        expected.push(10);
    }
    expected.push(12);
    be(&mut expected, 0);
    assert_eq!(code, expected);
}

fn point_module() -> Module {
    let mut m = module("main.kj", vec![]);
    m.structs = vec![
        Struct {
            meta: vec![],
            export: true,
            id: "Point".to_owned(),
            fields: vec![var("x", named("u8")), var("y", named("i32")), var("next", ptr(named("Point")))],
        },
        Struct {
            meta: vec![],
            export: false,
            id: "Line".to_owned(),
            fields: vec![var("a", named("Point")), var("b", named("Point"))],
        },
    ];
    m.globals = vec![var("origin", named("Point")), var("count", named("i32"))];
    m
}

#[test]
fn structs_are_laid_out_without_padding() {
    let mut m = point_module();
    m.functions = vec![function("main", vec![], None, vec![], vec![])];
    let p = program(vec![m]);
    assert_eq!(calculate_type_size(&named("Point"), &p).unwrap(), 5 + WORD);
    assert_eq!(calculate_type_size(&named("Line"), &p).unwrap(), 2 * (5 + WORD));
    assert_eq!(calculate_type_size(&named("nothing"), &p).unwrap(), 0);
    assert_eq!(calculate_type_size(&ptr(named("nothing")), &p).unwrap(), WORD);
    assert_eq!(
        calculate_type_size(&Type::Tuple(vec![named("u16"), named("Line"), named("f64")]), &p).unwrap(),
        2 + 2 * (5 + WORD) + 8
    );
    let a = Assembly::from_core(&p).unwrap();
    assert_eq!(a.structs().len(), 14);
    let point = &a.structs()[12];
    assert_eq!(point.id(), "Point");
    assert_eq!(point.index(), 12);
    assert_eq!(point.size(), 5 + WORD);
    assert!(point.export());
    let offsets: Vec<usize> = point.fields().iter().map(|f| f.offset()).collect();
    assert_eq!(offsets, vec![0, 1, 5]);
    assert_eq!(point.find_field("y").unwrap().size(), 4);
    assert!(point.find_field("z").is_none());
    assert_eq!(a.export_structs().to_vec(), vec![12]);
    assert_eq!(a.export_functions().to_vec(), vec![0]);
    assert_eq!(a.globals().len(), 2);
    assert_eq!(a.globals()[1].index(), 1);
    assert_eq!(a.globals()[1].id(), "count");
    assert_eq!(*a.globals()[1].offset(), None);
    assert_eq!(a.modules().len(), 1);
    assert_eq!(a.modules()[0].structs().to_vec(), vec![12, 13]);
    assert_eq!(a.modules()[0].globals().to_vec(), vec![0, 1]);
    assert_eq!(a.modules()[0].functions().to_vec(), vec![0]);
    let bytes = a.to_bytes(&OpsDescriptor::empty()).unwrap();
    let image = VmAssembly::new(bytes).unwrap();
    assert_eq!(image.globals_size(), 5 + WORD + 4);
    let s = image.struct_by_id("Point").unwrap();
    assert_eq!(s.size(), 5 + WORD);
    assert_eq!(s.fields().len(), 3);
    assert_eq!(s.fields()[2].offset(), 5);
    assert!(matches!(s.fields()[2].typeid(), ImageType::Pointer(_)));
    assert!(image.struct_by_id("Line").is_none());
    assert_eq!(image.struct_by_index(13).unwrap().size(), 2 * (5 + WORD));
}

#[test]
fn recursive_structs_have_no_size() {
    let mut m = module("m", vec![]);
    m.structs = vec![Struct {
        meta: vec![],
        export: false,
        id: "Knot".to_owned(),
        fields: vec![var("inner", named("Knot"))],
    }];
    let p = program(vec![m]);
    assert_eq!(calculate_type_size(&named("Knot"), &p).unwrap_err().kind, ErrorKind::TypeError);
    assert_eq!(Assembly::from_core(&p).unwrap_err().kind, ErrorKind::TypeError);
}

#[test]
fn accesses_are_lowered_to_offsets() {
    let field = |n: &str, next: Option<Access>| Access::Variable(n.to_owned(), next.map(Box::new));
    let mut m = point_module();
    let body = vec![op(
        "movb",
        vec![
            // line.b.y
            Value::Variable("line".to_owned(), Some(Box::new(field("b", Some(field("y", None)))))),
            // (*origin.next).x through the global
            Value::Deref(
                Box::new(Value::Variable("origin".to_owned(), Some(Box::new(field("next", None))))),
                Some(Box::new(field("y", None))),
            ),
            // (3u8, line).1.a.next
            Value::Tuple(
                vec![integer(3, "u8"), name("line")],
                Some(Box::new(Access::Tuple(
                    1,
                    Some(Box::new(field("a", Some(field("next", None))))),
                ))),
            ),
            // &count
            Value::Ref(Box::new(name("count")), None),
        ],
        vec![name("p")],
    )];
    m.functions = vec![function(
        "main",
        vec![var("p", named("u8"))],
        None,
        vec![var("skip", named("i64")), var("line", named("Line"))],
        body,
    )];
    let p = program(vec![m]);
    let bytes = encode_assembly(&p, &OpsDescriptor::empty()).unwrap();
    let a = VmAssembly::new(bytes).unwrap();
    let code = a.function_body_by_index(0).unwrap().code().to_vec();
    let point = 5 + WORD as u64;
    let mut expected = vec![11u8];
    // target: parameter p
    expected.push(2);
    be(&mut expected, 0);
    expected.push(9);
    // line.b.y
    expected.push(4);
    be(&mut expected, 8);
    expected.push(6);
    be(&mut expected, point);
    expected.push(6);
    be(&mut expected, 1);
    expected.push(10);
    // *(origin.next) . y
    expected.push(5);
    be(&mut expected, 0);
    expected.push(6);
    be(&mut expected, 5);
    expected.push(8);
    expected.push(6);
    be(&mut expected, 1);
    expected.push(10);
    // the tuple: parts in reverse, then sizes in order, then the access
    expected.push(4);
    be(&mut expected, 8);
    expected.push(1);
    be(&mut expected, 0);
    expected.push(15);
    be(&mut expected, 2);
    be(&mut expected, 1);
    be(&mut expected, 2 * point);
    expected.push(6);
    be(&mut expected, 1);
    expected.push(6);
    be(&mut expected, 0);
    expected.push(6);
    be(&mut expected, 5);
    expected.push(10);
    // &count
    expected.push(5);
    be(&mut expected, point);
    expected.push(7);
    expected.push(10);
    expected.push(12);
    be(&mut expected, 0);
    assert_eq!(code, expected);
}

#[test]
fn wrong_values_are_refused() {
    let field = |n: &str| Some(Box::new(Access::Variable(n.to_owned(), None)));
    let part = |i: i64| Some(Box::new(Access::Tuple(i, None)));
    let with = |v: Value| {
        let mut m = point_module();
        m.functions = vec![
            function("main", vec![], None, vec![var("pt", named("Point"))], vec![op("nop", vec![v], vec![])]),
            function("quiet", vec![], None, vec![], vec![]),
        ];
        encode_assembly(&program(vec![m]), &OpsDescriptor::empty()).map(|_| ()).map_err(|e| e.kind)
    };
    assert_eq!(with(name("pt")), Ok(()));
    assert_eq!(with(name("nobody")), Err(ErrorKind::Resolution));
    assert_eq!(with(name("_")), Err(ErrorKind::Resolution));
    assert_eq!(with(Value::Variable("_".to_owned(), field("x"))), Err(ErrorKind::TypeError));
    assert_eq!(with(Value::Variable("pt".to_owned(), field("z"))), Err(ErrorKind::TypeError));
    assert_eq!(with(Value::Variable("pt".to_owned(), part(0))), Err(ErrorKind::TypeError));
    assert_eq!(with(Value::Variable("count".to_owned(), field("x"))), Err(ErrorKind::TypeError));
    assert_eq!(with(Value::Ref(Box::new(name("pt")), field("x"))), Err(ErrorKind::TypeError));
    assert_eq!(with(Value::Deref(Box::new(name("pt")), field("x"))), Ok(()));
    assert_eq!(with(Value::Deref(Box::new(name("pt")), field("z"))), Err(ErrorKind::TypeError));
    assert_eq!(with(Value::Deref(Box::new(name("pt")), None)), Ok(()));
    assert_eq!(with(Value::FunctionCall("nothing".to_owned(), vec![], None)), Err(ErrorKind::Resolution));
    assert_eq!(with(Value::FunctionCall("quiet".to_owned(), vec![], None)), Ok(()));
    assert_eq!(with(Value::FunctionCall("quiet".to_owned(), vec![], field("x"))), Err(ErrorKind::TypeError));
    assert_eq!(with(Value::OperationInline("nop".to_owned(), vec![], None)), Err(ErrorKind::Resolution));
    assert_eq!(with(Value::Tuple(vec![name("pt"), name("count")], part(2))), Err(ErrorKind::TypeError));
    assert_eq!(with(Value::Tuple(vec![name("pt"), name("count")], part(-1))), Err(ErrorKind::TypeError));
    assert_eq!(with(Value::Tuple(vec![name("pt"), name("count")], part(1))), Ok(()));
    assert_eq!(with(Value::Tuple(vec![name("pt")], field("x"))), Err(ErrorKind::TypeError));
}

#[test]
fn imports_and_externs_are_linked() {
    let mut lib = module("lib.kj", vec![function("helper", vec![], None, vec![], vec![])]);
    lib.structs = vec![Struct { meta: vec![], export: false, id: "Pair".to_owned(), fields: vec![var("a", named("u8"))] }];
    let ext = |n: &str| Extern {
        meta: vec![],
        item: FunctionHeader { id: n.to_owned(), params: vec![var("v", named("i64"))], typeid: Some(named("i32")) },
        location_module: "host".to_owned(),
        location_function: format!("host_{}", n),
    };
    lib.externs = vec![ext("print")];
    let mut main = module("main.kj", vec![function("main", vec![], None, vec![], vec![])]);
    main.imports = vec![Import {
        meta: vec![],
        names: vec!["helper".to_owned(), "Pair".to_owned(), "ghost".to_owned()],
        module: "lib.kj".to_owned(),
    }];
    main.externs = vec![ext("print"), ext("scan")];
    let p = program(vec![lib, main]);
    let a = Assembly::from_core(&p).unwrap();
    assert_eq!(a.functions().len(), 4);
    let ids: Vec<&str> = a.functions().iter().map(|f| f.id()).collect();
    assert_eq!(ids, vec!["helper", "main", "print", "scan"]);
    let indices: Vec<usize> = a.functions().iter().map(|f| f.index()).collect();
    assert_eq!(indices, vec![0, 1, 2, 3]);
    assert_eq!(a.functions()[2].external().clone().unwrap(), ("host".to_owned(), "host_print".to_owned()));
    assert!(!a.functions()[2].export());
    assert_eq!(a.functions()[2].params()[0].size(), 8);
    assert_eq!(a.modules()[0].functions().to_vec(), vec![0, 2]);
    assert_eq!(a.modules()[0].structs().to_vec(), vec![12]);
    assert_eq!(a.modules()[1].functions().to_vec(), vec![1, 0, 2, 3]);
    assert_eq!(a.modules()[1].structs().to_vec(), vec![12]);
    assert_eq!(a.modules()[1].index(), 1);
    let bytes = a.to_bytes(&OpsDescriptor::empty()).unwrap();
    let image = VmAssembly::new(bytes).unwrap();
    assert_eq!(image.functions().len(), 4);
    let external = image.function_by_index(3).unwrap();
    assert_eq!(external.external().clone().unwrap(), ("host".to_owned(), "host_scan".to_owned()));
    assert!(image.function_by_id("print").is_none());
    assert_eq!(image.function_by_id("main").unwrap().index(), 1);
    let mut broken = module("main.kj", vec![]);
    broken.imports = vec![Import { meta: vec![], names: vec![], module: "gone.kj".to_owned() }];
    assert_eq!(Assembly::from_core(&program(vec![broken])).unwrap_err().kind, ErrorKind::Resolution);
}

#[test]
fn program_entry_is_checked() {
    let m = || module("m", vec![function("main", vec![], None, vec![], vec![])]);
    assert!(Program::from_modules(Some(Entry::new(0, 0)), vec![m()]).is_ok());
    assert_eq!(
        Program::from_modules(Some(Entry::new(1, 0)), vec![m()]).unwrap_err().kind,
        ErrorKind::Resolution
    );
    assert_eq!(
        Program::from_modules(Some(Entry::new(0, 1)), vec![m()]).unwrap_err().kind,
        ErrorKind::Resolution
    );
    let p = Program::from_modules(None, vec![point_module(), m()]).unwrap();
    assert_eq!(p.magic, [0x4b, 0x4a, 0x50, 1]);
    assert_eq!(p.modules_map(), vec![(0, "main.kj".to_owned()), (1, "m".to_owned())]);
    assert_eq!(p.find_struct("Line").unwrap().fields.len(), 2);
    assert!(p.find_struct("Circle").is_none());
    assert!(p.find_module("m").unwrap().find_function("main").is_some());
    assert!(p.find_module("n").is_none());
    assert!(p.find_module_struct("main.kj", "Point").is_some());
    assert!(p.find_module_struct("m", "Point").is_none());
    assert_eq!(p.modules[0].structs_map(), vec![(0, "Point".to_owned()), (1, "Line".to_owned())]);
    assert_eq!(p.modules[0].globals_map(), vec![(0, "origin".to_owned()), (1, "count".to_owned())]);
    assert_eq!(p.modules[1].functions_map(), vec![(0, "main".to_owned())]);
    assert_eq!(p.modules[1].externs_map(), vec![]);
}

#[test]
fn types_have_texts_and_wildcards() {
    let t = Type::Tuple(vec![named("i32"), ptr(ptr(named("u8"))), Type::Tuple(vec![])]);
    assert_eq!(t.to_string(), "(i32, **u8, ())");
    assert_eq!(var("a", ptr(named("T"))).to_string(), "a:*T");
    assert_eq!(t.duplicate().to_string(), t.to_string());
    assert!(named("?").matches(&t));
    assert!(t.matches(&named("?")));
    assert!(named("i32").matches(&named("i32")));
    assert!(!named("i32").matches(&named("u32")));
    assert!(!named("i32").matches(&ptr(named("i32"))));
    assert!(ptr(named("?")).matches(&ptr(t.duplicate())));
    assert!(!ptr(named("i32")).matches(&t));
    assert!(Type::Tuple(vec![named("?"), named("u8")]).matches(&Type::Tuple(vec![t.duplicate(), named("u8")])));
    assert!(!Type::Tuple(vec![named("u8")]).matches(&Type::Tuple(vec![named("u8"), named("u8")])));
    assert_eq!(named("x").as_identifier(), Some("x"));
    assert!(named("x").as_pointer().is_none());
    assert_eq!(ptr(named("x")).as_pointer().unwrap().to_string(), "x");
    assert_eq!(t.as_tuple().unwrap().len(), 3);
    let merged = OpsDescriptor::merge(vec![
        rules(vec![rule("a", vec![]), rule("b", vec![])]),
        OpsDescriptor::empty(),
        rules(vec![rule("c", vec![])]),
    ]);
    let ids: Vec<&str> = merged.rules.iter().map(|r| r.id.as_str()).collect();
    assert_eq!(ids, vec!["a", "b", "c"]);
    let label = BlockOp::Label("L".to_owned());
    assert!(!label.is_operation());
    assert_eq!(label.as_label().unwrap(), "L");
    assert!(label.as_operation().is_none());
    assert!(op("x", vec![], vec![]).is_operation());
}

#[test]
fn labels_are_entered_with_their_offsets() {
    let body = vec![
        BlockOp::Label("start".to_owned()),
        op("nop", vec![], vec![]),
        BlockOp::Label("end".to_owned()),
    ];
    let p = program(vec![module("m", vec![function("main", vec![], None, vec![], body)])]);
    let bytes = encode_assembly(&p, &OpsDescriptor::empty()).unwrap();
    let a = VmAssembly::new(bytes).unwrap();
    let b = a.function_body_by_id("main").unwrap();
    assert_eq!(b.labels().get("start"), Some(&0));
    assert_eq!(b.labels().get("end"), Some(&10));
    assert_eq!(b.code().len(), 10);
}

#[test]
fn a_text_with_a_zero_byte_is_refused_wherever_it_stands() {
    let bad = || Value::String("a\0b".to_owned(), ptr(named("u8")));
    let with = |params: Vec<Value>, targets: Vec<Value>| {
        let quiet = function("quiet", vec![], None, vec![], vec![BlockOp::Label("top".to_owned())]);
        let main = function(
            "main",
            vec![],
            None,
            vec![],
            vec![op("nop", vec![integer(1, "i32")], vec![]), BlockOp::Label("l".to_owned()), op("len", params, targets)],
        );
        let p = program(vec![module("other.kj", vec![quiet]), module("main.kj", vec![main])]);
        encode_assembly(&p, &OpsDescriptor::empty())
    };
    assert!(with(vec![Value::String("ab".to_owned(), ptr(named("u8")))], vec![]).is_ok());
    assert!(with(vec![bad()], vec![]).is_err());
    assert!(with(vec![], vec![bad()]).is_err());
    assert!(with(vec![Value::Ref(Box::new(bad()), None)], vec![]).is_err());
    assert!(with(vec![Value::Deref(Box::new(bad()), None)], vec![]).is_err());
    assert!(with(vec![integer(2, "i32"), Value::Tuple(vec![integer(3, "i32"), bad()], None)], vec![]).is_err());
    assert!(with(vec![Value::FunctionCall("quiet".to_owned(), vec![Value::Tuple(vec![bad()], None)], None)], vec![]).is_err());
    assert!(with(vec![Value::OperationInline("nop".to_owned(), vec![bad()], None)], vec![]).is_err());
}
