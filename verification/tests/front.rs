use kaiju::ast::{
    AstAccess, AstBlockOp, AstExtern, AstFloat, AstFunction, AstFunctionHeader, AstIdentifier,
    AstImport, AstInstruction, AstInteger, AstMeta, AstMetaField, AstMetaValue, AstModule,
    AstNumber, AstOpParam, AstOpRule, AstOpRuleDef, AstOpRuleDefDesc, AstOperation,
    AstOpsDescriptor, AstString, AstStruct, AstType, AstValue, AstVariable,
};
use kaiju::auto_types::{
    transform_function_auto_types, transform_module_auto_types, transform_value_auto_types,
};
use kaiju::checks::{
    check_op, find_access_value_type, find_value_type, validate_function_header, validate_struct,
    validate_type, Rule, Tables,
};
use kaiju::convert::{convert_ast_meta, convert_ast_op_definition};
use kaiju::error::{ErrorKind, SimpleError, SimpleResult};
use kaiju::names::NameTable;
use kaiju::program::{
    Access, BlockOp, Extern, FloatConstant, Function, FunctionHeader, Import, Meta, MetaValue,
    Module, Number, OpParam, OpRule, Operation, OpsDescriptor, Program, Struct, Type, Value,
    Variable,
};
use kaiju::resolve::{resolve_function_variables, resolve_module_functions, resolve_module_types};
use kaiju::validator::{
    compile_program, ensure_no_duplicates_module, DeepValidator, EmptyDeepValidator, Validator,
};

fn aid(name: &str) -> AstIdentifier {
    AstIdentifier(name.to_owned())
}

fn atype(name: &str) -> AstType {
    AstType::Identifier(aid(name))
}

fn avar(name: &str, t: AstType) -> AstVariable {
    AstVariable { id: aid(name), typeid: t }
}

fn ainteger(v: i64, t: &str) -> AstValue {
    AstValue::Number(AstNumber::Integer(AstInteger(v, atype(t))))
}

fn ty(name: &str) -> Type {
    Type::Identifier(name.to_owned())
}

fn pointer(t: Type) -> Type {
    Type::Pointer(Box::new(t))
}

fn variable(name: &str, t: Type) -> Variable {
    Variable { id: name.to_owned(), typeid: t }
}

fn whole(v: i64, t: &str) -> Value {
    Value::Number(Number::Integer(v, ty(t)))
}

fn read(n: &str) -> Value {
    Value::Variable(n.to_owned(), None)
}

fn field(n: &str, f: &str) -> Value {
    Value::Variable(n.to_owned(), Some(Box::new(Access::Variable(f.to_owned(), None))))
}

fn step(name: &str, params: Vec<Value>, targets: Vec<Value>) -> BlockOp {
    BlockOp::Operation(Operation { meta: vec![], id: name.to_owned(), params, targets })
}

fn func(name: &str, params: Vec<Variable>, ret: Option<Type>, locals: Vec<Variable>, body: Vec<BlockOp>) -> Function {
    Function {
        meta: vec![],
        export: true,
        header: FunctionHeader { id: name.to_owned(), params, typeid: ret },
        locals,
        body,
    }
}

fn strukt(name: &str, fields: Vec<Variable>) -> Struct {
    Struct { meta: vec![], export: true, id: name.to_owned(), fields }
}

fn unit(path: &str) -> Module {
    Module {
        magic: [0x4b, 0x4a, 0x4d, 1],
        shebang: None,
        path: path.to_owned(),
        meta: vec![],
        imports: vec![],
        globals: vec![],
        externs: vec![],
        structs: vec![],
        functions: vec![],
    }
}

fn import(module: &str, names: &[&str]) -> Import {
    Import { meta: vec![], names: names.iter().map(|n| n.to_string()).collect(), module: module.to_owned() }
}

fn whole_program(modules: Vec<Module>) -> Program {
    Program::from_modules(None, modules).unwrap()
}

fn op_rule(name: &str, params: Vec<(&str, Type)>, targets: Vec<Type>) -> OpRule {
    OpRule {
        meta: vec![],
        id: name.to_owned(),
        params: params.into_iter().map(|(n, t)| OpParam { id: n.to_owned(), typeid: t }).collect(),
        targets,
        definition: vec![],
    }
}

fn dialect() -> OpsDescriptor {
    OpsDescriptor {
        meta: vec![],
        rules: vec![
            op_rule("add", vec![("a", ty("i32")), ("b", ty("i32"))], vec![ty("i32")]),
            op_rule("pass", vec![], vec![]),
            op_rule("any", vec![("v", ty("?"))], vec![]),
        ],
    }
}

fn kind_of<T>(r: SimpleResult<T>) -> ErrorKind {
    match r {
        Ok(_) => panic!("a failure was expected"),
        Err(e) => e.kind,
    }
}

// ---------------------------------------------------------------------------
// From the syntax tree
// ---------------------------------------------------------------------------

#[test]
fn types_keep_their_shape() {
    let ast = AstType::Tuple(vec![atype("i32"), AstType::Pointer(Box::new(atype("u8")))]);
    let t = Type::from_ast(&ast).unwrap();
    assert_eq!(t.to_string(), "(i32, *u8)");
    assert_eq!(Type::from_ast(&AstType::default()).unwrap().to_string(), "");
}

#[test]
fn values_keep_their_shape() {
    let ast = AstValue::FunctionCall(
        aid("f"),
        vec![
            ainteger(3, "i32"),
            AstValue::Ref(Box::new(AstValue::Variable(aid("x"), None)), None),
            AstValue::String(AstString("hi".to_owned(), AstType::Pointer(Box::new(atype("u8"))))),
        ],
        Some(Box::new(AstAccess::Tuple(
            AstInteger(1, atype("i32")),
            Some(Box::new(AstAccess::Variable(aid("y"), None))),
        ))),
    );
    match Value::from_ast(&ast).unwrap() {
        Value::FunctionCall(name, args, access) => {
            assert_eq!(name, "f");
            assert_eq!(args.len(), 3);
            match &args[0] {
                Value::Number(Number::Integer(v, t)) => {
                    assert_eq!(*v, 3);
                    assert_eq!(t.to_string(), "i32");
                }
                other => panic!("{:?}", other),
            }
            match &args[1] {
                Value::Ref(inner, None) => match &**inner {
                    Value::Variable(n, None) => assert_eq!(n, "x"),
                    other => panic!("{:?}", other),
                },
                other => panic!("{:?}", other),
            }
            match &args[2] {
                Value::String(s, t) => {
                    assert_eq!(s, "hi");
                    assert_eq!(t.to_string(), "*u8");
                }
                other => panic!("{:?}", other),
            }
            match access.as_deref() {
                Some(Access::Tuple(1, Some(next))) => match &**next {
                    Access::Variable(n, None) => assert_eq!(n, "y"),
                    other => panic!("{:?}", other),
                },
                other => panic!("{:?}", other),
            }
        }
        other => panic!("{:?}", other),
    }
}

#[test]
fn floats_keep_their_bits() {
    let c = FloatConstant { text: "1.5".to_owned(), single: 1.5f32.to_bits(), double: 1.5f64.to_bits() };
    let ast = AstNumber::Float(AstFloat(c, atype("f32")));
    match Number::from_ast(&ast).unwrap() {
        Number::Float(c, t) => {
            assert_eq!(c.text, "1.5");
            assert_eq!(f32::from_bits(c.single), 1.5);
            assert_eq!(f64::from_bits(c.double), 1.5);
            assert_eq!(t.to_string(), "f32");
        }
        other => panic!("{:?}", other),
    }
}

#[test]
fn notes_are_opened_in_order() {
    let groups = vec![
        AstMeta(vec![
            AstMetaField { id: aid("a"), args: vec![] },
            AstMetaField {
                id: aid("b"),
                args: vec![AstMetaValue::Named(
                    aid("k"),
                    Box::new(AstMetaValue::String(AstString("v".to_owned(), AstType::default()))),
                )],
            },
        ]),
        AstMeta(vec![]),
        AstMeta(vec![AstMetaField {
            id: aid("c"),
            args: vec![AstMetaValue::Field(AstMetaField { id: aid("d"), args: vec![] })],
        }]),
    ];
    let metas = convert_ast_meta(&groups).unwrap();
    assert_eq!(metas.iter().map(|m| m.id.as_str()).collect::<Vec<_>>(), vec!["a", "b", "c"]);
    match &metas[1].args[0] {
        MetaValue::Named(k, v) => {
            assert_eq!(k, "k");
            match &**v {
                MetaValue::String(s) => assert_eq!(s, "v"),
                other => panic!("{:?}", other),
            }
        }
        other => panic!("{:?}", other),
    }
    match &metas[2].args[0] {
        MetaValue::Field(m) => assert_eq!(m.id, "d"),
        other => panic!("{:?}", other),
    }
}

#[test]
fn modules_sort_their_instructions_by_kind() {
    let header = |n: &str| AstFunctionHeader { id: aid(n), params: vec![avar("p", atype("i32"))], typeid: Some(atype("i32")) };
    let ast = AstModule {
        shebang: Some("#!kaiju".to_owned()),
        instructions: vec![
            AstInstruction::Function(AstFunction {
                meta: vec![],
                export: true,
                header: header("first"),
                locals: vec![avar("l", atype("u8"))],
                ops: vec![
                    AstBlockOp::Label(aid("top")),
                    AstBlockOp::Operation(AstOperation {
                        meta: vec![AstMeta(vec![AstMetaField { id: aid("hot"), args: vec![] }])],
                        id: aid("add"),
                        params: vec![ainteger(1, "i32"), ainteger(2, "i32")],
                        targets: vec![AstValue::Variable(aid("l"), None)],
                    }),
                ],
            }),
            AstInstruction::Globals(vec![avar("g", atype("i32")), avar("h", atype("i64"))]),
            AstInstruction::Meta(AstMeta(vec![AstMetaField { id: aid("m1"), args: vec![] }])),
            AstInstruction::Struct(AstStruct { meta: vec![], export: false, id: aid("S"), fields: vec![avar("x", atype("i32"))] }),
            AstInstruction::Import(AstImport {
                meta: vec![],
                names: vec![aid("T"), aid("f")],
                module: AstString("other".to_owned(), AstType::default()),
            }),
            AstInstruction::Globals(vec![avar("k", atype("u8"))]),
            AstInstruction::Extern(AstExtern {
                meta: vec![],
                item: header("ext"),
                location_module: aid("lib"),
                location_function: aid("call"),
            }),
            AstInstruction::Meta(AstMeta(vec![AstMetaField { id: aid("m2"), args: vec![] }])),
            AstInstruction::Function(AstFunction { meta: vec![], export: false, header: header("second"), locals: vec![], ops: vec![] }),
        ],
    };
    let m = Module::from_ast(&ast).unwrap();
    assert_eq!(m.magic, [0x4b, 0x4a, 0x4d, 1]);
    assert_eq!(m.shebang.as_deref(), Some("#!kaiju"));
    assert_eq!(m.path, "");
    assert_eq!(m.meta.iter().map(|x| x.id.as_str()).collect::<Vec<_>>(), vec!["m1", "m2"]);
    assert_eq!(m.globals.iter().map(|x| x.to_string()).collect::<Vec<_>>(), vec!["g:i32", "h:i64", "k:u8"]);
    assert_eq!(m.imports.len(), 1);
    assert_eq!(m.imports[0].module, "other");
    assert_eq!(m.imports[0].names, vec!["T".to_owned(), "f".to_owned()]);
    assert_eq!(m.externs.len(), 1);
    assert_eq!(m.externs[0].item.id, "ext");
    assert_eq!(m.externs[0].location_module, "lib");
    assert_eq!(m.externs[0].location_function, "call");
    assert_eq!(m.structs.len(), 1);
    assert_eq!(m.structs[0].id, "S");
    assert!(!m.structs[0].export);
    assert_eq!(m.structs[0].fields[0].to_string(), "x:i32");
    assert_eq!(m.functions.iter().map(|f| f.header.id.as_str()).collect::<Vec<_>>(), vec!["first", "second"]);
    let f = &m.functions[0];
    assert!(f.export);
    assert_eq!(f.header.params[0].to_string(), "p:i32");
    assert_eq!(f.header.typeid.as_ref().unwrap().to_string(), "i32");
    assert_eq!(f.locals[0].to_string(), "l:u8");
    assert_eq!(f.body.len(), 2);
    assert_eq!(f.body[0].as_label().map(|s| s.as_str()), Some("top"));
    let o = f.body[1].as_operation().unwrap();
    assert_eq!(o.id, "add");
    assert_eq!(o.meta[0].id, "hot");
    assert_eq!(o.params.len(), 2);
    assert_eq!(o.targets.len(), 1);
}

#[test]
fn rules_keep_their_definitions() {
    let ast = AstOpsDescriptor {
        meta: vec![AstMeta(vec![AstMetaField { id: aid("dialect"), args: vec![] }])],
        rules: vec![AstOpRule {
            meta: vec![],
            id: aid("add"),
            params: vec![
                AstOpParam { id: aid("a"), typeid: atype("i32") },
                AstOpParam { id: aid("b"), typeid: atype("i32") },
            ],
            targets: vec![atype("i32")],
            definition: vec![AstOpRuleDef {
                id: aid("c"),
                description: vec![AstOpRuleDefDesc {
                    id: aid("code"),
                    value: AstString("a + b".to_owned(), AstType::default()),
                }],
            }],
        }],
    };
    let d = OpsDescriptor::from_ast(&ast).unwrap();
    assert_eq!(d.meta[0].id, "dialect");
    assert_eq!(d.rules.len(), 1);
    let r = &d.rules[0];
    assert_eq!(r.id, "add");
    assert_eq!(r.params.iter().map(|p| (p.id.as_str(), p.typeid.to_string())).collect::<Vec<_>>(), vec![("a", "i32".to_owned()), ("b", "i32".to_owned())]);
    assert_eq!(r.targets[0].to_string(), "i32");
    assert_eq!(r.definition, vec![("c".to_owned(), vec![("code".to_owned(), "a + b".to_owned())])]);
    let again = convert_ast_op_definition(&ast.rules[0].definition).unwrap();
    assert_eq!(again, r.definition);
}

// ---------------------------------------------------------------------------
// Placeholders
// ---------------------------------------------------------------------------

#[test]
fn placeholders_give_way_to_the_types_named() {
    let v = Value::Tuple(
        vec![
            whole(1, "{integer}"),
            whole(2, "i64"),
            Value::Number(Number::Float(FloatConstant { text: "1".to_owned(), single: 0, double: 0 }, ty("{float}"))),
            Value::String("s".to_owned(), pointer(ty("{string}"))),
            Value::Deref(Box::new(read("p")), None),
        ],
        None,
    );
    match transform_value_auto_types(v, "i16", "f64", "u8").unwrap() {
        Value::Tuple(parts, None) => {
            let types: Vec<String> = parts
                .iter()
                .map(|p| match p {
                    Value::Number(Number::Integer(_, t)) => t.to_string(),
                    Value::Number(Number::Float(_, t)) => t.to_string(),
                    Value::String(_, t) => t.to_string(),
                    Value::Deref(..) => "deref".to_owned(),
                    other => panic!("{:?}", other),
                })
                .collect();
            assert_eq!(types, vec!["i16", "i64", "f64", "*u8", "deref"]);
        }
        other => panic!("{:?}", other),
    }
}

#[test]
fn constants_of_other_shapes_cannot_be_settled() {
    let bad_integer = Value::Number(Number::Integer(1, pointer(ty("i32"))));
    assert_eq!(kind_of(transform_value_auto_types(bad_integer, "i32", "f32", "u8")), ErrorKind::TypeError);
    let bad_text = Value::String("s".to_owned(), ty("u8"));
    assert_eq!(kind_of(transform_value_auto_types(bad_text, "i32", "f32", "u8")), ErrorKind::TypeError);
    let bad_pointee = Value::String("s".to_owned(), pointer(pointer(ty("u8"))));
    assert_eq!(kind_of(transform_value_auto_types(bad_pointee, "i32", "f32", "u8")), ErrorKind::TypeError);
    let deep = Value::Ref(Box::new(Value::FunctionCall("f".to_owned(), vec![Value::Number(Number::Float(FloatConstant { text: "1".to_owned(), single: 0, double: 0 }, Type::Tuple(vec![])))], None)), None);
    assert_eq!(kind_of(transform_value_auto_types(deep, "i32", "f32", "u8")), ErrorKind::TypeError);
}

#[test]
fn the_notes_of_a_module_choose_its_types() {
    let body = vec![
        BlockOp::Label("top".to_owned()),
        step("add", vec![whole(1, "{integer}"), whole(2, "{integer}")], vec![read("x")]),
        step("say", vec![Value::String("hi".to_owned(), pointer(ty("{string}")))], vec![]),
    ];
    let mut m = unit("main");
    m.functions = vec![func("main", vec![], None, vec![variable("x", ty("i32"))], body)];
    m.meta = vec![
        Meta { id: "other".to_owned(), args: vec![] },
        Meta { id: "auto_integer_type".to_owned(), args: vec![MetaValue::String("u64".to_owned())] },
        Meta { id: "auto_integer_type".to_owned(), args: vec![MetaValue::String("i8".to_owned())] },
        Meta { id: "auto_string_type".to_owned(), args: vec![] },
    ];
    let out = transform_module_auto_types(m).unwrap();
    assert_eq!(out.path, "main");
    let f = &out.functions[0];
    assert_eq!(f.body.len(), 3);
    assert_eq!(f.body[0].as_label().map(|s| s.as_str()), Some("top"));
    let add = f.body[1].as_operation().unwrap();
    match (&add.params[0], &add.params[1]) {
        (Value::Number(Number::Integer(1, a)), Value::Number(Number::Integer(2, b))) => {
            assert_eq!(a.to_string(), "u64");
            assert_eq!(b.to_string(), "u64");
        }
        other => panic!("{:?}", other),
    }
    let say = f.body[2].as_operation().unwrap();
    match &say.params[0] {
        Value::String(s, t) => {
            assert_eq!(s, "hi");
            assert_eq!(t.to_string(), "*u8");
        }
        other => panic!("{:?}", other),
    }
}

#[test]
fn a_function_keeps_the_order_of_its_body() {
    let body = vec![
        step("a", vec![whole(1, "{integer}")], vec![]),
        BlockOp::Label("l".to_owned()),
        step("b", vec![], vec![whole(2, "{integer}")]),
        step("c", vec![], vec![]),
    ];
    let out = transform_function_auto_types(func("f", vec![], None, vec![], body), "i32", "f32", "u8").unwrap();
    let names: Vec<String> = out
        .body
        .iter()
        .map(|b| match b {
            BlockOp::Label(n) => format!("#{}", n),
            BlockOp::Operation(o) => o.id.clone(),
        })
        .collect();
    assert_eq!(names, vec!["a", "#l", "b", "c"]);
    let bad = vec![step("a", vec![Value::Number(Number::Integer(1, Type::Tuple(vec![])))], vec![])];
    assert_eq!(kind_of(transform_function_auto_types(func("f", vec![], None, vec![], bad), "i32", "f32", "u8")), ErrorKind::TypeError);
}

// ---------------------------------------------------------------------------
// Names
// ---------------------------------------------------------------------------

fn two_modules() -> Program {
    let mut lib = unit("lib");
    lib.structs = vec![strukt("Vec2", vec![variable("x", ty("i32")), variable("y", ty("i32"))]), strukt("Hidden", vec![])];
    lib.functions = vec![func("length", vec![variable("v", ty("Vec2"))], Some(ty("i32")), vec![], vec![]), func("reset", vec![], None, vec![], vec![])];
    let mut main = unit("main");
    main.imports = vec![import("lib", &["Vec2", "length", "reset", "nothing"])];
    main.structs = vec![strukt("Pair", vec![variable("a", ty("Vec2")), variable("b", pointer(ty("Pair")))])];
    main.globals = vec![variable("g", ty("i32"))];
    main.functions = vec![func(
        "main",
        vec![variable("p", ty("Pair"))],
        Some(ty("i32")),
        vec![variable("t", Type::Tuple(vec![ty("i32"), ty("Vec2")])), variable("q", pointer(ty("Vec2")))],
        vec![],
    )];
    whole_program(vec![lib, main])
}

#[test]
fn a_module_knows_the_atoms_its_structs_and_what_it_imports() {
    let p = two_modules();
    let types = resolve_module_types(&p.modules[1], &p).unwrap();
    for atom in ["i8", "u8", "i16", "u16", "i32", "u32", "i64", "u64", "f32", "f64", "isize", "usize"] {
        assert_eq!(types.get(atom), Some(&None), "{}", atom);
    }
    assert_eq!(types.get("Pair"), Some(&Some(1)));
    assert_eq!(types.get("Vec2"), Some(&Some(0)));
    assert_eq!(types.get("Hidden"), None);
    assert_eq!(types.get("length"), None);
    assert_eq!(types.len(), 14);
    let functions = resolve_module_functions(&p.modules[1], &p).unwrap();
    assert_eq!(functions.len(), 3);
    assert_eq!(functions.get("main").unwrap().as_ref().unwrap().to_string(), "i32");
    assert_eq!(functions.get("length").unwrap().as_ref().unwrap().to_string(), "i32");
    assert!(functions.get("reset").unwrap().is_none());
    assert!(functions.get("Vec2").is_none());
}

#[test]
fn names_taken_twice_do_not_resolve() {
    let mut m = unit("m");
    m.structs = vec![strukt("i32", vec![])];
    let p = whole_program(vec![m]);
    assert_eq!(kind_of(resolve_module_types(&p.modules[0], &p)), ErrorKind::Resolution);

    let mut m = unit("m");
    m.structs = vec![strukt("A", vec![]), strukt("A", vec![])];
    let p = whole_program(vec![m]);
    assert_eq!(kind_of(resolve_module_types(&p.modules[0], &p)), ErrorKind::Resolution);

    let mut lib = unit("lib");
    lib.structs = vec![strukt("A", vec![])];
    lib.functions = vec![func("f", vec![], None, vec![], vec![])];
    let mut m = unit("m");
    m.structs = vec![strukt("A", vec![])];
    m.functions = vec![func("f", vec![], None, vec![], vec![])];
    m.imports = vec![import("lib", &["A", "f"])];
    let p = whole_program(vec![lib, m]);
    assert_eq!(kind_of(resolve_module_types(&p.modules[1], &p)), ErrorKind::Resolution);
    assert_eq!(kind_of(resolve_module_functions(&p.modules[1], &p)), ErrorKind::Resolution);

    let mut m = unit("m");
    m.imports = vec![import("nowhere", &[])];
    let p = whole_program(vec![m]);
    assert_eq!(kind_of(resolve_module_types(&p.modules[0], &p)), ErrorKind::Resolution);
    assert_eq!(kind_of(resolve_module_functions(&p.modules[0], &p)), ErrorKind::Resolution);

    let mut m = unit("m");
    m.functions = vec![func("f", vec![], None, vec![], vec![]), func("f", vec![], None, vec![], vec![])];
    let p = whole_program(vec![m]);
    assert_eq!(kind_of(resolve_module_functions(&p.modules[0], &p)), ErrorKind::Resolution);
}

#[test]
fn a_function_knows_globals_result_parameters_and_locals() {
    let p = two_modules();
    let m = &p.modules[1];
    let vars = resolve_function_variables(&m.functions[0], m).unwrap();
    assert_eq!(vars.len(), 5);
    assert_eq!(vars.get("g").unwrap().to_string(), "i32");
    assert_eq!(vars.get("_").unwrap().to_string(), "i32");
    assert_eq!(vars.get("p").unwrap().to_string(), "Pair");
    assert_eq!(vars.get("t").unwrap().to_string(), "(i32, Vec2)");
    assert_eq!(vars.get("q").unwrap().to_string(), "*Vec2");
    assert!(vars.get("x").is_none());

    let mut m = unit("m");
    m.globals = vec![variable("g", ty("i32"))];
    let f = func("f", vec![variable("g", ty("i32"))], None, vec![], vec![]);
    assert_eq!(kind_of(resolve_function_variables(&f, &m)), ErrorKind::Resolution);
    let f = func("f", vec![variable("a", ty("i32"))], None, vec![variable("a", ty("i32"))], vec![]);
    assert_eq!(kind_of(resolve_function_variables(&f, &m)), ErrorKind::Resolution);
    let f = func("f", vec![variable("_", ty("i32"))], Some(ty("i32")), vec![], vec![]);
    assert_eq!(kind_of(resolve_function_variables(&f, &m)), ErrorKind::Resolution);
    let f = func("f", vec![variable("_", ty("i32"))], None, vec![], vec![]);
    assert!(resolve_function_variables(&f, &m).is_ok());
    m.globals = vec![variable("_", ty("u8"))];
    let f = func("f", vec![], Some(ty("i32")), vec![], vec![]);
    assert_eq!(resolve_function_variables(&f, &m).unwrap().get("_").unwrap().to_string(), "i32");
}

// ---------------------------------------------------------------------------
// Checks
// ---------------------------------------------------------------------------

#[test]
fn types_must_be_known() {
    let p = two_modules();
    let types = resolve_module_types(&p.modules[1], &p).unwrap();
    assert!(validate_type(&ty("i32"), &types).is_ok());
    assert!(validate_type(&ty("u16"), &types).is_ok());
    assert!(validate_type(&ty(""), &types).is_ok());
    assert!(validate_type(&Type::Tuple(vec![ty("Vec2"), pointer(ty("Pair"))]), &types).is_ok());
    assert_eq!(kind_of(validate_type(&ty("Hidden"), &types)), ErrorKind::Resolution);
    assert_eq!(kind_of(validate_type(&pointer(ty("Nope")), &types)), ErrorKind::Resolution);
    assert_eq!(kind_of(validate_type(&Type::Tuple(vec![ty("i32"), ty("Nope")]), &types)), ErrorKind::Resolution);
    let h = FunctionHeader { id: "f".to_owned(), params: vec![variable("a", ty("i32"))], typeid: Some(ty("Nope")) };
    assert_eq!(kind_of(validate_function_header(&h, &types)), ErrorKind::Resolution);
    let h = FunctionHeader { id: "f".to_owned(), params: vec![variable("a", ty("Nope"))], typeid: None };
    assert_eq!(kind_of(validate_function_header(&h, &types)), ErrorKind::Resolution);
    let h = FunctionHeader { id: "f".to_owned(), params: vec![variable("a", ty("Pair"))], typeid: Some(ty("i32")) };
    assert!(validate_function_header(&h, &types).is_ok());
}

#[test]
fn a_struct_must_not_hold_itself() {
    let p = two_modules();
    assert!(validate_struct(&p.modules[1].structs[0], &p).is_ok());
    assert!(validate_struct(&p.modules[0].structs[0], &p).is_ok());

    let mut m = unit("m");
    m.structs = vec![
        strukt("A", vec![variable("b", ty("B"))]),
        strukt("B", vec![variable("t", Type::Tuple(vec![ty("i32"), ty("A")]))]),
        strukt("C", vec![variable("c", pointer(ty("C")))]),
        strukt("D", vec![variable("d", ty("D"))]),
        strukt("E", vec![variable("a", ty("C")), variable("b", ty("C")), variable("c", ty("F"))]),
        strukt("F", vec![variable("c", ty("C"))]),
    ];
    let p = whole_program(vec![m]);
    let s = &p.modules[0].structs;
    assert_eq!(kind_of(validate_struct(&s[0], &p)), ErrorKind::TypeError);
    assert_eq!(kind_of(validate_struct(&s[1], &p)), ErrorKind::TypeError);
    assert!(validate_struct(&s[2], &p).is_ok());
    assert_eq!(kind_of(validate_struct(&s[3], &p)), ErrorKind::TypeError);
    assert!(validate_struct(&s[4], &p).is_ok());
    assert!(validate_struct(&s[5], &p).is_ok());
}

fn the_rules() -> Vec<Rule> {
    dialect().rules.iter().map(Rule::from_op_rule).collect()
}

#[test]
fn values_have_types() {
    let p = two_modules();
    let m = &p.modules[1];
    let types = resolve_module_types(m, &p).unwrap();
    let functions = resolve_module_functions(m, &p).unwrap();
    let variables = resolve_function_variables(&m.functions[0], m).unwrap();
    let tables = Tables { types: &types, functions: &functions, variables: &variables };
    let rules = the_rules();
    let type_of = |v: Value| find_value_type(&v, &tables, &rules, &p).map(|t| t.to_string());
    assert_eq!(type_of(whole(1, "i64")).unwrap(), "i64");
    assert_eq!(type_of(Value::String("s".to_owned(), pointer(ty("u8")))).unwrap(), "*u8");
    assert_eq!(type_of(read("g")).unwrap(), "i32");
    assert_eq!(type_of(read("_")).unwrap(), "i32");
    assert_eq!(type_of(read("p")).unwrap(), "Pair");
    assert_eq!(type_of(field("p", "a")).unwrap(), "Vec2");
    assert_eq!(type_of(field("p", "b")).unwrap(), "*Pair");
    let deep = Value::Variable(
        "p".to_owned(),
        Some(Box::new(Access::Variable("a".to_owned(), Some(Box::new(Access::Variable("y".to_owned(), None)))))),
    );
    assert_eq!(type_of(deep).unwrap(), "i32");
    let part = Value::Variable(
        "t".to_owned(),
        Some(Box::new(Access::Tuple(1, Some(Box::new(Access::Variable("x".to_owned(), None)))))),
    );
    assert_eq!(type_of(part).unwrap(), "i32");
    assert_eq!(type_of(Value::Ref(Box::new(read("g")), None)).unwrap(), "*i32");
    assert_eq!(type_of(Value::Deref(Box::new(read("q")), None)).unwrap(), "Vec2");
    assert_eq!(
        type_of(Value::Deref(Box::new(read("q")), Some(Box::new(Access::Variable("y".to_owned(), None))))).unwrap(),
        "i32"
    );
    assert_eq!(type_of(Value::Tuple(vec![read("g"), read("q")], None)).unwrap(), "(i32, *Vec2)");
    assert_eq!(
        type_of(Value::Tuple(vec![read("g"), read("q")], Some(Box::new(Access::Tuple(1, None))))).unwrap(),
        "*Vec2"
    );
    assert_eq!(type_of(Value::FunctionCall("length".to_owned(), vec![], None)).unwrap(), "i32");
    assert_eq!(type_of(Value::FunctionCall("reset".to_owned(), vec![], None)).unwrap(), "");
    assert_eq!(type_of(Value::OperationInline("add".to_owned(), vec![], None)).unwrap(), "i32");

    let kind = |v: Value| kind_of(find_value_type(&v, &tables, &rules, &p));
    assert_eq!(kind(read("nobody")), ErrorKind::Resolution);
    assert_eq!(kind(field("g", "x")), ErrorKind::TypeError);
    assert_eq!(kind(field("p", "z")), ErrorKind::TypeError);
    assert_eq!(kind(field("q", "x")), ErrorKind::TypeError);
    assert_eq!(kind(Value::Variable("t".to_owned(), Some(Box::new(Access::Tuple(2, None))))), ErrorKind::TypeError);
    assert_eq!(kind(Value::Variable("t".to_owned(), Some(Box::new(Access::Tuple(-1, None))))), ErrorKind::TypeError);
    assert_eq!(kind(Value::Variable("g".to_owned(), Some(Box::new(Access::Tuple(0, None))))), ErrorKind::TypeError);
    assert_eq!(kind(Value::Deref(Box::new(read("g")), None)), ErrorKind::TypeError);
    assert_eq!(kind(Value::Ref(Box::new(read("p")), Some(Box::new(Access::Variable("a".to_owned(), None))))), ErrorKind::TypeError);
    assert_eq!(kind(Value::FunctionCall("nobody".to_owned(), vec![], None)), ErrorKind::Resolution);
    assert_eq!(
        kind(Value::FunctionCall("reset".to_owned(), vec![], Some(Box::new(Access::Tuple(0, None))))),
        ErrorKind::TypeError
    );
    assert_eq!(kind(Value::OperationInline("nobody".to_owned(), vec![], None)), ErrorKind::Resolution);
    assert_eq!(kind(Value::OperationInline("pass".to_owned(), vec![], None)), ErrorKind::TypeError);
    assert_eq!(kind(Value::Tuple(vec![read("g"), read("nobody"), field("g", "x")], None)), ErrorKind::Resolution);

    let unknown = ty("Ghost");
    assert_eq!(
        kind_of(find_access_value_type(&unknown, &Access::Variable("x".to_owned(), None), &types, &p)),
        ErrorKind::Resolution
    );
}

#[test]
fn operations_are_checked_against_their_rules() {
    let p = two_modules();
    let m = &p.modules[1];
    let types = resolve_module_types(m, &p).unwrap();
    let functions = resolve_module_functions(m, &p).unwrap();
    let variables = resolve_function_variables(&m.functions[0], m).unwrap();
    let tables = Tables { types: &types, functions: &functions, variables: &variables };
    let rules = the_rules();
    let check = |b: BlockOp| match b {
        BlockOp::Operation(o) => check_op(&o, &tables, &rules, &p).map(|r| r.id.clone()),
        _ => unreachable!(),
    };
    assert_eq!(check(step("add", vec![whole(1, "i32"), read("g")], vec![read("_")])).unwrap(), "add");
    assert_eq!(check(step("pass", vec![], vec![])).unwrap(), "pass");
    assert_eq!(check(step("any", vec![read("p")], vec![])).unwrap(), "any");
    assert_eq!(check(step("any", vec![whole(1, "u8")], vec![])).unwrap(), "any");
    assert_eq!(kind_of(check(step("mul", vec![], vec![]))), ErrorKind::Resolution);
    assert_eq!(kind_of(check(step("add", vec![whole(1, "i32")], vec![read("_")]))), ErrorKind::TypeError);
    assert_eq!(kind_of(check(step("add", vec![whole(1, "i32"), read("g")], vec![]))), ErrorKind::TypeError);
    assert_eq!(kind_of(check(step("add", vec![whole(1, "i64"), read("g")], vec![read("_")]))), ErrorKind::TypeError);
    assert_eq!(kind_of(check(step("add", vec![whole(1, "i32"), read("g")], vec![read("p")]))), ErrorKind::TypeError);
    assert_eq!(kind_of(check(step("add", vec![whole(1, "i32"), read("nobody")], vec![read("p")]))), ErrorKind::Resolution);
    assert_eq!(kind_of(check(step("add", vec![whole(1, "i64"), read("nobody")], vec![read("_")]))), ErrorKind::TypeError);
    assert_eq!(kind_of(check(step("any", vec![whole(1, "Ghost")], vec![]))), ErrorKind::Resolution);
    // the wildcard is for rules: no value has it as its type
    assert_eq!(kind_of(check(step("add", vec![whole(1, "?"), read("g")], vec![read("_")]))), ErrorKind::Resolution);
}

#[test]
fn the_things_of_a_module_have_names_of_their_own() {
    let p = two_modules();
    assert!(ensure_no_duplicates_module(&p.modules[0]).is_ok());
    assert!(ensure_no_duplicates_module(&p.modules[1]).is_ok());
    let header = FunctionHeader { id: "ext".to_owned(), params: vec![], typeid: None };
    let ext = |name: &str| Extern {
        meta: vec![],
        item: FunctionHeader { id: name.to_owned(), params: vec![], typeid: None },
        location_module: "lib".to_owned(),
        location_function: "f".to_owned(),
    };
    assert_eq!(header.id, "ext");
    let cases: Vec<Box<dyn Fn(&mut Module)>> = vec![
        Box::new(|m| m.imports = vec![import("a", &["x", "y"]), import("b", &["z", "x"])]),
        Box::new(|m| m.imports = vec![import("a", &["x", "x"])]),
        Box::new(|m| {
            m.imports = vec![import("a", &["x"])];
            m.globals = vec![variable("x", ty("i32"))];
        }),
        Box::new(|m| m.globals = vec![variable("g", ty("i32")), variable("g", ty("i32"))]),
        Box::new(|m| {
            m.globals = vec![variable("g", ty("i32"))];
            m.externs = vec![ext("g")];
        }),
        Box::new(|m| {
            m.externs = vec![ext("e")];
            m.structs = vec![strukt("e", vec![])];
        }),
        Box::new(|m| {
            m.structs = vec![strukt("S", vec![])];
            m.functions = vec![func("S", vec![], None, vec![], vec![])];
        }),
        Box::new(|m| {
            m.imports = vec![import("a", &["f"])];
            m.functions = vec![func("f", vec![], None, vec![], vec![])];
        }),
        Box::new(|m| m.functions = vec![func("f", vec![], None, vec![], vec![]), func("f", vec![], None, vec![], vec![])]),
    ];
    for (i, change) in cases.iter().enumerate() {
        let mut m = unit("m");
        change(&mut m);
        assert_eq!(kind_of(ensure_no_duplicates_module(&m)), ErrorKind::Resolution, "case {}", i);
    }
}

// ---------------------------------------------------------------------------
// The passes
// ---------------------------------------------------------------------------

fn sample() -> Vec<Module> {
    let mut lib = unit("lib");
    lib.structs = vec![strukt("Vec2", vec![variable("x", ty("i32")), variable("y", ty("i32"))])];
    lib.functions = vec![func(
        "length",
        vec![variable("v", ty("Vec2"))],
        Some(ty("i32")),
        vec![],
        vec![step("add", vec![field("v", "x"), field("v", "y")], vec![read("_")])],
    )];
    let mut main = unit("main");
    main.imports = vec![import("lib", &["Vec2", "length"])];
    main.globals = vec![variable("g", ty("i32"))];
    main.functions = vec![
        func("helper", vec![], None, vec![], vec![step("debug", vec![], vec![]), BlockOp::Label("end".to_owned())]),
        func(
            "main",
            vec![],
            None,
            vec![variable("v", ty("Vec2"))],
            vec![
                step("add", vec![whole(1, "{integer}"), Value::FunctionCall("length".to_owned(), vec![read("v")], None)], vec![read("g")]),
                BlockOp::Label("done".to_owned()),
                step("pass", vec![], vec![]),
            ],
        ),
    ];
    vec![lib, main]
}

struct NoDebug {}

impl DeepValidator for NoDebug {
    fn filter_op(op: &Operation, _f: &Function, _m: &Module, _p: &Program, _v: &Validator) -> bool {
        op.id != "debug"
    }

    fn filter_function(f: &Function, _m: &Module, _p: &Program, _v: &Validator) -> bool {
        f.header.id != "unused"
    }

    fn filter_struct(s: &Struct, _m: &Module, _p: &Program, _v: &Validator) -> bool {
        s.id != "Unused"
    }

    fn filter_module(m: &Module, _p: &Program, _v: &Validator) -> bool {
        m.path != "scratch"
    }

    fn transform_module(module: Module, _p: &Program, _v: &Validator) -> SimpleResult<Module> {
        kaiju::auto_types::transform_module_auto_types(module)
    }

    fn validate_op(op: &Operation, _f: &Function, _m: &Module, _p: &Program, rule: &Rule, _v: &Validator) -> SimpleResult<()> {
        assert_eq!(op.id, rule.id);
        if op.id == "pass" && op.meta.iter().any(|m| m.id == "forbidden") {
            Err(SimpleError::of(ErrorKind::BadStage, "no"))
        } else {
            Ok(())
        }
    }
}

struct Refuses {}

impl DeepValidator for Refuses {
    fn validate_module(m: &Module, _p: &Program, _v: &Validator) -> SimpleResult<()> {
        if m.path == "main" {
            Err(SimpleError::of(ErrorKind::Host, "this module is refused"))
        } else {
            Ok(())
        }
    }

    fn transform_module(module: Module, _p: &Program, _v: &Validator) -> SimpleResult<Module> {
        if module.path == "broken" {
            Err(SimpleError::of(ErrorKind::Host, "this module cannot be made"))
        } else {
            Ok(module)
        }
    }
}

#[test]
fn a_validator_holds_the_rules_of_a_dialect() {
    let mut d = dialect();
    d.meta = vec![Meta { id: "dialect".to_owned(), args: vec![MetaValue::Number(Number::Integer(7, ty("i32")))] }];
    let v = Validator::new(&d);
    assert_eq!(v.rules().iter().map(|r| r.id.as_str()).collect::<Vec<_>>(), vec!["add", "pass", "any"]);
    assert_eq!(v.rules()[0].params.len(), 2);
    assert_eq!(v.rules()[0].params[1].id, "b");
    assert_eq!(v.rules()[0].targets[0].to_string(), "i32");
    assert_eq!(v.meta().len(), 1);
    assert_eq!(v.meta()[0].id, "dialect");
    match &v.meta()[0].args[0] {
        MetaValue::Number(Number::Integer(7, t)) => assert_eq!(t.to_string(), "i32"),
        other => panic!("{:?}", other),
    }
    let some = Validator::with_filter(&d, |r: &OpRule, _d: &OpsDescriptor| r.params.len() != 2);
    assert_eq!(some.rules().iter().map(|r| r.id.as_str()).collect::<Vec<_>>(), vec!["pass", "any"]);
    let none = Validator::with_filter(&d, |_r: &OpRule, _d: &OpsDescriptor| false);
    assert!(none.rules().is_empty());
    assert_eq!(none.meta().len(), 1);
}

#[test]
fn a_program_passes_the_passes() {
    let d = dialect();
    // an unknown operation and a placeholder: neither passes as it is
    let v = Validator::new(&d);
    let raw = whole_program(sample());
    assert_eq!(kind_of(v.validate_program::<EmptyDeepValidator>(&raw)), ErrorKind::Resolution);

    let p = compile_program::<NoDebug>("main", sample(), &d).unwrap();
    assert_eq!(p.magic, [0x4b, 0x4a, 0x50, 1]);
    assert_eq!(p.modules.len(), 2);
    let e = p.entry.unwrap();
    assert_eq!((e.module, e.function), (1, 1));
    let helper = &p.modules[1].functions[0];
    assert_eq!(helper.body.len(), 1);
    assert_eq!(helper.body[0].as_label().map(|s| s.as_str()), Some("end"));
    let main = &p.modules[1].functions[1];
    match &main.body[0].as_operation().unwrap().params[0] {
        Value::Number(Number::Integer(1, t)) => assert_eq!(t.to_string(), "i32"),
        other => panic!("{:?}", other),
    }
    assert!(v.validate_program::<EmptyDeepValidator>(&p).is_ok());
    assert!(v.validate_program::<NoDebug>(&p).is_ok());
    assert_eq!(kind_of(v.validate_program::<Refuses>(&p)), ErrorKind::Host);

    // without a `main` or without the module the program has no entry
    let p = compile_program::<NoDebug>("lib", sample(), &d).unwrap();
    assert!(p.entry.is_none());
    let p = compile_program::<NoDebug>("elsewhere", sample(), &d).unwrap();
    assert!(p.entry.is_none());

    assert_eq!(kind_of(compile_program::<EmptyDeepValidator>("main", sample(), &d)), ErrorKind::Resolution);
}

#[test]
fn the_passes_refuse_what_is_not_in_order() {
    let d = dialect();
    let v = Validator::new(&d);
    let check = |change: &dyn Fn(&mut Vec<Module>)| {
        let mut modules = sample();
        modules[1].functions.remove(0);
        change(&mut modules);
        let mut p = whole_program(modules);
        v.transform_program::<EmptyDeepValidator>(&mut p)?;
        v.validate_program::<NoDebug>(&p)
    };
    assert!(check(&|_| {}).is_ok());
    assert_eq!(kind_of(check(&|m| m[1].globals.push(variable("length", ty("i32"))))), ErrorKind::Resolution);
    assert_eq!(kind_of(check(&|m| m[1].globals.push(variable("h", ty("Nope"))))), ErrorKind::Resolution);
    assert_eq!(kind_of(check(&|m| m[1].imports.push(import("nowhere", &[])))), ErrorKind::Resolution);
    assert_eq!(kind_of(check(&|m| m[0].structs.push(strukt("Loop", vec![variable("l", ty("Loop"))])))), ErrorKind::TypeError);
    assert_eq!(kind_of(check(&|m| m[1].functions[0].locals.push(variable("g", ty("i32"))))), ErrorKind::Resolution);
    assert_eq!(kind_of(check(&|m| m[1].functions[0].locals.push(variable("w", ty("Nope"))))), ErrorKind::Resolution);
    assert_eq!(kind_of(check(&|m| m[1].functions[0].header.typeid = Some(ty("Nope")))), ErrorKind::Resolution);
    assert_eq!(kind_of(check(&|m| m[1].functions[0].body.push(step("add", vec![], vec![])))), ErrorKind::TypeError);
    assert_eq!(kind_of(check(&|m| m[1].functions[0].body.push(step("mul", vec![], vec![])))), ErrorKind::Resolution);
    assert_eq!(
        kind_of(check(&|m| m[1].functions[0].body.push(step("add", vec![read("v"), read("g")], vec![read("g")])))),
        ErrorKind::TypeError
    );
    assert_eq!(
        kind_of(check(&|m| m[1].functions[0].body.push(step("any", vec![Value::Number(Number::Integer(1, Type::Tuple(vec![])))], vec![])))),
        ErrorKind::TypeError
    );
    assert_eq!(
        kind_of(check(&|m| {
            m[1].functions[0].body.push(BlockOp::Operation(Operation {
                meta: vec![Meta { id: "forbidden".to_owned(), args: vec![] }],
                id: "pass".to_owned(),
                params: vec![],
                targets: vec![],
            }))
        })),
        ErrorKind::BadStage
    );
    let ext = Extern {
        meta: vec![],
        item: FunctionHeader { id: "e".to_owned(), params: vec![variable("a", ty("Nope"))], typeid: None },
        location_module: "lib".to_owned(),
        location_function: "f".to_owned(),
    };
    let mut modules = sample();
    modules[1].functions.remove(0);
    modules[0].externs.push(ext);
    let mut p = whole_program(modules);
    v.transform_program::<EmptyDeepValidator>(&mut p).unwrap();
    assert_eq!(kind_of(v.validate_program::<NoDebug>(&p)), ErrorKind::Resolution);
}

#[test]
fn what_a_dialect_does_not_want_is_left_out() {
    let d = dialect();
    let v = Validator::new(&d);
    let mut modules = sample();
    modules[0].structs.push(strukt("Unused", vec![]));
    modules[0].structs.push(strukt("Used", vec![variable("x", ty("i32"))]));
    modules[0].functions.insert(0, func("unused", vec![], None, vec![], vec![step("debug", vec![], vec![])]));
    modules.insert(1, unit("scratch"));
    let mut p = whole_program(modules);
    p.entry = Some(kaiju::program::Entry::new(2, 1));
    v.filter_program::<NoDebug>(&mut p);
    assert_eq!(p.modules.iter().map(|m| m.path.as_str()).collect::<Vec<_>>(), vec!["lib", "main"]);
    assert_eq!(p.modules[0].structs.iter().map(|s| s.id.as_str()).collect::<Vec<_>>(), vec!["Vec2", "Used"]);
    assert_eq!(p.modules[0].structs[1].fields[0].to_string(), "x:i32");
    assert_eq!(p.modules[0].functions.iter().map(|f| f.header.id.as_str()).collect::<Vec<_>>(), vec!["length"]);
    assert_eq!(p.modules[0].functions[0].body.len(), 1);
    assert_eq!(p.modules[1].imports[0].names, vec!["Vec2".to_owned(), "length".to_owned()]);
    assert_eq!(p.modules[1].globals[0].to_string(), "g:i32");
    let helper = &p.modules[1].functions[0];
    assert_eq!(helper.header.id, "helper");
    assert_eq!(helper.body.len(), 1);
    assert!(helper.body[0].as_label().is_some());
    assert_eq!(p.modules[1].functions[1].body.len(), 3);
    let e = p.entry.unwrap();
    assert_eq!((e.module, e.function), (2, 1));

    // the dialect that adds nothing leaves nothing out
    let mut p = whole_program(sample());
    v.filter_program::<EmptyDeepValidator>(&mut p);
    assert_eq!(p.modules.len(), 2);
    assert_eq!(p.modules[1].functions[0].body.len(), 2);
}

#[test]
fn a_module_that_cannot_be_made_leaves_the_program_as_it_is() {
    let d = dialect();
    let v = Validator::new(&d);
    let mut modules = sample();
    modules.push(unit("broken"));
    let mut p = whole_program(modules);
    assert_eq!(kind_of(v.transform_program::<Refuses>(&mut p)), ErrorKind::Host);
    assert_eq!(p.modules.len(), 3);
    match &p.modules[1].functions[1].body[0].as_operation().unwrap().params[0] {
        Value::Number(Number::Integer(1, t)) => assert_eq!(t.to_string(), "{integer}"),
        other => panic!("{:?}", other),
    }
    let mut p = whole_program(sample());
    v.transform_program::<Refuses>(&mut p).unwrap();
    assert_eq!(p.modules.len(), 2);
    assert_eq!(p.modules[1].functions[1].body.len(), 3);
}

#[test]
fn copies_say_what_the_items_say() {
    let m = sample().remove(1);
    let c = m.duplicate();
    assert_eq!(format!("{:?}", c), format!("{:?}", m));
    let v = Value::Tuple(
        vec![
            Value::Ref(Box::new(field("p", "a")), None),
            Value::String("s".to_owned(), pointer(ty("u8"))),
            Value::Number(Number::Float(FloatConstant { text: "2.5".to_owned(), single: 1, double: 2 }, ty("f32"))),
            Value::OperationInline("add".to_owned(), vec![whole(1, "i32")], Some(Box::new(Access::Tuple(0, None)))),
        ],
        None,
    );
    assert_eq!(format!("{:?}", v.duplicate()), format!("{:?}", v));
    let meta = Meta {
        id: "m".to_owned(),
        args: vec![
            MetaValue::Named("k".to_owned(), Box::new(MetaValue::String("v".to_owned()))),
            MetaValue::Field(Meta { id: "inner".to_owned(), args: vec![MetaValue::Number(Number::Integer(1, ty("i32")))] }),
        ],
    };
    assert_eq!(format!("{:?}", meta.duplicate()), format!("{:?}", meta));
}

struct Adds {}

impl kaiju::processor::Processor for Adds {
    fn process_op(op: &String, params: &[usize], targets: &[usize], vm: &mut kaiju::vm::Vm) -> SimpleResult<kaiju::processor::OpAction> {
        match op.as_str() {
            "add" => {
                let a: i32 = vm.state().load_data(params[0])?;
                let b: i32 = vm.state().load_data(params[1])?;
                vm.state_mut().store_data(targets[0], &(a + b))?;
                Ok(kaiju::processor::OpAction::Continue)
            }
            "pass" => Ok(kaiju::processor::OpAction::Continue),
            _ => Err(SimpleError::of(ErrorKind::Host, "unknown operation")),
        }
    }
}

#[test]
fn modules_become_a_machine_that_runs() {
    let mut main = unit("main");
    main.globals = vec![variable("g", ty("i32"))];
    main.functions = vec![func(
        "main",
        vec![],
        None,
        vec![variable("x", ty("i32"))],
        vec![
            step("add", vec![whole(2, "{integer}"), whole(3, "{integer}")], vec![read("x")]),
            step("add", vec![read("x"), whole(37, "i32")], vec![read("g")]),
            step("pass", vec![], vec![]),
        ],
    )];
    let d = dialect();
    let mut vm = kaiju::vm::Vm::from_source::<EmptyDeepValidator>("main", vec![main], &d, 64, 64).unwrap();
    vm.run::<Adds>("main").unwrap();
    assert_eq!(vm.stage(), kaiju::vm::ExecutionStage::Complete);
    assert_eq!(vm.state().stack_pos(), 0);
    let g = vm.globals().unwrap();
    assert_eq!(vm.state().load_data::<i32>(g.address).unwrap(), 42);

    assert_eq!(
        kind_of(kaiju::vm::Vm::from_source::<EmptyDeepValidator>("main", sample(), &d, 64, 64)),
        ErrorKind::Resolution
    );
    assert_eq!(
        kind_of(kaiju::vm::Vm::from_source::<NoDebug>("main", sample(), &d, 64, 6)),
        ErrorKind::UnalignedRegionSize
    );
}

#[test]
fn heads_have_texts() {
    let h = FunctionHeader {
        id: "mix".to_owned(),
        params: vec![variable("a", ty("i32")), variable("b", pointer(ty("u8"))), variable("c", Type::Tuple(vec![ty("i8"), ty("f32")]))],
        typeid: Some(ty("i64")),
    };
    assert_eq!(h.to_string(), "fn mix(a:i32, b:*u8, c:(i8, f32))i64");
    let h = FunctionHeader { id: "main".to_owned(), params: vec![], typeid: None };
    assert_eq!(h.to_string(), "fn main()");
    let h = FunctionHeader { id: "one".to_owned(), params: vec![variable("x", ty("u8"))], typeid: None };
    assert_eq!(h.to_string(), "fn one(x:u8)");
}

#[test]
fn the_wildcard_equals_any_type() {
    assert!(ty("?") == pointer(ty("i32")));
    assert!(pointer(ty("i32")) == ty("?"));
    assert!(ty("i32") == ty("i32"));
    assert!(ty("i32") != ty("u32"));
    assert!(pointer(ty("?")) == pointer(Type::Tuple(vec![])));
    assert!(pointer(ty("i32")) != ty("i32"));
    assert!(Type::Tuple(vec![ty("i32"), ty("?")]) == Type::Tuple(vec![ty("i32"), pointer(ty("u8"))]));
    assert!(Type::Tuple(vec![ty("i32")]) != Type::Tuple(vec![ty("i32"), ty("i32")]));
    assert!(Type::default() == ty(""));
    assert_eq!(Type::default().to_string(), "");
}

#[test]
fn an_operation_uses_up_the_addresses_that_it_computes() {
    let mut main = unit("main");
    main.globals = vec![variable("g", ty("i32"))];
    main.structs = vec![strukt("Pair", vec![variable("a", ty("i32")), variable("b", ty("i32"))])];
    main.functions = vec![func(
        "main",
        vec![],
        None,
        vec![variable("p", ty("Pair")), variable("q", pointer(ty("i32")))],
        vec![
            step("add", vec![whole(2, "i32"), whole(3, "i32")], vec![field("p", "a")]),
            step("add", vec![field("p", "a"), whole(1, "i32")], vec![field("p", "b")]),
            step("any", vec![Value::Ref(Box::new(read("g")), None)], vec![]),
            step("any", vec![Value::Tuple(vec![field("p", "a"), field("p", "b"), read("g")], None)], vec![]),
            step("add", vec![field("p", "a"), field("p", "b")], vec![read("g")]),
        ],
    )];
    let d = dialect();
    let mut vm = kaiju::vm::Vm::from_source::<EmptyDeepValidator>("main", vec![main], &d, 128, 64).unwrap();
    vm.start("main").unwrap();
    let mut steps = 0;
    while vm.can_resume() {
        assert!(vm.pointers().is_empty());
        vm.resume::<Lenient>().unwrap();
        steps += 1;
    }
    assert_eq!(steps, 5);
    assert_eq!(vm.stage(), kaiju::vm::ExecutionStage::Complete);
    let g = vm.globals().unwrap();
    assert_eq!(vm.state().load_data::<i32>(g.address).unwrap(), 11);
}

struct Lenient {}

impl kaiju::processor::Processor for Lenient {
    fn process_op(op: &String, params: &[usize], targets: &[usize], vm: &mut kaiju::vm::Vm) -> SimpleResult<kaiju::processor::OpAction> {
        assert!(vm.pointers().is_empty());
        match op.as_str() {
            "add" => {
                let a: i32 = vm.state().load_data(params[0])?;
                let b: i32 = vm.state().load_data(params[1])?;
                vm.state_mut().store_data(targets[0], &(a + b))?;
            }
            _ => assert_eq!(params.len(), 1),
        }
        Ok(kaiju::processor::OpAction::Continue)
    }
}

struct RefusesAll {}

impl DeepValidator for RefusesAll {
    fn validate_op(_o: &Operation, _f: &Function, _m: &Module, _p: &Program, _r: &Rule, _v: &Validator) -> SimpleResult<()> {
        Err(SimpleError::of(ErrorKind::Host, "no operation passes"))
    }

    fn transform_module(_module: Module, _p: &Program, _v: &Validator) -> SimpleResult<Module> {
        Err(SimpleError::of(ErrorKind::Host, "no module can be made"))
    }
}

#[test]
fn what_asks_the_dialect_nothing_passes_whatever_the_dialect() {
    let d = dialect();
    let v = Validator::new(&d);
    let mut empty = whole_program(vec![]);
    assert!(v.transform_program::<RefusesAll>(&mut empty).is_ok());
    assert!(empty.modules.is_empty());
    let mut one = whole_program(vec![unit("m")]);
    assert_eq!(kind_of(v.transform_program::<RefusesAll>(&mut one)), ErrorKind::Host);
    assert_eq!(one.modules.len(), 1);

    let mut m = unit("m");
    m.functions = vec![
        func("quiet", vec![variable("a", ty("i32"))], Some(ty("i32")), vec![variable("l", ty("u8"))], vec![BlockOp::Label("top".to_owned()), BlockOp::Label("end".to_owned())]),
        func("loud", vec![], None, vec![], vec![BlockOp::Label("top".to_owned()), step("pass", vec![], vec![])]),
        func("lost", vec![], None, vec![variable("l", ty("Nope"))], vec![]),
    ];
    let p = whole_program(vec![m]);
    let m = &p.modules[0];
    let types = resolve_module_types(m, &p).unwrap();
    let functions = resolve_module_functions(m, &p).unwrap();
    let check = |k: usize| {
        let variables = resolve_function_variables(&m.functions[k], m).unwrap();
        let tables = Tables { types: &types, functions: &functions, variables: &variables };
        v.validate_function::<RefusesAll>(&m.functions[k], m, &p, &tables)
    };
    assert!(check(0).is_ok());
    assert_eq!(kind_of(check(1)), ErrorKind::Host);
    assert_eq!(kind_of(check(2)), ErrorKind::Resolution);
}

#[test]
fn the_dialect_that_adds_nothing_settles_placeholders() {
    let d = dialect();
    let v = Validator::new(&d);
    let mut m = unit("m");
    m.functions = vec![func("f", vec![], None, vec![], vec![step("any", vec![whole(1, "{integer}")], vec![])])];
    let p = whole_program(vec![]);
    let out = EmptyDeepValidator::transform_module(m, &p, &v).unwrap();
    match &out.functions[0].body[0].as_operation().unwrap().params[0] {
        Value::Number(Number::Integer(1, t)) => assert_eq!(t.to_string(), "i32"),
        other => panic!("{:?}", other),
    }
    let mut m = unit("m");
    m.functions = vec![func("f", vec![], None, vec![], vec![step("any", vec![Value::Number(Number::Integer(1, Type::Tuple(vec![])))], vec![])])];
    assert_eq!(kind_of(EmptyDeepValidator::transform_module(m, &p, &v)), ErrorKind::TypeError);
}

#[test]
fn a_failure_before_the_first_question_is_the_result_whatever_the_dialect() {
    let d = dialect();
    let v = Validator::new(&d);
    let check = |change: &dyn Fn(&mut Module)| {
        let mut m = unit("m");
        m.globals = vec![variable("g", ty("i32"))];
        m.functions = vec![
            func("quiet", vec![], None, vec![], vec![BlockOp::Label("top".to_owned())]),
            func("loud", vec![], None, vec![], vec![BlockOp::Label("top".to_owned())]),
        ];
        change(&mut m);
        v.validate_program::<RefusesAll>(&whole_program(vec![m]))
    };
    // nothing is asked about operations, and the dialect has nothing against modules
    assert!(check(&|_| {}).is_ok());
    assert_eq!(kind_of(check(&|m| m.globals.push(variable("g", ty("i32"))))), ErrorKind::Resolution);
    assert_eq!(kind_of(check(&|m| m.imports.push(import("nowhere", &[])))), ErrorKind::Resolution);
    assert_eq!(kind_of(check(&|m| m.structs.push(strukt("S", vec![variable("s", ty("S"))])))), ErrorKind::TypeError);
    assert_eq!(kind_of(check(&|m| m.globals.push(variable("h", ty("Nope"))))), ErrorKind::Resolution);
    assert_eq!(kind_of(check(&|m| m.functions[1].locals.push(variable("g", ty("i32"))))), ErrorKind::Resolution);
    assert_eq!(kind_of(check(&|m| m.functions[1].locals.push(variable("l", ty("Nope"))))), ErrorKind::Resolution);
    // the first operation fails its check: the dialect is not asked
    assert_eq!(kind_of(check(&|m| m.functions[1].body.push(step("add", vec![], vec![])))), ErrorKind::TypeError);
    assert_eq!(kind_of(check(&|m| m.functions[1].body.push(step("mul", vec![], vec![])))), ErrorKind::Resolution);
    // the first operation passes its check: the dialect is asked, and refuses
    assert_eq!(kind_of(check(&|m| m.functions[0].body.push(step("pass", vec![], vec![])))), ErrorKind::Host);
    assert_eq!(
        kind_of(check(&|m| {
            m.functions[0].body.push(step("pass", vec![], vec![]));
            m.functions[1].body.push(step("mul", vec![], vec![]));
        })),
        ErrorKind::Host
    );
}
