//! From the syntax tree to the program: every item of the tree becomes
//! the item of the program that it stands for.

use crate::ast::{
    ast_tree, ast_trees, lemma_ast_tuple_tree, AstAccess, AstBlockOp, AstExtern, AstFunction,
    AstFunctionHeader, AstIdentifier, AstImport, AstInstruction, AstMeta, AstMetaField,
    AstMetaValue, AstModule, AstNumber, AstOpParam, AstOpRule, AstOpRuleDef, AstOpRuleDefDesc,
    AstOperation, AstOpsDescriptor, AstStruct, AstType, AstValue, AstVariable,
};
use crate::error::CompilationError;
use crate::program::{
    lemma_trees_push, lemma_tuple_tree, magic_module, trees, Access, BlockOp, Extern,
    FloatConstant, Function, FunctionHeader, Import, Meta, MetaValue, Module, Number, OpParam,
    OpRule, Operation, OpsDescriptor, Struct, Type, TypeTree, Value, Variable,
};
use vstd::prelude::*;

verus! {

/// What the way from the syntax tree to the program gives.
pub type CompilationResult<T> = Result<T, CompilationError>;

/// True when the access stands for the access of the syntax tree.
pub open spec fn access_is(a: Access, ast: AstAccess) -> bool
    decreases ast,
{
    match ast {
        AstAccess::Tuple(i, next) => a matches Access::Tuple(j, n) && j == i.0 && match (n, next) {
            (Some(x), Some(y)) => access_is(*x, *y),
            (None, None) => true,
            _ => false,
        },
        AstAccess::Variable(id, next) => a matches Access::Variable(name, n) && name@ == id.0@
            && match (n, next) {
            (Some(x), Some(y)) => access_is(*x, *y),
            (None, None) => true,
            _ => false,
        },
    }
}

/// True when the optional access stands for that of the syntax tree.
pub open spec fn next_is(a: Option<Box<Access>>, ast: Option<Box<AstAccess>>) -> bool {
    match (a, ast) {
        (Some(x), Some(y)) => access_is(*x, *y),
        (None, None) => true,
        _ => false,
    }
}

/// True when the number stands for the number of the syntax tree.
pub open spec fn number_is(n: Number, ast: AstNumber) -> bool {
    match ast {
        AstNumber::Integer(i) => n matches Number::Integer(v, t) && v == i.0 && t@ == ast_tree(i.1),
        AstNumber::Float(f) => n matches Number::Float(v, t) && v.text@ == f.0.text@ && v.single
            == f.0.single && v.double == f.0.double && t@ == ast_tree(f.1),
    }
}

/// True when the value stands for the value of the syntax tree.
pub open spec fn value_is(v: Value, ast: AstValue) -> bool
    decreases ast,
{
    match ast {
        AstValue::Ref(inner, a) => v matches Value::Ref(x, b) && value_is(*x, *inner) && next_is(
            b,
            a,
        ),
        AstValue::Deref(inner, a) => v matches Value::Deref(x, b) && value_is(*x, *inner)
            && next_is(b, a),
        AstValue::FunctionCall(id, args, a) => v matches Value::FunctionCall(name, xs, b) && name@
            == id.0@ && xs@.len() == args@.len() && (forall|i: int|
            0 <= i < args@.len() ==> value_is(#[trigger] xs@[i], args@[i])) && next_is(b, a),
        AstValue::Tuple(args, a) => v matches Value::Tuple(xs, b) && xs@.len() == args@.len() && (
        forall|i: int| 0 <= i < args@.len() ==> value_is(#[trigger] xs@[i], args@[i])) && next_is(
            b,
            a,
        ),
        AstValue::String(s) => v matches Value::String(text, t) && text@ == s.0@ && t@ == ast_tree(
            s.1,
        ),
        AstValue::Number(n) => v matches Value::Number(x) && number_is(x, n),
        AstValue::OperationInline(id, args, a) => v matches Value::OperationInline(name, xs, b)
            && name@ == id.0@ && xs@.len() == args@.len() && (forall|i: int|
            0 <= i < args@.len() ==> value_is(#[trigger] xs@[i], args@[i])) && next_is(b, a),
        AstValue::Variable(id, a) => v matches Value::Variable(name, b) && name@ == id.0@
            && next_is(b, a),
    }
}

/// True when the values stand for the values of the syntax tree, one
/// for one.
pub open spec fn values_are(vs: Seq<Value>, asts: Seq<AstValue>) -> bool {
    vs.len() == asts.len() && forall|i: int|
        0 <= i < asts.len() ==> value_is(#[trigger] vs[i], asts[i])
}

/// True when the variable stands for the variable of the syntax tree.
pub open spec fn variable_is(v: Variable, ast: AstVariable) -> bool {
    v.id@ == ast.id.0@ && v.typeid@ == ast_tree(ast.typeid)
}

/// True when the variables stand for those of the syntax tree, one for
/// one.
pub open spec fn variables_are(vs: Seq<Variable>, asts: Seq<AstVariable>) -> bool {
    vs.len() == asts.len() && forall|i: int|
        0 <= i < asts.len() ==> variable_is(#[trigger] vs[i], asts[i])
}

/// True when the head of a function stands for that of the syntax tree.
pub open spec fn header_is(h: FunctionHeader, ast: AstFunctionHeader) -> bool {
    &&& h.id@ == ast.id.0@
    &&& variables_are(h.params@, ast.params@)
    &&& match (h.typeid, ast.typeid) {
        (Some(t), Some(u)) => t@ == ast_tree(u),
        (None, None) => true,
        _ => false,
    }
}

/// True when the note stands for the note of the syntax tree.
pub open spec fn meta_is(m: Meta, ast: AstMetaField) -> bool
    decreases ast,
{
    m.id@ == ast.id.0@ && m.args@.len() == ast.args@.len() && forall|i: int|
        0 <= i < ast.args@.len() ==> meta_value_is(#[trigger] m.args@[i], ast.args@[i])
}

/// True when the argument of a note stands for that of the syntax tree.
pub open spec fn meta_value_is(v: MetaValue, ast: AstMetaValue) -> bool
    decreases ast,
{
    match ast {
        AstMetaValue::Named(id, inner) => v matches MetaValue::Named(name, x) && name@ == id.0@
            && meta_value_is(*x, *inner),
        AstMetaValue::Field(f) => v matches MetaValue::Field(m) && meta_is(m, f),
        AstMetaValue::String(s) => v matches MetaValue::String(text) && text@ == s.0@,
        AstMetaValue::Number(n) => v matches MetaValue::Number(x) && number_is(x, n),
    }
}

/// True when the notes stand for those of the syntax tree, one for one.
pub open spec fn metas_are(ms: Seq<Meta>, asts: Seq<AstMetaField>) -> bool {
    ms.len() == asts.len() && forall|i: int| 0 <= i < asts.len() ==> meta_is(#[trigger] ms[i], asts[i])
}

/// The notes of the groups `groups`, one group after the other.
pub open spec fn flat_fields(groups: Seq<AstMeta>) -> Seq<AstMetaField>
    decreases groups.len(),
{
    if groups.len() == 0 {
        Seq::empty()
    } else {
        flat_fields(groups.drop_last()) + groups.last().0@
    }
}

/// True when the operation stands for the operation of the syntax tree.
pub open spec fn operation_is(o: Operation, ast: AstOperation) -> bool {
    &&& metas_are(o.meta@, flat_fields(ast.meta@))
    &&& o.id@ == ast.id.0@
    &&& values_are(o.params@, ast.params@)
    &&& values_are(o.targets@, ast.targets@)
}

/// True when the step stands for the step of the syntax tree.
pub open spec fn block_op_is(b: BlockOp, ast: AstBlockOp) -> bool {
    match ast {
        AstBlockOp::Label(l) => b matches BlockOp::Label(name) && name@ == l.0@,
        AstBlockOp::Operation(o) => b matches BlockOp::Operation(x) && operation_is(x, o),
    }
}

/// True when the function stands for the function of the syntax tree.
pub open spec fn function_is(f: Function, ast: AstFunction) -> bool {
    &&& metas_are(f.meta@, flat_fields(ast.meta@))
    &&& f.export == ast.export
    &&& header_is(f.header, ast.header)
    &&& variables_are(f.locals@, ast.locals@)
    &&& f.body@.len() == ast.ops@.len()
    &&& forall|i: int| 0 <= i < ast.ops@.len() ==> block_op_is(#[trigger] f.body@[i], ast.ops@[i])
}

/// True when the struct stands for the struct of the syntax tree.
pub open spec fn struct_is(s: Struct, ast: AstStruct) -> bool {
    &&& metas_are(s.meta@, flat_fields(ast.meta@))
    &&& s.export == ast.export
    &&& s.id@ == ast.id.0@
    &&& variables_are(s.fields@, ast.fields@)
}

/// True when the external function stands for that of the syntax tree.
pub open spec fn extern_is(e: Extern, ast: AstExtern) -> bool {
    &&& metas_are(e.meta@, flat_fields(ast.meta@))
    &&& header_is(e.item, ast.item)
    &&& e.location_module@ == ast.location_module.0@
    &&& e.location_function@ == ast.location_function.0@
}

/// True when the import stands for the import of the syntax tree.
pub open spec fn import_is(i: Import, ast: AstImport) -> bool {
    &&& metas_are(i.meta@, flat_fields(ast.meta@))
    &&& i.module@ == ast.module.0@
    &&& i.names@.len() == ast.names@.len()
    &&& forall|k: int| 0 <= k < ast.names@.len() ==> (#[trigger] i.names@[k])@ == ast.names@[k].0@
}

fn type_of(ast: &AstType) -> (r: Type)
    ensures
        r@ == ast_tree(*ast),
    decreases ast,
{
    match ast {
        AstType::Identifier(v) => Type::Identifier(v.0.clone()),
        AstType::Pointer(v) => Type::Pointer(Box::new(type_of(v))),
        AstType::Tuple(v) => {
            let mut out: Vec<Type> = Vec::new();
            let mut i: usize = 0;
            proof {
                assert(trees(out@) =~= ast_trees(v@).take(0));
            }
            while i < v.len()
                invariant
                    i <= v@.len(),
                    *ast == AstType::Tuple(*v),
                    trees(out@) == ast_trees(v@).take(i as int),
                decreases v@.len() - i,
            {
                proof {
                    assert(ast->Tuple_0 == *v);
                    assert(decreases_to!(*ast => v@[i as int]));
                }
                let t = type_of(&v[i]);
                proof {
                    lemma_trees_push(out@, t);
                    assert(ast_trees(v@).take(i as int).push(ast_tree(v@[i as int]))
                        =~= ast_trees(v@).take(i + 1));
                }
                out.push(t);
                i = i + 1;
            }
            proof {
                assert(ast_trees(v@).take(i as int) =~= ast_trees(v@));
                lemma_tuple_tree(out);
                lemma_ast_tuple_tree(*v);
            }
            Type::Tuple(out)
        },
    }
}

impl Type {
    /// The type that the type of the syntax tree stands for.
    pub fn from_ast(ast: &AstType) -> (r: CompilationResult<Self>)
        ensures
            r matches Ok(t) && t@ == ast_tree(*ast),
    {
        Ok(type_of(ast))
    }
}

fn access_of(ast: &Option<Box<AstAccess>>) -> (r: Option<Box<Access>>)
    ensures
        next_is(r, *ast),
    decreases ast,
{
    match ast {
        Some(a) => Some(Box::new(access_from(a))),
        None => None,
    }
}

fn access_from(ast: &AstAccess) -> (r: Access)
    ensures
        access_is(r, *ast),
    decreases ast,
{
    match ast {
        AstAccess::Variable(v, a) => {
            let next = match a {
                Some(n) => Some(Box::new(access_from(n))),
                None => None,
            };
            Access::Variable(v.0.clone(), next)
        },
        AstAccess::Tuple(v, a) => {
            let next = match a {
                Some(n) => Some(Box::new(access_from(n))),
                None => None,
            };
            Access::Tuple(v.0, next)
        },
    }
}

impl Access {
    /// The access that the access of the syntax tree stands for.
    pub fn from_ast(ast: &AstAccess) -> (r: CompilationResult<Self>)
        ensures
            r matches Ok(a) && access_is(a, *ast),
    {
        Ok(access_from(ast))
    }
}

impl Number {
    /// The number that the number of the syntax tree stands for.
    pub fn from_ast(ast: &AstNumber) -> (r: CompilationResult<Self>)
        ensures
            r matches Ok(n) && number_is(n, *ast),
    {
        Ok(number_from(ast))
    }
}

fn number_from(ast: &AstNumber) -> (r: Number)
    ensures
        number_is(r, *ast),
{
    match ast {
        AstNumber::Integer(v) => Number::Integer(v.0, type_of(&v.1)),
        AstNumber::Float(v) => Number::Float(
            FloatConstant { text: v.0.text.clone(), single: v.0.single, double: v.0.double },
            type_of(&v.1),
        ),
    }
}

fn values_from(asts: &Vec<AstValue>) -> (r: Vec<Value>)
    ensures
        values_are(r@, asts@),
    decreases asts, 0nat,
{
    let mut out: Vec<Value> = Vec::new();
    let mut i: usize = 0;
    while i < asts.len()
        invariant
            i <= asts@.len(),
            out@.len() == i,
            forall|k: int| 0 <= k < i ==> value_is(#[trigger] out@[k], asts@[k]),
        decreases asts@.len() - i,
    {
        proof {
            assert(decreases_to!(asts => asts@[i as int]));
        }
        let v = value_from(&asts[i]);
        out.push(v);
        i = i + 1;
    }
    out
}

fn value_from(ast: &AstValue) -> (r: Value)
    ensures
        value_is(r, *ast),
    decreases ast, 1nat,
{
    match ast {
        AstValue::Ref(v, a) => Value::Ref(Box::new(value_from(v)), access_of(a)),
        AstValue::Deref(v, a) => Value::Deref(Box::new(value_from(v)), access_of(a)),
        AstValue::FunctionCall(i, v, a) => {
            assert(ast->FunctionCall_1 == *v);
            Value::FunctionCall(i.0.clone(), values_from(v), access_of(a))
        },
        AstValue::Tuple(v, a) => {
            assert(ast->Tuple_0 == *v);
            Value::Tuple(values_from(v), access_of(a))
        },
        AstValue::String(v) => Value::String(v.0.clone(), type_of(&v.1)),
        AstValue::Number(v) => Value::Number(number_from(v)),
        AstValue::OperationInline(i, v, a) => {
            assert(ast->OperationInline_1 == *v);
            Value::OperationInline(i.0.clone(), values_from(v), access_of(a))
        },
        AstValue::Variable(v, a) => Value::Variable(v.0.clone(), access_of(a)),
    }
}

impl Value {
    /// The value that the value of the syntax tree stands for.
    pub fn from_ast(ast: &AstValue) -> (r: CompilationResult<Self>)
        ensures
            r matches Ok(v) && value_is(v, *ast),
    {
        Ok(value_from(ast))
    }
}

fn variable_from(ast: &AstVariable) -> (r: Variable)
    ensures
        variable_is(r, *ast),
{
    Variable { id: ast.id.0.clone(), typeid: type_of(&ast.typeid) }
}

fn variables_from(asts: &Vec<AstVariable>) -> (r: Vec<Variable>)
    ensures
        variables_are(r@, asts@),
{
    let mut out: Vec<Variable> = Vec::new();
    let mut i: usize = 0;
    while i < asts.len()
        invariant
            i <= asts@.len(),
            out@.len() == i,
            forall|k: int| 0 <= k < i ==> variable_is(#[trigger] out@[k], asts@[k]),
        decreases asts@.len() - i,
    {
        out.push(variable_from(&asts[i]));
        i = i + 1;
    }
    out
}

impl Variable {
    /// The variable that the variable of the syntax tree stands for.
    pub fn from_ast(ast: &AstVariable) -> (r: CompilationResult<Self>)
        ensures
            r matches Ok(v) && variable_is(v, *ast),
    {
        Ok(variable_from(ast))
    }
}

fn header_from(ast: &AstFunctionHeader) -> (r: FunctionHeader)
    ensures
        header_is(r, *ast),
{
    FunctionHeader {
        id: ast.id.0.clone(),
        params: variables_from(&ast.params),
        typeid: match &ast.typeid {
            Some(t) => Some(type_of(t)),
            None => None,
        },
    }
}

impl FunctionHeader {
    /// The head of a function that the head of the syntax tree stands
    /// for.
    pub fn from_ast(ast: &AstFunctionHeader) -> (r: CompilationResult<Self>)
        ensures
            r matches Ok(h) && header_is(h, *ast),
    {
        Ok(header_from(ast))
    }
}

fn meta_values_from(asts: &Vec<AstMetaValue>) -> (r: Vec<MetaValue>)
    ensures
        r@.len() == asts@.len(),
        forall|i: int| 0 <= i < asts@.len() ==> meta_value_is(#[trigger] r@[i], asts@[i]),
    decreases asts, 0nat,
{
    let mut out: Vec<MetaValue> = Vec::new();
    let mut i: usize = 0;
    while i < asts.len()
        invariant
            i <= asts@.len(),
            out@.len() == i,
            forall|k: int| 0 <= k < i ==> meta_value_is(#[trigger] out@[k], asts@[k]),
        decreases asts@.len() - i,
    {
        proof {
            assert(decreases_to!(asts => asts@[i as int]));
        }
        let v = meta_value_from(&asts[i]);
        out.push(v);
        i = i + 1;
    }
    out
}

fn meta_from(ast: &AstMetaField) -> (r: Meta)
    ensures
        meta_is(r, *ast),
    decreases ast, 1nat,
{
    assert(ast.args == ast.args);
    Meta { id: ast.id.0.clone(), args: meta_values_from(&ast.args) }
}

fn meta_value_from(ast: &AstMetaValue) -> (r: MetaValue)
    ensures
        meta_value_is(r, *ast),
    decreases ast, 1nat,
{
    match ast {
        AstMetaValue::Named(n, v) => MetaValue::Named(n.0.clone(), Box::new(meta_value_from(v))),
        AstMetaValue::Field(v) => MetaValue::Field(meta_from(v)),
        AstMetaValue::String(v) => MetaValue::String(v.0.clone()),
        AstMetaValue::Number(v) => MetaValue::Number(number_from(v)),
    }
}

impl Meta {
    /// The note that the note of the syntax tree stands for.
    pub fn from_ast(ast: &AstMetaField) -> (r: CompilationResult<Self>)
        ensures
            r matches Ok(m) && meta_is(m, *ast),
    {
        Ok(meta_from(ast))
    }
}

impl MetaValue {
    /// The argument of a note that the argument of the syntax tree
    /// stands for.
    pub fn from_ast(ast: &AstMetaValue) -> (r: CompilationResult<Self>)
        ensures
            r matches Ok(v) && meta_value_is(v, *ast),
    {
        Ok(meta_value_from(ast))
    }
}

/// The notes of the groups `ast`, one group after the other.
pub fn convert_ast_meta(ast: &Vec<AstMeta>) -> (r: CompilationResult<Vec<Meta>>)
    ensures
        r matches Ok(ms) && metas_are(ms@, flat_fields(ast@)),
{
    Ok(metas_from(ast))
}

fn metas_from(ast: &Vec<AstMeta>) -> (r: Vec<Meta>)
    ensures
        metas_are(r@, flat_fields(ast@)),
{
    let mut out: Vec<Meta> = Vec::new();
    let mut i: usize = 0;
    assert(ast@.take(0) =~= Seq::<AstMeta>::empty());
    while i < ast.len()
        invariant
            i <= ast@.len(),
            metas_are(out@, flat_fields(ast@.take(i as int))),
        decreases ast@.len() - i,
    {
        let fields = &ast[i].0;
        let ghost before = flat_fields(ast@.take(i as int));
        proof {
            assert(ast@.take(i + 1).drop_last() =~= ast@.take(i as int));
            assert(ast@.take(i + 1).last() == ast@[i as int]);
        }
        let mut j: usize = 0;
        while j < fields.len()
            invariant
                j <= fields@.len(),
                i < ast@.len(),
                fields@ == ast@[i as int].0@,
                before == flat_fields(ast@.take(i as int)),
                metas_are(out@, before + fields@.take(j as int)),
            decreases fields@.len() - j,
        {
            let ghost done = out@;
            let m = meta_from(&fields[j]);
            out.push(m);
            proof {
                let target = before + fields@.take(j + 1);
                assert(target =~= (before + fields@.take(j as int)).push(fields@[j as int]));
                assert forall|k: int| 0 <= k < target.len() implies meta_is(
                    #[trigger] out@[k],
                    target[k],
                ) by {
                    if k < done.len() {
                        assert(out@[k] == done[k]);
                    }
                }
            }
            j = j + 1;
        }
        assert(fields@.take(j as int) =~= fields@);
        i = i + 1;
    }
    assert(ast@.take(i as int) =~= ast@);
    out
}

fn operation_from(ast: &AstOperation) -> (r: Operation)
    ensures
        operation_is(r, *ast),
{
    Operation {
        meta: metas_from(&ast.meta),
        id: ast.id.0.clone(),
        params: values_from(&ast.params),
        targets: values_from(&ast.targets),
    }
}

impl Operation {
    /// The operation that the operation of the syntax tree stands for.
    pub fn from_ast(ast: &AstOperation) -> (r: CompilationResult<Self>)
        ensures
            r matches Ok(o) && operation_is(o, *ast),
    {
        Ok(operation_from(ast))
    }
}

fn block_op_from(ast: &AstBlockOp) -> (r: BlockOp)
    ensures
        block_op_is(r, *ast),
{
    match ast {
        AstBlockOp::Label(l) => BlockOp::Label(l.0.clone()),
        AstBlockOp::Operation(o) => BlockOp::Operation(operation_from(o)),
    }
}

impl BlockOp {
    /// The step that the step of the syntax tree stands for.
    pub fn from_ast(ast: &AstBlockOp) -> (r: CompilationResult<Self>)
        ensures
            r matches Ok(b) && block_op_is(b, *ast),
    {
        Ok(block_op_from(ast))
    }
}

fn function_from(ast: &AstFunction) -> (r: Function)
    ensures
        function_is(r, *ast),
{
    let mut body: Vec<BlockOp> = Vec::new();
    let mut i: usize = 0;
    while i < ast.ops.len()
        invariant
            i <= ast.ops@.len(),
            body@.len() == i,
            forall|k: int| 0 <= k < i ==> block_op_is(#[trigger] body@[k], ast.ops@[k]),
        decreases ast.ops@.len() - i,
    {
        body.push(block_op_from(&ast.ops[i]));
        i = i + 1;
    }
    Function {
        meta: metas_from(&ast.meta),
        export: ast.export,
        header: header_from(&ast.header),
        locals: variables_from(&ast.locals),
        body,
    }
}

impl Function {
    /// The function that the function of the syntax tree stands for.
    pub fn from_ast(ast: &AstFunction) -> (r: CompilationResult<Self>)
        ensures
            r matches Ok(f) && function_is(f, *ast),
    {
        Ok(function_from(ast))
    }
}

fn struct_from(ast: &AstStruct) -> (r: Struct)
    ensures
        struct_is(r, *ast),
{
    Struct {
        meta: metas_from(&ast.meta),
        export: ast.export,
        id: ast.id.0.clone(),
        fields: variables_from(&ast.fields),
    }
}

impl Struct {
    /// The struct that the struct of the syntax tree stands for.
    pub fn from_ast(ast: &AstStruct) -> (r: CompilationResult<Self>)
        ensures
            r matches Ok(s) && struct_is(s, *ast),
    {
        Ok(struct_from(ast))
    }
}

fn extern_from(ast: &AstExtern) -> (r: Extern)
    ensures
        extern_is(r, *ast),
{
    Extern {
        meta: metas_from(&ast.meta),
        item: header_from(&ast.item),
        location_module: ast.location_module.0.clone(),
        location_function: ast.location_function.0.clone(),
    }
}

impl Extern {
    /// The external function that that of the syntax tree stands for.
    pub fn from_ast(ast: &AstExtern) -> (r: CompilationResult<Self>)
        ensures
            r matches Ok(e) && extern_is(e, *ast),
    {
        Ok(extern_from(ast))
    }
}

fn import_from(ast: &AstImport) -> (r: Import)
    ensures
        import_is(r, *ast),
{
    let mut names: Vec<String> = Vec::new();
    let mut i: usize = 0;
    while i < ast.names.len()
        invariant
            i <= ast.names@.len(),
            names@.len() == i,
            forall|k: int| 0 <= k < i ==> (#[trigger] names@[k])@ == ast.names@[k].0@,
        decreases ast.names@.len() - i,
    {
        names.push(ast.names[i].0.clone());
        i = i + 1;
    }
    Import { meta: metas_from(&ast.meta), names, module: ast.module.0.clone() }
}

impl Import {
    /// The import that the import of the syntax tree stands for.
    pub fn from_ast(ast: &AstImport) -> (r: CompilationResult<Self>)
        ensures
            r matches Ok(i) && import_is(i, *ast),
    {
        Ok(import_from(ast))
    }
}

/// True when the parameter of a rule stands for that of the syntax tree.
pub open spec fn op_param_is(p: OpParam, ast: AstOpParam) -> bool {
    p.id@ == ast.id.0@ && p.typeid@ == ast_tree(ast.typeid)
}

/// True when the pairs stand for the descriptions of the syntax tree.
pub open spec fn descriptions_are(
    pairs: Seq<(String, String)>,
    asts: Seq<AstOpRuleDefDesc>,
) -> bool {
    pairs.len() == asts.len() && forall|i: int|
        0 <= i < asts.len() ==> (#[trigger] pairs[i]).0@ == asts[i].id.0@ && pairs[i].1@
            == asts[i].value.0@
}

/// True when the definition stands for the definition of the syntax
/// tree: an entry for each part, in the order of the text.
pub open spec fn definition_is(
    d: Seq<(String, Vec<(String, String)>)>,
    asts: Seq<AstOpRuleDef>,
) -> bool {
    d.len() == asts.len() && forall|i: int|
        0 <= i < asts.len() ==> (#[trigger] d[i]).0@ == asts[i].id.0@ && descriptions_are(
            d[i].1@,
            asts[i].description@,
        )
}

/// True when the rule stands for the rule of the syntax tree.
pub open spec fn op_rule_is(r: OpRule, ast: AstOpRule) -> bool {
    &&& metas_are(r.meta@, flat_fields(ast.meta@))
    &&& r.id@ == ast.id.0@
    &&& r.params@.len() == ast.params@.len()
    &&& forall|i: int|
        0 <= i < ast.params@.len() ==> op_param_is(#[trigger] r.params@[i], ast.params@[i])
    &&& trees(r.targets@) == ast_trees(ast.targets@)
    &&& definition_is(r.definition@, ast.definition@)
}

/// True when the rules stand for the rules of the syntax tree.
pub open spec fn ops_descriptor_is(d: OpsDescriptor, ast: AstOpsDescriptor) -> bool {
    &&& metas_are(d.meta@, flat_fields(ast.meta@))
    &&& d.rules@.len() == ast.rules@.len()
    &&& forall|i: int| 0 <= i < ast.rules@.len() ==> op_rule_is(#[trigger] d.rules@[i], ast.rules@[i])
}

fn op_param_from(ast: &AstOpParam) -> (r: OpParam)
    ensures
        op_param_is(r, *ast),
{
    OpParam { id: ast.id.0.clone(), typeid: type_of(&ast.typeid) }
}

impl OpParam {
    /// The parameter of a rule that that of the syntax tree stands for.
    pub fn from_ast(ast: &AstOpParam) -> (r: CompilationResult<Self>)
        ensures
            r matches Ok(p) && op_param_is(p, *ast),
    {
        Ok(op_param_from(ast))
    }
}

fn descriptions_from(asts: &Vec<AstOpRuleDefDesc>) -> (r: Vec<(String, String)>)
    ensures
        descriptions_are(r@, asts@),
{
    let mut out: Vec<(String, String)> = Vec::new();
    let mut i: usize = 0;
    while i < asts.len()
        invariant
            i <= asts@.len(),
            out@.len() == i,
            forall|k: int|
                0 <= k < i ==> (#[trigger] out@[k]).0@ == asts@[k].id.0@ && out@[k].1@
                    == asts@[k].value.0@,
        decreases asts@.len() - i,
    {
        out.push((asts[i].id.0.clone(), asts[i].value.0.clone()));
        i = i + 1;
    }
    out
}

fn definition_from(asts: &Vec<AstOpRuleDef>) -> (r: Vec<(String, Vec<(String, String)>)>)
    ensures
        definition_is(r@, asts@),
{
    let mut out: Vec<(String, Vec<(String, String)>)> = Vec::new();
    let mut i: usize = 0;
    while i < asts.len()
        invariant
            i <= asts@.len(),
            out@.len() == i,
            forall|k: int|
                0 <= k < i ==> (#[trigger] out@[k]).0@ == asts@[k].id.0@ && descriptions_are(
                    out@[k].1@,
                    asts@[k].description@,
                ),
        decreases asts@.len() - i,
    {
        out.push((asts[i].id.0.clone(), descriptions_from(&asts[i].description)));
        i = i + 1;
    }
    out
}

/// The definition of a rule: an entry for each part of the syntax tree,
/// in the order of the text.
pub fn convert_ast_op_definition(ast: &Vec<AstOpRuleDef>) -> (r: CompilationResult<
    Vec<(String, Vec<(String, String)>)>,
>)
    ensures
        r matches Ok(d) && definition_is(d@, ast@),
{
    Ok(definition_from(ast))
}

fn types_from(asts: &Vec<AstType>) -> (r: Vec<Type>)
    ensures
        trees(r@) == ast_trees(asts@),
{
    let mut out: Vec<Type> = Vec::new();
    let mut i: usize = 0;
    proof {
        assert(trees(out@) =~= ast_trees(asts@).take(0));
    }
    while i < asts.len()
        invariant
            i <= asts@.len(),
            trees(out@) == ast_trees(asts@).take(i as int),
        decreases asts@.len() - i,
    {
        let t = type_of(&asts[i]);
        proof {
            lemma_trees_push(out@, t);
            assert(ast_trees(asts@).take(i as int).push(ast_tree(asts@[i as int])) =~= ast_trees(
                asts@,
            ).take(i + 1));
        }
        out.push(t);
        i = i + 1;
    }
    proof {
        assert(ast_trees(asts@).take(i as int) =~= ast_trees(asts@));
    }
    out
}

fn op_rule_from(ast: &AstOpRule) -> (r: OpRule)
    ensures
        op_rule_is(r, *ast),
{
    let mut params: Vec<OpParam> = Vec::new();
    let mut i: usize = 0;
    while i < ast.params.len()
        invariant
            i <= ast.params@.len(),
            params@.len() == i,
            forall|k: int| 0 <= k < i ==> op_param_is(#[trigger] params@[k], ast.params@[k]),
        decreases ast.params@.len() - i,
    {
        params.push(op_param_from(&ast.params[i]));
        i = i + 1;
    }
    OpRule {
        meta: metas_from(&ast.meta),
        id: ast.id.0.clone(),
        params,
        targets: types_from(&ast.targets),
        definition: definition_from(&ast.definition),
    }
}

impl OpRule {
    /// The rule that the rule of the syntax tree stands for.
    pub fn from_ast(ast: &AstOpRule) -> (r: CompilationResult<Self>)
        ensures
            r matches Ok(o) && op_rule_is(o, *ast),
    {
        Ok(op_rule_from(ast))
    }
}

impl OpsDescriptor {
    /// The rules that the rules of the syntax tree stand for.
    pub fn from_ast(ast: &AstOpsDescriptor) -> (r: CompilationResult<Self>)
        ensures
            r matches Ok(d) && ops_descriptor_is(d, *ast),
    {
        let mut rules: Vec<OpRule> = Vec::new();
        let mut i: usize = 0;
        while i < ast.rules.len()
            invariant
                i <= ast.rules@.len(),
                rules@.len() == i,
                forall|k: int| 0 <= k < i ==> op_rule_is(#[trigger] rules@[k], ast.rules@[k]),
            decreases ast.rules@.len() - i,
        {
            rules.push(op_rule_from(&ast.rules[i]));
            i = i + 1;
        }
        Ok(OpsDescriptor { meta: metas_from(&ast.meta), rules })
    }
}

/// What the instructions `ins` hold, each kind in the order of the
/// text: notes and globals with their groups opened.
pub struct Picked {
    pub meta: Seq<AstMetaField>,
    pub imports: Seq<AstImport>,
    pub globals: Seq<AstVariable>,
    pub externs: Seq<AstExtern>,
    pub structs: Seq<AstStruct>,
    pub functions: Seq<AstFunction>,
}

/// What the instructions `ins` hold, kind by kind.
pub open spec fn picked(ins: Seq<AstInstruction>) -> Picked
    decreases ins.len(),
{
    if ins.len() == 0 {
        Picked {
            meta: Seq::empty(),
            imports: Seq::empty(),
            globals: Seq::empty(),
            externs: Seq::empty(),
            structs: Seq::empty(),
            functions: Seq::empty(),
        }
    } else {
        let rest = picked(ins.drop_last());
        match ins.last() {
            AstInstruction::Meta(m) => Picked { meta: rest.meta + m.0@, ..rest },
            AstInstruction::Import(i) => Picked { imports: rest.imports.push(i), ..rest },
            AstInstruction::Globals(g) => Picked { globals: rest.globals + g@, ..rest },
            AstInstruction::Extern(e) => Picked { externs: rest.externs.push(e), ..rest },
            AstInstruction::Struct(s) => Picked { structs: rest.structs.push(s), ..rest },
            AstInstruction::Function(f) => Picked { functions: rest.functions.push(f), ..rest },
        }
    }
}

/// True when the parts of module `m` stand for the things `p`.
pub open spec fn parts_are(m: Module, p: Picked) -> bool {
    &&& metas_are(m.meta@, p.meta)
    &&& m.imports@.len() == p.imports.len()
    &&& forall|i: int| 0 <= i < p.imports.len() ==> import_is(#[trigger] m.imports@[i], p.imports[i])
    &&& variables_are(m.globals@, p.globals)
    &&& m.externs@.len() == p.externs.len()
    &&& forall|i: int| 0 <= i < p.externs.len() ==> extern_is(#[trigger] m.externs@[i], p.externs[i])
    &&& m.structs@.len() == p.structs.len()
    &&& forall|i: int| 0 <= i < p.structs.len() ==> struct_is(#[trigger] m.structs@[i], p.structs[i])
    &&& m.functions@.len() == p.functions.len()
    &&& forall|i: int|
        0 <= i < p.functions.len() ==> function_is(#[trigger] m.functions@[i], p.functions[i])
}

/// True when the module stands for the module of the syntax tree: it
/// has no path yet.
pub open spec fn module_is(m: Module, ast: AstModule) -> bool {
    &&& m.magic@ == seq![0x4bu8, 0x4au8, 0x4du8, 1u8]
    &&& match (m.shebang, ast.shebang) {
        (Some(a), Some(b)) => a@ == b@,
        (None, None) => true,
        _ => false,
    }
    &&& m.path@.len() == 0
    &&& parts_are(m, picked(ast.instructions@))
}

fn push_metas(out: &mut Vec<Meta>, asts: &Vec<AstMetaField>, Ghost(have): Ghost<Seq<AstMetaField>>)
    requires
        metas_are(old(out)@, have),
    ensures
        metas_are(final(out)@, have + asts@),
{
    let mut j: usize = 0;
    assert(have + asts@.take(0) =~= have);
    while j < asts.len()
        invariant
            j <= asts@.len(),
            metas_are(out@, have + asts@.take(j as int)),
        decreases asts@.len() - j,
    {
        let ghost done = out@;
        let m = meta_from(&asts[j]);
        out.push(m);
        proof {
            let target = have + asts@.take(j + 1);
            assert(target =~= (have + asts@.take(j as int)).push(asts@[j as int]));
            assert forall|k: int| 0 <= k < target.len() implies meta_is(
                #[trigger] out@[k],
                target[k],
            ) by {
                if k < done.len() {
                    assert(out@[k] == done[k]);
                }
            }
        }
        j = j + 1;
    }
    assert(asts@.take(j as int) =~= asts@);
}

fn push_variables(
    out: &mut Vec<Variable>,
    asts: &Vec<AstVariable>,
    Ghost(have): Ghost<Seq<AstVariable>>,
)
    requires
        variables_are(old(out)@, have),
    ensures
        variables_are(final(out)@, have + asts@),
{
    let mut j: usize = 0;
    assert(have + asts@.take(0) =~= have);
    while j < asts.len()
        invariant
            j <= asts@.len(),
            variables_are(out@, have + asts@.take(j as int)),
        decreases asts@.len() - j,
    {
        let ghost done = out@;
        let v = variable_from(&asts[j]);
        out.push(v);
        proof {
            let target = have + asts@.take(j + 1);
            assert(target =~= (have + asts@.take(j as int)).push(asts@[j as int]));
            assert forall|k: int| 0 <= k < target.len() implies variable_is(
                #[trigger] out@[k],
                target[k],
            ) by {
                if k < done.len() {
                    assert(out@[k] == done[k]);
                }
            }
        }
        j = j + 1;
    }
    assert(asts@.take(j as int) =~= asts@);
}

impl Module {
    /// The module that the module of the syntax tree stands for: its
    /// instructions sorted by kind, each kind in the order of the
    /// text.
    pub fn from_ast(ast: &AstModule) -> (r: CompilationResult<Self>)
        ensures
            r matches Ok(m) && module_is(m, *ast),
    {
        let mut m = Module {
            magic: magic_module(),
            shebang: match &ast.shebang {
                Some(text) => Some(text.clone()),
                None => None,
            },
            path: String::new(),
            meta: Vec::new(),
            imports: Vec::new(),
            globals: Vec::new(),
            externs: Vec::new(),
            structs: Vec::new(),
            functions: Vec::new(),
        };
        let ins = &ast.instructions;
        let mut i: usize = 0;
        assert(ins@.take(0) =~= Seq::<AstInstruction>::empty());
        while i < ins.len()
            invariant
                i <= ins@.len(),
                m.magic@ == seq![0x4bu8, 0x4au8, 0x4du8, 1u8],
                m.path@.len() == 0,
                m.shebang is Some == ast.shebang is Some,
                m.shebang is Some ==> m.shebang->0@ == ast.shebang->0@,
                parts_are(m, picked(ins@.take(i as int))),
            decreases ins@.len() - i,
        {
            let ghost before = picked(ins@.take(i as int));
            proof {
                assert(ins@.take(i + 1).drop_last() =~= ins@.take(i as int));
                assert(ins@.take(i + 1).last() == ins@[i as int]);
            }
            match &ins[i] {
                AstInstruction::Meta(g) => {
                    push_metas(&mut m.meta, &g.0, Ghost(before.meta));
                },
                AstInstruction::Import(x) => {
                    m.imports.push(import_from(x));
                },
                AstInstruction::Globals(g) => {
                    push_variables(&mut m.globals, g, Ghost(before.globals));
                },
                AstInstruction::Extern(x) => {
                    m.externs.push(extern_from(x));
                },
                AstInstruction::Struct(x) => {
                    m.structs.push(struct_from(x));
                },
                AstInstruction::Function(x) => {
                    m.functions.push(function_from(x));
                },
            }
            i = i + 1;
        }
        assert(ins@.take(i as int) =~= ins@);
        Ok(m)
    }
}

} // verus!
