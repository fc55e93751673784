//! Copies of the items of a program. A copy is the same as the item
//! in all that it says: names, numbers and the shapes of types and
//! values.

use crate::program::{
    Access, BlockOp, Extern, FloatConstant, Function, FunctionHeader, Import, Meta, MetaValue,
    Module, Number, Operation, Struct, Type, Value, Variable,
};
use vstd::prelude::*;

verus! {

/// True when the two numbers are the same number of the same type.
pub open spec fn same_number(a: Number, b: Number) -> bool {
    match b {
        Number::Integer(n, t) => a matches Number::Integer(m, u) && m == n && u@ == t@,
        Number::Float(n, t) => a matches Number::Float(m, u) && m == n && u@ == t@,
    }
}

/// True when the two values say the same: the same shape, names,
/// constants, types and accesses.
pub open spec fn same_value(a: Value, b: Value) -> bool
    decreases b,
{
    match b {
        Value::Ref(x, acc) => a matches Value::Ref(y, other) && same_value(*y, *x) && other == acc,
        Value::Deref(x, acc) => a matches Value::Deref(y, other) && same_value(*y, *x) && other
            == acc,
        Value::FunctionCall(n, xs, acc) => a matches Value::FunctionCall(m, ys, other) && m == n
            && ys@.len() == xs@.len() && (forall|k: int|
            0 <= k < xs@.len() ==> same_value(#[trigger] ys@[k], xs@[k])) && other == acc,
        Value::Tuple(xs, acc) => a matches Value::Tuple(ys, other) && ys@.len() == xs@.len() && (
        forall|k: int| 0 <= k < xs@.len() ==> same_value(#[trigger] ys@[k], xs@[k])) && other
            == acc,
        Value::String(s, t) => a matches Value::String(r, u) && r == s && u@ == t@,
        Value::Number(n) => a matches Value::Number(m) && same_number(m, n),
        Value::OperationInline(n, xs, acc) => a matches Value::OperationInline(m, ys, other) && m
            == n && ys@.len() == xs@.len() && (forall|k: int|
            0 <= k < xs@.len() ==> same_value(#[trigger] ys@[k], xs@[k])) && other == acc,
        Value::Variable(n, acc) => a matches Value::Variable(m, other) && m == n && other == acc,
    }
}

/// True when the values are the same, one for one.
pub open spec fn same_values(a: Seq<Value>, b: Seq<Value>) -> bool {
    a.len() == b.len() && forall|k: int| 0 <= k < b.len() ==> same_value(#[trigger] a[k], b[k])
}

/// True when the two notes say the same.
pub open spec fn same_meta(a: Meta, b: Meta) -> bool
    decreases b,
{
    a.id == b.id && a.args@.len() == b.args@.len() && forall|k: int|
        0 <= k < b.args@.len() ==> same_meta_value(#[trigger] a.args@[k], b.args@[k])
}

/// True when the two arguments of a note say the same.
pub open spec fn same_meta_value(a: MetaValue, b: MetaValue) -> bool
    decreases b,
{
    match b {
        MetaValue::Named(n, x) => a matches MetaValue::Named(m, y) && m == n && same_meta_value(
            *y,
            *x,
        ),
        MetaValue::Field(f) => a matches MetaValue::Field(g) && same_meta(g, f),
        MetaValue::String(s) => a matches MetaValue::String(r) && r == s,
        MetaValue::Number(n) => a matches MetaValue::Number(m) && same_number(m, n),
    }
}

/// True when the notes are the same, one for one.
pub open spec fn same_metas(a: Seq<Meta>, b: Seq<Meta>) -> bool {
    a.len() == b.len() && forall|k: int| 0 <= k < b.len() ==> same_meta(#[trigger] a[k], b[k])
}

/// True when the two operations say the same.
pub open spec fn same_operation(a: Operation, b: Operation) -> bool {
    &&& same_metas(a.meta@, b.meta@)
    &&& a.id == b.id
    &&& same_values(a.params@, b.params@)
    &&& same_values(a.targets@, b.targets@)
}

/// True when the two steps are the same label or say the same operation.
pub open spec fn same_step(a: BlockOp, b: BlockOp) -> bool {
    match b {
        BlockOp::Label(n) => a == b,
        BlockOp::Operation(op) => a matches BlockOp::Operation(other) && same_operation(other, op),
    }
}

/// True when the steps are the same, one for one.
pub open spec fn same_steps(a: Seq<BlockOp>, b: Seq<BlockOp>) -> bool {
    a.len() == b.len() && forall|k: int| 0 <= k < b.len() ==> same_step(#[trigger] a[k], b[k])
}

/// True when the two variables have the same name and type.
pub open spec fn same_variable(a: Variable, b: Variable) -> bool {
    a.id == b.id && a.typeid@ == b.typeid@
}

/// True when the variables are the same, one for one.
pub open spec fn same_variables(a: Seq<Variable>, b: Seq<Variable>) -> bool {
    a.len() == b.len() && forall|k: int| 0 <= k < b.len() ==> same_variable(#[trigger] a[k], b[k])
}

/// True when the two heads say the same.
pub open spec fn same_header(a: FunctionHeader, b: FunctionHeader) -> bool {
    &&& a.id == b.id
    &&& same_variables(a.params@, b.params@)
    &&& match (a.typeid, b.typeid) {
        (Some(t), Some(u)) => t@ == u@,
        (None, None) => true,
        _ => false,
    }
}

/// True when the two functions say the same.
pub open spec fn same_function(a: Function, b: Function) -> bool {
    &&& same_metas(a.meta@, b.meta@)
    &&& a.export == b.export
    &&& same_header(a.header, b.header)
    &&& same_variables(a.locals@, b.locals@)
    &&& same_steps(a.body@, b.body@)
}

/// True when the two structs say the same.
pub open spec fn same_struct(a: Struct, b: Struct) -> bool {
    &&& same_metas(a.meta@, b.meta@)
    &&& a.export == b.export
    &&& a.id == b.id
    &&& same_variables(a.fields@, b.fields@)
}

/// True when the two external functions say the same.
pub open spec fn same_extern(a: Extern, b: Extern) -> bool {
    &&& same_metas(a.meta@, b.meta@)
    &&& same_header(a.item, b.item)
    &&& a.location_module == b.location_module
    &&& a.location_function == b.location_function
}

/// True when the two imports say the same.
pub open spec fn same_import(a: Import, b: Import) -> bool {
    &&& same_metas(a.meta@, b.meta@)
    &&& a.names@ == b.names@
    &&& a.module == b.module
}

/// True when the two modules say the same.
pub open spec fn same_module(a: Module, b: Module) -> bool {
    &&& a.magic == b.magic
    &&& a.shebang == b.shebang
    &&& a.path == b.path
    &&& same_metas(a.meta@, b.meta@)
    &&& a.imports@.len() == b.imports@.len()
    &&& forall|k: int|
        0 <= k < b.imports@.len() ==> same_import(#[trigger] a.imports@[k], b.imports@[k])
    &&& same_variables(a.globals@, b.globals@)
    &&& a.externs@.len() == b.externs@.len()
    &&& forall|k: int|
        0 <= k < b.externs@.len() ==> same_extern(#[trigger] a.externs@[k], b.externs@[k])
    &&& a.structs@.len() == b.structs@.len()
    &&& forall|k: int|
        0 <= k < b.structs@.len() ==> same_struct(#[trigger] a.structs@[k], b.structs@[k])
    &&& a.functions@.len() == b.functions@.len()
    &&& forall|k: int|
        0 <= k < b.functions@.len() ==> same_function(#[trigger] a.functions@[k], b.functions@[k])
}

fn names_copy(names: &Vec<String>) -> (r: Vec<String>)
    ensures
        r@ == names@,
{
    let mut out: Vec<String> = Vec::new();
    let mut i: usize = 0;
    while i < names.len()
        invariant
            i <= names@.len(),
            out@ == names@.take(i as int),
        decreases names@.len() - i,
    {
        out.push(names[i].clone());
        assert(out@ =~= names@.take(i + 1));
        i = i + 1;
    }
    assert(names@.take(i as int) =~= names@);
    out
}

fn text_copy(text: &Option<String>) -> (r: Option<String>)
    ensures
        r == *text,
{
    match text {
        Some(s) => Some(s.clone()),
        None => None,
    }
}

fn access_copy(access: &Option<Box<Access>>) -> (r: Option<Box<Access>>)
    ensures
        r == *access,
    decreases access,
{
    match access {
        Some(a) => Some(Box::new(a.duplicate())),
        None => None,
    }
}

impl Access {
    /// A copy of the access.
    pub fn duplicate(&self) -> (r: Access)
        ensures
            r == *self,
        decreases self,
    {
        match self {
            Access::Tuple(i, next) => Access::Tuple(
                *i,
                match next {
                    Some(a) => Some(Box::new(a.duplicate())),
                    None => None,
                },
            ),
            Access::Variable(n, next) => Access::Variable(
                n.clone(),
                match next {
                    Some(a) => Some(Box::new(a.duplicate())),
                    None => None,
                },
            ),
        }
    }
}

impl Number {
    /// A copy of the number.
    pub fn duplicate(&self) -> (r: Number)
        ensures
            same_number(r, *self),
    {
        match self {
            Number::Integer(n, t) => Number::Integer(*n, t.duplicate()),
            Number::Float(n, t) => Number::Float(
                FloatConstant { text: n.text.clone(), single: n.single, double: n.double },
                t.duplicate(),
            ),
        }
    }
}

fn values_copy(values: &Vec<Value>) -> (r: Vec<Value>)
    ensures
        same_values(r@, values@),
    decreases values, 0nat,
{
    let mut out: Vec<Value> = Vec::new();
    let mut i: usize = 0;
    while i < values.len()
        invariant
            i <= values@.len(),
            out@.len() == i,
            forall|k: int| 0 <= k < i ==> same_value(#[trigger] out@[k], values@[k]),
        decreases values@.len() - i,
    {
        proof {
            assert(decreases_to!(values => values@[i as int]));
        }
        let v = values[i].duplicate();
        out.push(v);
        i = i + 1;
    }
    out
}

impl Value {
    /// A copy of the value.
    pub fn duplicate(&self) -> (r: Value)
        ensures
            same_value(r, *self),
        decreases self, 1nat,
    {
        match self {
            Value::Ref(v, a) => Value::Ref(Box::new(v.duplicate()), access_copy(a)),
            Value::Deref(v, a) => Value::Deref(Box::new(v.duplicate()), access_copy(a)),
            Value::FunctionCall(n, v, a) => {
                assert(self->FunctionCall_1 == *v);
                Value::FunctionCall(n.clone(), values_copy(v), access_copy(a))
            },
            Value::Tuple(v, a) => {
                assert(self->Tuple_0 == *v);
                Value::Tuple(values_copy(v), access_copy(a))
            },
            Value::String(s, t) => Value::String(s.clone(), t.duplicate()),
            Value::Number(n) => Value::Number(n.duplicate()),
            Value::OperationInline(n, v, a) => {
                assert(self->OperationInline_1 == *v);
                Value::OperationInline(n.clone(), values_copy(v), access_copy(a))
            },
            Value::Variable(n, a) => Value::Variable(n.clone(), access_copy(a)),
        }
    }
}

fn meta_values_copy(values: &Vec<MetaValue>) -> (r: Vec<MetaValue>)
    ensures
        r@.len() == values@.len(),
        forall|k: int| 0 <= k < values@.len() ==> same_meta_value(#[trigger] r@[k], values@[k]),
    decreases values, 0nat,
{
    let mut out: Vec<MetaValue> = Vec::new();
    let mut i: usize = 0;
    while i < values.len()
        invariant
            i <= values@.len(),
            out@.len() == i,
            forall|k: int| 0 <= k < i ==> same_meta_value(#[trigger] out@[k], values@[k]),
        decreases values@.len() - i,
    {
        proof {
            assert(decreases_to!(values => values@[i as int]));
        }
        let v = values[i].duplicate();
        out.push(v);
        i = i + 1;
    }
    out
}

impl MetaValue {
    /// A copy of the argument.
    pub fn duplicate(&self) -> (r: MetaValue)
        ensures
            same_meta_value(r, *self),
        decreases self, 1nat,
    {
        match self {
            MetaValue::Named(n, v) => MetaValue::Named(n.clone(), Box::new(v.duplicate())),
            MetaValue::Field(m) => MetaValue::Field(m.duplicate()),
            MetaValue::String(s) => MetaValue::String(s.clone()),
            MetaValue::Number(n) => MetaValue::Number(n.duplicate()),
        }
    }
}

impl Meta {
    /// A copy of the note.
    pub fn duplicate(&self) -> (r: Meta)
        ensures
            same_meta(r, *self),
        decreases self, 1nat,
    {
        Meta { id: self.id.clone(), args: meta_values_copy(&self.args) }
    }
}

/// Copies of the notes.
pub fn metas_copy(metas: &Vec<Meta>) -> (r: Vec<Meta>)
    ensures
        same_metas(r@, metas@),
{
    let mut out: Vec<Meta> = Vec::new();
    let mut i: usize = 0;
    while i < metas.len()
        invariant
            i <= metas@.len(),
            out@.len() == i,
            forall|k: int| 0 <= k < i ==> same_meta(#[trigger] out@[k], metas@[k]),
        decreases metas@.len() - i,
    {
        out.push(metas[i].duplicate());
        i = i + 1;
    }
    out
}

/// Copies of the variables.
pub fn variables_copy(vars: &Vec<Variable>) -> (r: Vec<Variable>)
    ensures
        same_variables(r@, vars@),
{
    let mut out: Vec<Variable> = Vec::new();
    let mut i: usize = 0;
    while i < vars.len()
        invariant
            i <= vars@.len(),
            out@.len() == i,
            forall|k: int| 0 <= k < i ==> same_variable(#[trigger] out@[k], vars@[k]),
        decreases vars@.len() - i,
    {
        out.push(vars[i].duplicate());
        i = i + 1;
    }
    out
}

impl Variable {
    /// A copy of the variable.
    pub fn duplicate(&self) -> (r: Variable)
        ensures
            same_variable(r, *self),
    {
        Variable { id: self.id.clone(), typeid: self.typeid.duplicate() }
    }
}

impl Operation {
    /// A copy of the operation.
    pub fn duplicate(&self) -> (r: Operation)
        ensures
            same_operation(r, *self),
    {
        Operation {
            meta: metas_copy(&self.meta),
            id: self.id.clone(),
            params: values_copy(&self.params),
            targets: values_copy(&self.targets),
        }
    }
}

impl BlockOp {
    /// A copy of the step.
    pub fn duplicate(&self) -> (r: BlockOp)
        ensures
            same_step(r, *self),
    {
        match self {
            BlockOp::Label(n) => BlockOp::Label(n.clone()),
            BlockOp::Operation(op) => BlockOp::Operation(op.duplicate()),
        }
    }
}

impl FunctionHeader {
    /// A copy of the head.
    pub fn duplicate(&self) -> (r: FunctionHeader)
        ensures
            same_header(r, *self),
    {
        FunctionHeader {
            id: self.id.clone(),
            params: variables_copy(&self.params),
            typeid: match &self.typeid {
                Some(t) => Some(t.duplicate()),
                None => None,
            },
        }
    }
}

impl Function {
    /// A copy of the function.
    pub fn duplicate(&self) -> (r: Function)
        ensures
            same_function(r, *self),
    {
        let mut body: Vec<BlockOp> = Vec::new();
        let mut i: usize = 0;
        while i < self.body.len()
            invariant
                i <= self.body@.len(),
                body@.len() == i,
                forall|k: int| 0 <= k < i ==> same_step(#[trigger] body@[k], self.body@[k]),
            decreases self.body@.len() - i,
        {
            body.push(self.body[i].duplicate());
            i = i + 1;
        }
        Function {
            meta: metas_copy(&self.meta),
            export: self.export,
            header: self.header.duplicate(),
            locals: variables_copy(&self.locals),
            body,
        }
    }
}

impl Struct {
    /// A copy of the struct.
    pub fn duplicate(&self) -> (r: Struct)
        ensures
            same_struct(r, *self),
    {
        Struct {
            meta: metas_copy(&self.meta),
            export: self.export,
            id: self.id.clone(),
            fields: variables_copy(&self.fields),
        }
    }
}

impl Extern {
    /// A copy of the external function.
    pub fn duplicate(&self) -> (r: Extern)
        ensures
            same_extern(r, *self),
    {
        Extern {
            meta: metas_copy(&self.meta),
            item: self.item.duplicate(),
            location_module: self.location_module.clone(),
            location_function: self.location_function.clone(),
        }
    }
}

impl Import {
    /// A copy of the import.
    pub fn duplicate(&self) -> (r: Import)
        ensures
            same_import(r, *self),
    {
        Import {
            meta: metas_copy(&self.meta),
            names: names_copy(&self.names),
            module: self.module.clone(),
        }
    }
}

impl Module {
    /// A copy of the module.
    pub fn duplicate(&self) -> (r: Module)
        ensures
            same_module(r, *self),
    {
        let mut imports: Vec<Import> = Vec::new();
        let mut i: usize = 0;
        while i < self.imports.len()
            invariant
                i <= self.imports@.len(),
                imports@.len() == i,
                forall|k: int| 0 <= k < i ==> same_import(#[trigger] imports@[k], self.imports@[k]),
            decreases self.imports@.len() - i,
        {
            imports.push(self.imports[i].duplicate());
            i = i + 1;
        }
        let mut externs: Vec<Extern> = Vec::new();
        let mut i: usize = 0;
        while i < self.externs.len()
            invariant
                i <= self.externs@.len(),
                externs@.len() == i,
                forall|k: int| 0 <= k < i ==> same_extern(#[trigger] externs@[k], self.externs@[k]),
            decreases self.externs@.len() - i,
        {
            externs.push(self.externs[i].duplicate());
            i = i + 1;
        }
        let mut structs: Vec<Struct> = Vec::new();
        let mut i: usize = 0;
        while i < self.structs.len()
            invariant
                i <= self.structs@.len(),
                structs@.len() == i,
                forall|k: int| 0 <= k < i ==> same_struct(#[trigger] structs@[k], self.structs@[k]),
            decreases self.structs@.len() - i,
        {
            structs.push(self.structs[i].duplicate());
            i = i + 1;
        }
        let mut functions: Vec<Function> = Vec::new();
        let mut i: usize = 0;
        while i < self.functions.len()
            invariant
                i <= self.functions@.len(),
                functions@.len() == i,
                forall|k: int|
                    0 <= k < i ==> same_function(#[trigger] functions@[k], self.functions@[k]),
            decreases self.functions@.len() - i,
        {
            functions.push(self.functions[i].duplicate());
            i = i + 1;
        }
        Module {
            magic: self.magic,
            shebang: text_copy(&self.shebang),
            path: self.path.clone(),
            meta: metas_copy(&self.meta),
            imports,
            globals: variables_copy(&self.globals),
            externs,
            structs,
            functions,
        }
    }
}

} // verus!
