//! Constants without a type of their own get the type that the notes of
//! their module choose: `auto_integer_type`, `auto_float_type` and
//! `auto_string_type`.

use crate::error::{ErrorKind, SimpleError, SimpleResult};
use crate::names::same_text;
use crate::program::{
    type_tree, BlockOp, Function, Meta, MetaValue, Module, Number, Operation, Type, TypeTree,
    Value,
};
use vstd::prelude::*;

verus! {

/// The name `chosen` where `name` is the placeholder `token`, else
/// `name`.
pub open spec fn settled(name: Seq<char>, token: Seq<char>, chosen: Seq<char>) -> Seq<char> {
    if name == token {
        chosen
    } else {
        name
    }
}

/// The type that the notes choose under `key`: the text that is the
/// first argument of the first note of that name, else `default`.
pub open spec fn chosen_type(meta: Seq<Meta>, key: Seq<char>, default: Seq<char>) -> Seq<char>
    decreases meta.len(),
{
    if meta.len() == 0 {
        default
    } else if meta[0].id@ == key {
        if meta[0].args@.len() > 0 && meta[0].args@[0] is String {
            meta[0].args@[0]->String_0@
        } else {
            default
        }
    } else {
        chosen_type(meta.drop_first(), key, default)
    }
}

/// True when every constant in the value has a type that can be
/// settled: a name for a number, a pointer to a name for a text.
pub open spec fn settles(v: Value) -> bool
    decreases v,
{
    match v {
        Value::Ref(x, _) => settles(*x),
        Value::Deref(x, _) => settles(*x),
        Value::FunctionCall(_, xs, _) => forall|k: int|
            0 <= k < xs@.len() ==> settles(#[trigger] xs@[k]),
        Value::Tuple(xs, _) => forall|k: int| 0 <= k < xs@.len() ==> settles(#[trigger] xs@[k]),
        Value::String(_, t) => t matches Type::Pointer(p) && *p is Identifier,
        Value::Number(Number::Integer(_, t)) => t is Identifier,
        Value::Number(Number::Float(_, t)) => t is Identifier,
        Value::OperationInline(_, xs, _) => forall|k: int|
            0 <= k < xs@.len() ==> settles(#[trigger] xs@[k]),
        Value::Variable(_, _) => true,
    }
}

/// True when every constant in the values can be settled.
pub open spec fn all_settle(vs: Seq<Value>) -> bool {
    forall|k: int| 0 <= k < vs.len() ==> settles(#[trigger] vs[k])
}

/// The name of a type that is a name.
pub open spec fn name_of(t: Type) -> Seq<char> {
    match t {
        Type::Identifier(name) => name@,
        _ => Seq::empty(),
    }
}

/// The name that a pointer to a name points to.
pub open spec fn pointee_name(t: Type) -> Seq<char> {
    match t {
        Type::Pointer(p) => name_of(*p),
        _ => Seq::empty(),
    }
}

/// True when `out` is the value `v` with its placeholders settled:
/// `{integer}` by `i`, `{float}` by `f` and `{string}` by `s`.
pub open spec fn settled_value(out: Value, v: Value, i: Seq<char>, f: Seq<char>, s: Seq<char>) -> bool
    decreases v,
{
    match v {
        Value::Ref(x, a) => out matches Value::Ref(y, b) && settled_value(*y, *x, i, f, s) && b
            == a,
        Value::Deref(x, a) => out matches Value::Deref(y, b) && settled_value(*y, *x, i, f, s)
            && b == a,
        Value::FunctionCall(n, xs, a) => out matches Value::FunctionCall(m, ys, b) && m == n
            && ys@.len() == xs@.len() && (forall|k: int|
            0 <= k < xs@.len() ==> settled_value(#[trigger] ys@[k], xs@[k], i, f, s)) && b == a,
        Value::Tuple(xs, a) => out matches Value::Tuple(ys, b) && ys@.len() == xs@.len() && (
        forall|k: int|
            0 <= k < xs@.len() ==> settled_value(#[trigger] ys@[k], xs@[k], i, f, s)) && b == a,
        Value::String(text, t) => out matches Value::String(text2, t2) && text2 == text && t2@
            == TypeTree::Pointer(
            Box::new(TypeTree::Identifier(settled(pointee_name(t), "{string}"@, s))),
        ),
        Value::Number(Number::Integer(n, t)) => out matches Value::Number(Number::Integer(m, t2))
            && m == n && t2@ == TypeTree::Identifier(settled(name_of(t), "{integer}"@, i)),
        Value::Number(Number::Float(n, t)) => out matches Value::Number(Number::Float(m, t2)) && m
            == n && t2@ == TypeTree::Identifier(settled(name_of(t), "{float}"@, f)),
        Value::OperationInline(n, xs, a) => out matches Value::OperationInline(m, ys, b) && m == n
            && ys@.len() == xs@.len() && (forall|k: int|
            0 <= k < xs@.len() ==> settled_value(#[trigger] ys@[k], xs@[k], i, f, s)) && b == a,
        Value::Variable(n, a) => out matches Value::Variable(m, b) && m == n && b == a,
    }
}

/// True when the values `outs` are the values `vs` with their
/// placeholders settled, one for one.
pub open spec fn settled_values(
    outs: Seq<Value>,
    vs: Seq<Value>,
    i: Seq<char>,
    f: Seq<char>,
    s: Seq<char>,
) -> bool {
    outs.len() == vs.len() && forall|k: int|
        0 <= k < vs.len() ==> settled_value(#[trigger] outs[k], vs[k], i, f, s)
}

/// True when every constant in the step can be settled.
pub open spec fn step_settles(b: BlockOp) -> bool {
    match b {
        BlockOp::Label(_) => true,
        BlockOp::Operation(op) => all_settle(op.params@) && all_settle(op.targets@),
    }
}

/// True when `out` is the step `b` with its placeholders settled.
pub open spec fn settled_step(out: BlockOp, b: BlockOp, i: Seq<char>, f: Seq<char>, s: Seq<char>) -> bool {
    match b {
        BlockOp::Label(n) => out == b,
        BlockOp::Operation(op) => out matches BlockOp::Operation(op2) && op2.meta == op.meta
            && op2.id == op.id && settled_values(op2.params@, op.params@, i, f, s)
            && settled_values(op2.targets@, op.targets@, i, f, s),
    }
}

/// True when every constant in the body of the function can be settled.
pub open spec fn function_settles(function: Function) -> bool {
    forall|k: int| 0 <= k < function.body@.len() ==> step_settles(#[trigger] function.body@[k])
}

/// True when `out` is the function with the placeholders of its body
/// settled, and nothing else changed.
pub open spec fn settled_function(
    out: Function,
    function: Function,
    i: Seq<char>,
    f: Seq<char>,
    s: Seq<char>,
) -> bool {
    &&& out.meta == function.meta
    &&& out.export == function.export
    &&& out.header == function.header
    &&& out.locals == function.locals
    &&& out.body@.len() == function.body@.len()
    &&& forall|k: int|
        0 <= k < function.body@.len() ==> settled_step(
            #[trigger] out.body@[k],
            function.body@[k],
            i,
            f,
            s,
        )
}

/// True when every constant in the functions of the module can be
/// settled.
pub open spec fn module_settles(module: Module) -> bool {
    forall|k: int|
        0 <= k < module.functions@.len() ==> function_settles(#[trigger] module.functions@[k])
}

/// True when `out` is the module with the placeholders of its functions
/// settled by what its notes choose, and nothing else changed.
pub open spec fn settled_module(out: Module, module: Module) -> bool {
    &&& out.magic == module.magic
    &&& out.shebang == module.shebang
    &&& out.path == module.path
    &&& out.meta == module.meta
    &&& out.imports == module.imports
    &&& out.globals == module.globals
    &&& out.externs == module.externs
    &&& out.structs == module.structs
    &&& out.functions@.len() == module.functions@.len()
    &&& forall|k: int|
        0 <= k < module.functions@.len() ==> settled_function(
            #[trigger] out.functions@[k],
            module.functions@[k],
            chosen_type(module.meta@, "auto_integer_type"@, "i32"@),
            chosen_type(module.meta@, "auto_float_type"@, "f32"@),
            chosen_type(module.meta@, "auto_string_type"@, "u8"@),
        )
}

fn fail<T>(message: &str) -> (r: SimpleResult<T>)
    ensures
        r matches Err(e) && e.kind == ErrorKind::TypeError,
{
    Err(SimpleError::of(ErrorKind::TypeError, message))
}

/// The items of `v` from the last to the first.
fn reversed<T>(v: Vec<T>) -> (r: Vec<T>)
    ensures
        r@ == v@.reverse(),
{
    let ghost whole = v@;
    let mut rest = v;
    let mut out: Vec<T> = Vec::new();
    while rest.len() > 0
        invariant
            rest@.len() + out@.len() == whole.len(),
            rest@ == whole.take(rest@.len() as int),
            forall|k: int| 0 <= k < out@.len() ==> out@[k] == whole[whole.len() - 1 - k],
        decreases rest@.len(),
    {
        let x = rest.pop().unwrap();
        out.push(x);
    }
    assert(out@ =~= whole.reverse());
    out
}

fn chosen(meta: &Vec<Meta>, key: &str, default: &str) -> (r: String)
    ensures
        r@ == chosen_type(meta@, key@, default@),
{
    let mut k: usize = 0;
    assert(meta@.skip(0) =~= meta@);
    while k < meta.len()
        invariant
            k <= meta@.len(),
            chosen_type(meta@, key@, default@) == chosen_type(meta@.skip(k as int), key@, default@),
        decreases meta@.len() - k,
    {
        let ghost tail = meta@.skip(k as int);
        assert(tail[0] == meta@[k as int]);
        assert(tail.drop_first() =~= meta@.skip(k + 1));
        if same_text(meta[k].id.as_str(), key) {
            if meta[k].args.len() > 0 {
                match &meta[k].args[0] {
                    MetaValue::String(n) => {
                        return n.clone();
                    },
                    _ => {},
                }
            }
            return default.to_owned();
        }
        k = k + 1;
    }
    assert(meta@.skip(k as int).len() == 0);
    default.to_owned()
}

fn name_or(name: String, token: &str, chosen: &str) -> (r: String)
    ensures
        r@ == settled(name@, token@, chosen@),
{
    if same_text(name.as_str(), token) {
        chosen.to_owned()
    } else {
        name
    }
}

fn values_settled(values: Vec<Value>, integer_type: &str, float_type: &str, string_type: &str) -> (r:
    SimpleResult<Vec<Value>>)
    ensures
        if all_settle(values@) {
            r matches Ok(outs) && settled_values(
            outs@,
            values@,
            integer_type@,
            float_type@,
            string_type@,
        )
        } else {
            r matches Err(e) && e.kind == ErrorKind::TypeError
        },
    decreases values, 0nat,
{
    let ghost whole = values@;
    let mut rest = values;
    let mut back: Vec<Value> = Vec::new();
    while rest.len() > 0
        invariant
            whole == values@,
            rest@.len() + back@.len() == whole.len(),
            rest@ == whole.take(rest@.len() as int),
            forall|k: int| rest@.len() <= k < whole.len() ==> settles(#[trigger] whole[k]),
            forall|k: int|
                0 <= k < back@.len() ==> settled_value(
                    #[trigger] back@[k],
                    whole[whole.len() - 1 - k],
                    integer_type@,
                    float_type@,
                    string_type@,
                ),
        decreases rest@.len(),
    {
        let ghost at = rest@.len() - 1;
        let x = rest.pop().unwrap();
        proof {
            assert(x == whole[at]);
            assert(decreases_to!(values => values@[at]));
        }
        match transform_value_auto_types(x, integer_type, float_type, string_type) {
            Ok(y) => {
                back.push(y);
            },
            Err(e) => {
                return Err(e);
            },
        }
    }
    let outs = reversed(back);
    Ok(outs)
}

/// The value with its placeholders settled: `{integer}`, `{float}` and
/// `{string}` give way to the types named. A constant whose type is not
/// a name (for a text: a pointer to a name) is a `TypeError`.
pub fn transform_value_auto_types(
    value: Value,
    integer_type: &str,
    float_type: &str,
    string_type: &str,
) -> (r: SimpleResult<Value>)
    ensures
        if settles(value) {
            r matches Ok(out) && settled_value(
            out,
            value,
            integer_type@,
            float_type@,
            string_type@,
        )
        } else {
            r matches Err(e) && e.kind == ErrorKind::TypeError
        },
    decreases value, 1nat,
{
    match value {
        Value::Ref(v, a) => {
            match transform_value_auto_types(*v, integer_type, float_type, string_type) {
                Ok(x) => Ok(Value::Ref(Box::new(x), a)),
                Err(e) => Err(e),
            }
        },
        Value::Deref(v, a) => {
            match transform_value_auto_types(*v, integer_type, float_type, string_type) {
                Ok(x) => Ok(Value::Deref(Box::new(x), a)),
                Err(e) => Err(e),
            }
        },
        Value::FunctionCall(n, v, a) => {
            match values_settled(v, integer_type, float_type, string_type) {
                Ok(xs) => Ok(Value::FunctionCall(n, xs, a)),
                Err(e) => Err(e),
            }
        },
        Value::Tuple(v, a) => {
            match values_settled(v, integer_type, float_type, string_type) {
                Ok(xs) => Ok(Value::Tuple(xs, a)),
                Err(e) => Err(e),
            }
        },
        Value::String(v, t) => match t {
            Type::Pointer(p) => match *p {
                Type::Identifier(name) => {
                    let pointee = Type::Identifier(name_or(name, "{string}", string_type));
                    let typeid = Type::Pointer(Box::new(pointee));
                    assert(typeid@ == TypeTree::Pointer(Box::new(pointee@))) by {
                        reveal_with_fuel(type_tree, 2);
                    }
                    Ok(Value::String(v, typeid))
                },
                _ => fail("Type is not identifier"),
            },
            _ => fail("Type is not pointer"),
        },
        Value::Number(Number::Integer(v, t)) => match t {
            Type::Identifier(name) => Ok(
                Value::Number(
                    Number::Integer(v, Type::Identifier(name_or(name, "{integer}", integer_type))),
                ),
            ),
            _ => fail("Type is not identifier"),
        },
        Value::Number(Number::Float(v, t)) => match t {
            Type::Identifier(name) => Ok(
                Value::Number(
                    Number::Float(v, Type::Identifier(name_or(name, "{float}", float_type))),
                ),
            ),
            _ => fail("Type is not identifier"),
        },
        Value::OperationInline(n, v, a) => {
            match values_settled(v, integer_type, float_type, string_type) {
                Ok(xs) => Ok(Value::OperationInline(n, xs, a)),
                Err(e) => Err(e),
            }
        },
        Value::Variable(n, a) => Ok(Value::Variable(n, a)),
    }
}

fn step_settled(step: BlockOp, integer_type: &str, float_type: &str, string_type: &str) -> (r:
    SimpleResult<BlockOp>)
    ensures
        if step_settles(step) {
            r matches Ok(out) && settled_step(
            out,
            step,
            integer_type@,
            float_type@,
            string_type@,
        )
        } else {
            r matches Err(e) && e.kind == ErrorKind::TypeError
        },
{
    match step {
        BlockOp::Label(n) => Ok(BlockOp::Label(n)),
        BlockOp::Operation(op) => {
            let Operation { meta, id, params, targets } = op;
            let params = match values_settled(params, integer_type, float_type, string_type) {
                Ok(xs) => xs,
                Err(e) => {
                    return Err(e);
                },
            };
            let targets = match values_settled(targets, integer_type, float_type, string_type) {
                Ok(xs) => xs,
                Err(e) => {
                    return Err(e);
                },
            };
            Ok(BlockOp::Operation(Operation { meta, id, params, targets }))
        },
    }
}

/// The function with the placeholders of its body settled. A constant
/// whose type cannot be settled is a `TypeError`.
pub fn transform_function_auto_types(
    function: Function,
    integer_type: &str,
    float_type: &str,
    string_type: &str,
) -> (r: SimpleResult<Function>)
    ensures
        if function_settles(function) {
            r matches Ok(out) && settled_function(
            out,
            function,
            integer_type@,
            float_type@,
            string_type@,
        )
        } else {
            r matches Err(e) && e.kind == ErrorKind::TypeError
        },
{
    let Function { meta, export, header, locals, body } = function;
    let ghost whole = body@;
    let mut rest = body;
    let mut back: Vec<BlockOp> = Vec::new();
    while rest.len() > 0
        invariant
            whole == function.body@,
            rest@.len() + back@.len() == whole.len(),
            rest@ == whole.take(rest@.len() as int),
            forall|k: int| rest@.len() <= k < whole.len() ==> step_settles(#[trigger] whole[k]),
            forall|k: int|
                0 <= k < back@.len() ==> settled_step(
                    #[trigger] back@[k],
                    whole[whole.len() - 1 - k],
                    integer_type@,
                    float_type@,
                    string_type@,
                ),
        decreases rest@.len(),
    {
        let ghost at = rest@.len() - 1;
        let x = rest.pop().unwrap();
        assert(x == whole[at]);
        match step_settled(x, integer_type, float_type, string_type) {
            Ok(y) => {
                back.push(y);
            },
            Err(e) => {
                return Err(e);
            },
        }
    }
    let body = reversed(back);
    Ok(Function { meta, export, header, locals, body })
}

/// The module with the placeholders of its functions settled by what
/// its notes choose: `i32`, `f32` and `u8` where they choose nothing.
pub fn transform_module_auto_types(module: Module) -> (r: SimpleResult<Module>)
    ensures
        if module_settles(module) {
            r matches Ok(out) && settled_module(out, module)
        } else {
            r matches Err(e) && e.kind == ErrorKind::TypeError
        },
{
    let integer_type = chosen(&module.meta, "auto_integer_type", "i32");
    let float_type = chosen(&module.meta, "auto_float_type", "f32");
    let string_type = chosen(&module.meta, "auto_string_type", "u8");
    let Module { magic, shebang, path, meta, imports, globals, externs, structs, functions } =
        module;
    let ghost whole = functions@;
    let mut rest = functions;
    let mut back: Vec<Function> = Vec::new();
    while rest.len() > 0
        invariant
            whole == module.functions@,
            rest@.len() + back@.len() == whole.len(),
            rest@ == whole.take(rest@.len() as int),
            forall|k: int| rest@.len() <= k < whole.len() ==> function_settles(#[trigger] whole[k]),
            forall|k: int|
                0 <= k < back@.len() ==> settled_function(
                    #[trigger] back@[k],
                    whole[whole.len() - 1 - k],
                    integer_type@,
                    float_type@,
                    string_type@,
                ),
        decreases rest@.len(),
    {
        let ghost at = rest@.len() - 1;
        let x = rest.pop().unwrap();
        assert(x == whole[at]);
        match transform_function_auto_types(
            x,
            integer_type.as_str(),
            float_type.as_str(),
            string_type.as_str(),
        ) {
            Ok(y) => {
                back.push(y);
            },
            Err(e) => {
                return Err(e);
            },
        }
    }
    let functions = reversed(back);
    Ok(Module { magic, shebang, path, meta, imports, globals, externs, structs, functions })
}

} // verus!
