//! A text with a zero byte cannot be a constant of an image: a program
//! with such a text in an operation of a function is not encoded.

use crate::assembly::{function_built, FunctionSpec};
use crate::consts::{
    body_data, float_added, functions_data, integer_added, no_data, string_added, value_data,
    values_data, DataState,
};
use crate::encode::{encoded, image_of, image_tail};
use crate::link::{assembled, functions_added, gathered};
use crate::names::lookup;
use crate::program::{BlockOp, Function, Module, Number, OpRule, Program, Value};
use vstd::prelude::*;
use vstd::utf8::encode_utf8;

verus! {

/// True when the value holds a text with a zero byte, itself or in a
/// value inside of it.
pub open spec fn has_zero_text(v: Value) -> bool
    decreases v,
{
    match v {
        Value::Ref(inner, _) => has_zero_text(*inner),
        Value::Deref(inner, _) => has_zero_text(*inner),
        Value::FunctionCall(_, args, _) => exists|k: int|
            0 <= k < args@.len() && has_zero_text(#[trigger] args@[k]),
        Value::Tuple(parts, _) => exists|k: int|
            0 <= k < parts@.len() && has_zero_text(#[trigger] parts@[k]),
        Value::String(s, _) => encode_utf8(s@).contains(0u8),
        Value::Number(_) => false,
        Value::OperationInline(_, args, _) => exists|k: int|
            0 <= k < args@.len() && has_zero_text(#[trigger] args@[k]),
        Value::Variable(_, _) => false,
    }
}

/// True when one of the values holds a text with a zero byte.
pub open spec fn any_zero_text(vs: Seq<Value>) -> bool {
    exists|k: int| 0 <= k < vs.len() && has_zero_text(#[trigger] vs[k])
}

/// True when the step is an operation that takes or gives a value with
/// a text with a zero byte.
pub open spec fn step_has_zero_text(b: BlockOp) -> bool {
    match b {
        BlockOp::Operation(o) => any_zero_text(o.params@) || any_zero_text(o.targets@),
        BlockOp::Label(_) => false,
    }
}

/// True when a step of the body has a text with a zero byte.
pub open spec fn body_has_zero_text(body: Seq<BlockOp>) -> bool {
    exists|k: int| 0 <= k < body.len() && step_has_zero_text(#[trigger] body[k])
}

/// True when no text among the constants holds a zero byte.
pub open spec fn clean(st: DataState) -> bool {
    forall|i: int|
        0 <= i < st.table.strings.len() ==> !encode_utf8((#[trigger] st.table.strings[i]).0).contains(
            0u8,
        )
}

/// What a table holds under a name is one of its entries.
proof fn lemma_lookup_entry<V>(table: Seq<(Seq<char>, V)>, name: Seq<char>)
    requires
        lookup(table, name) is Some,
    ensures
        exists|i: int| 0 <= i < table.len() && (#[trigger] table[i]).0 == name,
    decreases table.len(),
{
    if table.last().0 == name {
        assert(table[table.len() - 1].0 == name);
    } else {
        lemma_lookup_entry(table.drop_last(), name);
        let i = choose|i: int| 0 <= i < table.drop_last().len() && (#[trigger] table.drop_last()[i]).0 == name;
        assert(table[i].0 == name);
    }
}

/// A text that joins clean constants has no zero byte, and leaves them
/// clean.
proof fn lemma_string_added_clean(st: DataState, s: Seq<char>, t: crate::program::TypeTree)
    requires
        clean(st),
        string_added(st, s, t) is Ok,
    ensures
        clean(string_added(st, s, t)->Ok_0),
        !encode_utf8(s).contains(0u8),
{
    if lookup(st.table.strings, s) is Some {
        lemma_lookup_entry(st.table.strings, s);
    } else {
        let after = string_added(st, s, t)->Ok_0;
        assert forall|i: int| 0 <= i < after.table.strings.len() implies !encode_utf8(
            (#[trigger] after.table.strings[i]).0,
        ).contains(0u8) by {
            if i < st.table.strings.len() {
                assert(after.table.strings[i] == st.table.strings[i]);
            }
        }
    }
}

/// The constants of a value that join clean constants leave them clean,
/// and the value holds no text with a zero byte.
pub proof fn lemma_value_data_clean(st: DataState, v: Value)
    requires
        clean(st),
        value_data(st, v) is Ok,
    ensures
        clean(value_data(st, v)->Ok_0),
        !has_zero_text(v),
    decreases v,
{
    match v {
        Value::Ref(inner, _) => lemma_value_data_clean(st, *inner),
        Value::Deref(inner, _) => lemma_value_data_clean(st, *inner),
        Value::FunctionCall(_, args, _) => lemma_values_data_clean(st, args@),
        Value::Tuple(parts, _) => lemma_values_data_clean(st, parts@),
        Value::String(s, t) => lemma_string_added_clean(st, s@, t@),
        Value::Number(Number::Integer(i, t)) => {
            assert(integer_added(st, i, t@)->Ok_0.table.strings == st.table.strings);
        },
        Value::Number(Number::Float(f, t)) => {
            assert(float_added(st, f, t@)->Ok_0.table.strings == st.table.strings);
        },
        Value::OperationInline(_, args, _) => lemma_values_data_clean(st, args@),
        Value::Variable(_, _) => {},
    }
}

/// The constants of values that join clean constants leave them clean,
/// and no value holds a text with a zero byte.
pub proof fn lemma_values_data_clean(st: DataState, vs: Seq<Value>)
    requires
        clean(st),
        values_data(st, vs) is Ok,
    ensures
        clean(values_data(st, vs)->Ok_0),
        !any_zero_text(vs),
    decreases vs,
{
    if vs.len() > 0 {
        let front = vs.drop_last();
        lemma_values_data_clean(st, front);
        let t = values_data(st, front)->Ok_0;
        lemma_value_data_clean(t, vs.last());
        assert forall|k: int| 0 <= k < vs.len() implies !has_zero_text(#[trigger] vs[k]) by {
            if k < front.len() {
                assert(front[k] == vs[k]);
            }
        }
    }
}

/// The constants of a body that join clean constants leave them clean,
/// and no step of the body has a text with a zero byte.
pub proof fn lemma_body_data_clean(st: DataState, body: Seq<BlockOp>)
    requires
        clean(st),
        body_data(st, body) is Ok,
    ensures
        clean(body_data(st, body)->Ok_0),
        !body_has_zero_text(body),
    decreases body.len(),
{
    if body.len() > 0 {
        let front = body.drop_last();
        lemma_body_data_clean(st, front);
        let t = body_data(st, front)->Ok_0;
        match body.last() {
            BlockOp::Operation(o) => {
                lemma_values_data_clean(t, o.params@);
                lemma_values_data_clean(values_data(t, o.params@)->Ok_0, o.targets@);
            },
            BlockOp::Label(_) => {},
        }
        assert forall|k: int| 0 <= k < body.len() implies !step_has_zero_text(#[trigger] body[k]) by {
            if k < front.len() {
                assert(front[k] == body[k]);
            }
        }
    }
}

/// The constants of functions that join clean constants leave them
/// clean, and no body has a text with a zero byte.
pub proof fn lemma_functions_data_clean(st: DataState, functions: Seq<FunctionSpec>)
    requires
        clean(st),
        functions_data(st, functions) is Ok,
    ensures
        clean(functions_data(st, functions)->Ok_0),
        forall|i: int| 0 <= i < functions.len() ==> !body_has_zero_text((#[trigger] functions[i]).body),
    decreases functions.len(),
{
    if functions.len() > 0 {
        let front = functions.drop_last();
        lemma_functions_data_clean(st, front);
        lemma_body_data_clean(functions_data(st, front)->Ok_0, functions.last().body);
        assert forall|i: int| 0 <= i < functions.len() implies !body_has_zero_text(
            (#[trigger] functions[i]).body,
        ) by {
            if i < front.len() {
                assert(front[i] == functions[i]);
            }
        }
    }
}

/// True when one of the functions has the body `body`.
pub open spec fn holds_body(functions: Seq<FunctionSpec>, body: Seq<BlockOp>) -> bool {
    exists|i: int| 0 <= i < functions.len() && (#[trigger] functions[i]).body == body
}

/// The functions that were added to a list stand in it with their
/// bodies, behind those that were there.
proof fn lemma_functions_added_hold(
    all: Seq<Module>,
    list: Seq<FunctionSpec>,
    functions: Seq<Function>,
)
    requires
        functions_added(all, list, functions) is Ok,
    ensures
        functions_added(all, list, functions)->Ok_0.len() >= list.len(),
        functions_added(all, list, functions)->Ok_0.take(list.len() as int) == list,
        forall|j: int|
            0 <= j < functions.len() ==> holds_body(
                functions_added(all, list, functions)->Ok_0,
                (#[trigger] functions[j]).body@,
            ),
    decreases functions.len(),
{
    let after = functions_added(all, list, functions)->Ok_0;
    if functions.len() == 0 {
        assert(after.take(list.len() as int) =~= list);
    } else {
        let front = functions.drop_last();
        lemma_functions_added_hold(all, list, front);
        let done = functions_added(all, list, front)->Ok_0;
        let f = function_built(all, done.len() as usize, functions.last())->Ok_0;
        assert(after == done.push(f));
        assert(after.take(list.len() as int) =~= done.take(list.len() as int));
        assert forall|j: int| 0 <= j < functions.len() implies holds_body(
            after,
            (#[trigger] functions[j]).body@,
        ) by {
            if j < front.len() {
                assert(front[j] == functions[j]);
                let i = choose|i: int| 0 <= i < done.len() && (#[trigger] done[i]).body == front[j].body@;
                assert(after[i].body == functions[j].body@);
            } else {
                assert(after[done.len() as int].body == functions[j].body@);
            }
        }
    }
}

/// The functions of the modules that were gathered stand among the
/// functions with their bodies.
proof fn lemma_gathered_holds(all: Seq<Module>, modules: Seq<Module>, m: int, j: int)
    requires
        gathered(all, modules) is Ok,
        0 <= m < modules.len(),
        0 <= j < modules[m].functions@.len(),
    ensures
        holds_body(gathered(all, modules)->Ok_0.functions, modules[m].functions@[j].body@),
    decreases modules.len(),
{
    let front = modules.drop_last();
    let g = gathered(all, front)->Ok_0;
    let after = gathered(all, modules)->Ok_0.functions;
    lemma_functions_added_hold(all, g.functions, modules.last().functions@);
    if m < front.len() {
        assert(front[m] == modules[m]);
        lemma_gathered_holds(all, front, m, j);
        let body = modules[m].functions@[j].body@;
        let i = choose|i: int| 0 <= i < g.functions.len() && (#[trigger] g.functions[i]).body == body;
        assert(after.take(g.functions.len() as int)[i] == after[i]);
        assert(after[i].body == body);
    }
}

/// A program with a text with a zero byte in an operation of one of its
/// functions is not encoded, whatever the rules.
pub proof fn lemma_zero_text_is_refused(program: Program, rules: Seq<OpRule>, m: int, j: int)
    requires
        0 <= m < program.modules@.len(),
        0 <= j < program.modules@[m].functions@.len(),
        body_has_zero_text(program.modules@[m].functions@[j].body@),
    ensures
        encoded(program, rules) is Err,
{
    if encoded(program, rules) is Ok {
        let all = program.modules@;
        let a = assembled(program)->Ok_0;
        let g = gathered(all, all)->Ok_0;
        let body = all[m].functions@[j].body@;
        lemma_gathered_holds(all, all, m, j);
        let i = choose|i: int| 0 <= i < g.functions.len() && (#[trigger] g.functions[i]).body == body;
        assert(a.functions[i] == g.functions[i]);
        assert(image_of(a, rules) is Ok);
        assert(image_tail(a, rules) is Ok);
        assert(functions_data(no_data(), a.functions) is Ok);
        lemma_functions_data_clean(no_data(), a.functions);
        assert(!body_has_zero_text(a.functions[i].body));
    }
}

} // verus!
