//! What the encoder writes, the decoder reads: the constants and the
//! operation names.

use crate::assembly::FunctionSpec;
use crate::atom::Atom;
use crate::consts::{
    body_data, float_added, functions_data, integer_added, integer_kind, integer_payload, no_data,
    string_added, value_data, values_data, DataState,
};
use crate::emit::{text_code, word};
use crate::image::{
    data_parser, parse_data, parse_seq, parse_size, parse_string, parse_u16, parse_u32, parse_u64,
    parse_u8, parse_word, string_parser, word_size, DataModel,
};
use crate::opnames::{body_ops, functions_ops, no_ops, op_added, value_ops, values_ops, OpsState};
use crate::program::{BlockOp, FloatConstant, Number, OpRule, TypeTree, Value};
use crate::roundtrip::{lemma_byte_read, lemma_stands_split, lemma_text_read, stands_at};
use crate::wire::{be_bytes, lemma_be_bytes_len, lemma_be_value_of_bytes, lemma_span_values, span};
use vstd::prelude::*;
use vstd::utf8::encode_utf8;

verus! {

/// Bytes that stand inside a piece stand at the same place in what
/// holds the piece.
pub proof fn lemma_shift(c: Seq<u8>, at: int, n: int, b: Seq<u8>, pos: int)
    requires
        stands_at(b, pos, c),
        0 <= at,
        0 <= n,
        at + n <= c.len(),
    ensures
        b.subrange(pos + at, pos + at + n) == c.subrange(at, at + n),
{
    assert(b.subrange(pos + at, pos + at + n) =~= b.subrange(pos, pos + c.len()).subrange(
        at,
        at + n,
    ));
}

/// A constant that is read inside a piece is read at the same place in
/// what holds the piece, and it ends inside the piece.
pub proof fn lemma_data_shift(c: Seq<u8>, at: int, b: Seq<u8>, pos: int)
    requires
        stands_at(b, pos, c),
        parse_data(c, at) is Some,
    ensures
        parse_data(b, pos + at) == Some((parse_data(c, at).unwrap().0, pos + parse_data(c, at).unwrap().1)),
        at < parse_data(c, at).unwrap().1 <= c.len(),
{
    let tag = c[at];
    lemma_shift(c, at, 1, b, pos);
    assert(b.subrange(pos + at, pos + at + 1)[0] == b[pos + at]);
    assert(c.subrange(at, at + 1)[0] == c[at]);
    let p = at + 1;
    if tag == 1 || tag == 2 {
        lemma_shift(c, p, 1, b, pos);
        assert(b.subrange(pos + p, pos + p + 1)[0] == b[pos + p]);
        assert(c.subrange(p, p + 1)[0] == c[p]);
    } else if tag == 3 || tag == 4 {
        lemma_shift(c, p, 2, b, pos);
    } else if tag == 5 || tag == 6 || tag == 9 {
        lemma_shift(c, p, 4, b, pos);
    } else if tag == 7 || tag == 8 || tag == 10 {
        lemma_shift(c, p, 8, b, pos);
    } else if tag == 11 || tag == 12 {
        if word_size() == 8 {
            lemma_shift(c, p, 8, b, pos);
        } else {
            lemma_shift(c, p, 4, b, pos);
        }
    } else {
        lemma_shift(c, p, 8, b, pos);
        let n = parse_size(c, p).unwrap().0;
        lemma_shift(c, p + 8, n as int, b, pos);
    }
}

/// Constants that are read inside a piece are read at the same place in
/// what holds the piece, and they end inside the piece.
pub proof fn lemma_pool_shift(c: Seq<u8>, count: nat, b: Seq<u8>, pos: int)
    requires
        stands_at(b, pos, c),
        parse_seq(data_parser(), c, 0, count) is Some,
    ensures
        parse_seq(data_parser(), b, pos, count) == Some(
            (
                parse_seq(data_parser(), c, 0, count).unwrap().0,
                pos + parse_seq(data_parser(), c, 0, count).unwrap().1,
            ),
        ),
        0 <= parse_seq(data_parser(), c, 0, count).unwrap().1 <= c.len(),
    decreases count,
{
    if count > 0 {
        lemma_pool_shift(c, (count - 1) as nat, b, pos);
        let at = parse_seq(data_parser(), c, 0, (count - 1) as nat).unwrap().1;
        lemma_data_shift(c, at, b, pos);
    }
}

/// True when the bytes of the constants decode to as many constants as
/// the tables count, and no byte is left over.
pub open spec fn data_decodes(st: DataState) -> bool {
    parse_seq(data_parser(), st.bytes, 0, st.table.count()) matches Some(x) && x.1
        == st.bytes.len()
}

/// Constants that decode still decode when one more constant stands
/// behind them.
pub proof fn lemma_pool_extends(st: DataState, code: Seq<u8>)
    requires
        data_decodes(st),
        parse_data(st.bytes + code, st.bytes.len() as int) matches Some(x) && x.1 == st.bytes.len()
            + code.len(),
    ensures
        parse_seq(data_parser(), st.bytes + code, 0, st.table.count() + 1) matches Some(x) && x.1
            == st.bytes.len() + code.len(),
{
    let b = st.bytes + code;
    assert(b.subrange(0, st.bytes.len() as int) =~= st.bytes);
    lemma_pool_shift(st.bytes, st.table.count(), b, 0);
}

pub proof fn lemma_string_added_decodes(st: DataState, s: Seq<char>, t: TypeTree)
    requires
        data_decodes(st),
        string_added(st, s, t) is Ok,
    ensures
        data_decodes(string_added(st, s, t)->Ok_0),
{
    let after = string_added(st, s, t)->Ok_0;
    if after != st {
        let code = seq![13u8] + text_code(s);
        let b = st.bytes + code;
        let at = st.bytes.len() as int;
        assert(after.bytes =~= b);
        assert(b.subrange(at, at + code.len()) =~= code);
        lemma_stands_split(b, at, seq![13u8], text_code(s));
        lemma_byte_read(b, at, 13u8);
        lemma_text_read(b, at + 1, s);
        lemma_pool_extends(st, code);
    }
}

pub proof fn lemma_integer_added_decodes(st: DataState, i: i64, t: TypeTree)
    requires
        data_decodes(st),
        integer_added(st, i, t) is Ok,
    ensures
        data_decodes(integer_added(st, i, t)->Ok_0),
{
    let after = integer_added(st, i, t)->Ok_0;
    if after != st {
        let (tag, width) = integer_kind(crate::program::type_text(t))->0;
        let payload = integer_payload(i, width);
        let code = seq![tag] + payload;
        let b = st.bytes + code;
        let at = st.bytes.len() as int;
        lemma_be_bytes_len(i.raw() % span(width), width);
        assert(after.bytes =~= b);
        assert(b.subrange(at, at + code.len()) =~= code);
        lemma_stands_split(b, at, seq![tag], payload);
        lemma_byte_read(b, at, tag);
        assert(parse_data(b, at) is Some);
        lemma_pool_extends(st, code);
    }
}

pub proof fn lemma_float_added_decodes(st: DataState, f: FloatConstant, t: TypeTree)
    requires
        data_decodes(st),
        float_added(st, f, t) is Ok,
    ensures
        data_decodes(float_added(st, f, t)->Ok_0),
{
    let after = float_added(st, f, t)->Ok_0;
    if after != st {
        let single = crate::program::type_text(t) == "f32"@;
        let tag = if single { 9u8 } else { 10u8 };
        let payload = if single { be_bytes(f.single as nat, 4) } else { be_bytes(f.double as nat, 8) };
        let code = seq![tag] + payload;
        let b = st.bytes + code;
        let at = st.bytes.len() as int;
        lemma_be_bytes_len(f.single as nat, 4);
        lemma_be_bytes_len(f.double as nat, 8);
        assert(after.bytes =~= b);
        assert(b.subrange(at, at + code.len()) =~= code);
        lemma_stands_split(b, at, seq![tag], payload);
        lemma_byte_read(b, at, tag);
        assert(parse_data(b, at) is Some);
        lemma_pool_extends(st, code);
    }
}

/// The constants of a value leave the bytes of the constants decodable.
pub proof fn lemma_value_data_decodes(st: DataState, v: Value)
    requires
        data_decodes(st),
        value_data(st, v) is Ok,
    ensures
        data_decodes(value_data(st, v)->Ok_0),
    decreases v,
{
    match v {
        Value::Ref(inner, _) => lemma_value_data_decodes(st, *inner),
        Value::Deref(inner, _) => lemma_value_data_decodes(st, *inner),
        Value::FunctionCall(_, args, _) => lemma_values_data_decodes(st, args@),
        Value::Tuple(parts, _) => lemma_values_data_decodes(st, parts@),
        Value::String(s, t) => lemma_string_added_decodes(st, s@, t@),
        Value::Number(Number::Integer(i, t)) => lemma_integer_added_decodes(st, i, t@),
        Value::Number(Number::Float(f, t)) => lemma_float_added_decodes(st, f, t@),
        Value::OperationInline(_, args, _) => lemma_values_data_decodes(st, args@),
        Value::Variable(_, _) => {},
    }
}

pub proof fn lemma_values_data_decodes(st: DataState, vs: Seq<Value>)
    requires
        data_decodes(st),
        values_data(st, vs) is Ok,
    ensures
        data_decodes(values_data(st, vs)->Ok_0),
    decreases vs,
{
    if vs.len() > 0 {
        lemma_values_data_decodes(st, vs.drop_last());
        lemma_value_data_decodes(values_data(st, vs.drop_last())->Ok_0, vs.last());
    }
}

pub proof fn lemma_body_data_decodes(st: DataState, body: Seq<BlockOp>)
    requires
        data_decodes(st),
        body_data(st, body) is Ok,
    ensures
        data_decodes(body_data(st, body)->Ok_0),
    decreases body.len(),
{
    if body.len() > 0 {
        lemma_body_data_decodes(st, body.drop_last());
        let t = body_data(st, body.drop_last())->Ok_0;
        match body.last() {
            BlockOp::Operation(o) => {
                lemma_values_data_decodes(t, o.params@);
                lemma_values_data_decodes(values_data(t, o.params@)->Ok_0, o.targets@);
            },
            BlockOp::Label(_) => {},
        }
    }
}

/// The bytes of the constants that the encoder gathers decode to as many
/// constants as it counts.
pub proof fn lemma_functions_data_decodes(st: DataState, functions: Seq<FunctionSpec>)
    requires
        data_decodes(st),
        functions_data(st, functions) is Ok,
    ensures
        data_decodes(functions_data(st, functions)->Ok_0),
    decreases functions.len(),
{
    if functions.len() > 0 {
        lemma_functions_data_decodes(st, functions.drop_last());
        lemma_body_data_decodes(
            functions_data(st, functions.drop_last())->Ok_0,
            functions.last().body,
        );
    }
}

// ---------------------------------------------------------------------------
// Operation names
// ---------------------------------------------------------------------------

/// The names of a table of operations, in their order.
pub open spec fn op_names(table: Seq<(Seq<char>, (u64, Option<TypeTree>))>) -> Seq<Seq<char>> {
    Seq::new(table.len(), |i: int| table[i].0)
}

/// The bytes of the texts `names`, one after the other.
pub open spec fn texts_code(names: Seq<Seq<char>>) -> Seq<u8>
    decreases names.len(),
{
    if names.len() == 0 {
        Seq::empty()
    } else {
        texts_code(names.drop_last()) + text_code(names.last())
    }
}

/// True when the bytes of the names are those of the names of the table.
pub open spec fn ops_in_step(st: OpsState) -> bool {
    st.bytes == texts_code(op_names(st.table))
}

pub proof fn lemma_op_added_in_step(st: OpsState, rules: Seq<OpRule>, id: Seq<char>)
    requires
        ops_in_step(st),
        op_added(st, rules, id) is Ok,
    ensures
        ops_in_step(op_added(st, rules, id)->Ok_0),
{
    let after = op_added(st, rules, id)->Ok_0;
    if after != st {
        assert(op_names(after.table).drop_last() =~= op_names(st.table));
        assert(op_names(after.table).last() == id);
    }
}

pub proof fn lemma_value_ops_in_step(st: OpsState, rules: Seq<OpRule>, v: Value)
    requires
        ops_in_step(st),
        value_ops(st, rules, v) is Ok,
    ensures
        ops_in_step(value_ops(st, rules, v)->Ok_0),
    decreases v,
{
    match v {
        Value::Ref(inner, _) => lemma_value_ops_in_step(st, rules, *inner),
        Value::Deref(inner, _) => lemma_value_ops_in_step(st, rules, *inner),
        Value::FunctionCall(_, args, _) => lemma_values_ops_in_step(st, rules, args@),
        Value::Tuple(parts, _) => lemma_values_ops_in_step(st, rules, parts@),
        Value::OperationInline(id, args, _) => {
            lemma_op_added_in_step(st, rules, id@);
            lemma_values_ops_in_step(op_added(st, rules, id@)->Ok_0, rules, args@);
        },
        _ => {},
    }
}

pub proof fn lemma_values_ops_in_step(st: OpsState, rules: Seq<OpRule>, vs: Seq<Value>)
    requires
        ops_in_step(st),
        values_ops(st, rules, vs) is Ok,
    ensures
        ops_in_step(values_ops(st, rules, vs)->Ok_0),
    decreases vs,
{
    if vs.len() > 0 {
        lemma_values_ops_in_step(st, rules, vs.drop_last());
        lemma_value_ops_in_step(values_ops(st, rules, vs.drop_last())->Ok_0, rules, vs.last());
    }
}

pub proof fn lemma_body_ops_in_step(st: OpsState, rules: Seq<OpRule>, body: Seq<BlockOp>)
    requires
        ops_in_step(st),
        body_ops(st, rules, body) is Ok,
    ensures
        ops_in_step(body_ops(st, rules, body)->Ok_0),
    decreases body.len(),
{
    if body.len() > 0 {
        lemma_body_ops_in_step(st, rules, body.drop_last());
        let t = body_ops(st, rules, body.drop_last())->Ok_0;
        match body.last() {
            BlockOp::Operation(o) => {
                lemma_op_added_in_step(t, rules, o.id@);
                let u = op_added(t, rules, o.id@)->Ok_0;
                lemma_values_ops_in_step(u, rules, o.params@);
                lemma_values_ops_in_step(values_ops(u, rules, o.params@)->Ok_0, rules, o.targets@);
            },
            BlockOp::Label(_) => {},
        }
    }
}

/// The bytes of the operation names that the encoder gathers are those
/// of the names of its table.
pub proof fn lemma_functions_ops_in_step(
    st: OpsState,
    rules: Seq<OpRule>,
    functions: Seq<FunctionSpec>,
)
    requires
        ops_in_step(st),
        functions_ops(st, rules, functions) is Ok,
    ensures
        ops_in_step(functions_ops(st, rules, functions)->Ok_0),
    decreases functions.len(),
{
    if functions.len() > 0 {
        lemma_functions_ops_in_step(st, rules, functions.drop_last());
        lemma_body_ops_in_step(
            functions_ops(st, rules, functions.drop_last())->Ok_0,
            rules,
            functions.last().body,
        );
    }
}

/// Texts that were written one after the other are read again.
pub proof fn lemma_texts_read(names: Seq<Seq<char>>, b: Seq<u8>, pos: int)
    requires
        forall|i: int| 0 <= i < names.len() ==> encode_utf8(#[trigger] names[i]).len() <= usize::MAX,
        stands_at(b, pos, texts_code(names)),
    ensures
        parse_seq(string_parser(), b, pos, names.len()) == Some(
            (names, pos + texts_code(names).len()),
        ),
    decreases names.len(),
{
    if names.len() == 0 {
        assert(names =~= Seq::<Seq<char>>::empty());
    } else {
        let front = names.drop_last();
        lemma_stands_split(b, pos, texts_code(front), text_code(names.last()));
        assert forall|i: int| 0 <= i < front.len() implies encode_utf8(#[trigger] front[i]).len()
            <= usize::MAX by {
            assert(front[i] == names[i]);
        }
        lemma_texts_read(front, b, pos);
        lemma_text_read(b, pos + texts_code(front).len(), names.last());
        assert(front.push(names.last()) =~= names);
    }
}

} // verus!
