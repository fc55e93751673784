//! What the encoder writes, the decoder reads: for the records of an
//! image, the bytes that the encoder gives for a record decode to that
//! record, wherever they stand.

use crate::assembly::{FieldSpec, FunctionSpec, StructSpec, VariableSpec};
use crate::emit::{
    field_code, fields_code, flag, header_code, struct_code, struct_ids, text_code, type_code,
    types_code, variable_code, variables_code, word,
};
use crate::image::{
    field_parser, parse_external, parse_field, parse_flag, parse_function, parse_return_type,
    parse_seq, parse_size, parse_string, parse_struct, parse_type, parse_types, parse_u64,
    parse_u8, parse_variable, variable_parser, FieldModel, FunctionModel, StructModel,
    TypeModel, VariableModel,
};
use crate::link::{lemma_name_position_in_range, name_position};
use crate::program::TypeTree;
use crate::wire::{
    be_bytes, be_value, lemma_be_bytes_len, lemma_be_value_of_bytes, lemma_span_values, span,
};
use vstd::prelude::*;
use vstd::utf8::{decode_utf8, encode_utf8, valid_utf8};

verus! {

/// True when the bytes `code` stand at `pos` in `b`.
pub open spec fn stands_at(b: Seq<u8>, pos: int, code: Seq<u8>) -> bool {
    0 <= pos && pos + code.len() <= b.len() && b.subrange(pos, pos + code.len()) == code
}

/// Where two pieces stand one behind the other, each of them stands at
/// its place.
pub proof fn lemma_stands_split(b: Seq<u8>, pos: int, first: Seq<u8>, second: Seq<u8>)
    requires
        stands_at(b, pos, first + second),
    ensures
        stands_at(b, pos, first),
        stands_at(b, pos + first.len(), second),
{
    let whole = first + second;
    assert(b.subrange(pos, pos + first.len()) =~= whole.subrange(0, first.len() as int));
    assert(whole.subrange(0, first.len() as int) =~= first);
    assert(b.subrange(pos + first.len(), pos + first.len() + second.len()) =~= whole.subrange(
        first.len() as int,
        whole.len() as int,
    ));
    assert(whole.subrange(first.len() as int, whole.len() as int) =~= second);
}

/// A number of 64 bits that was written is read again.
pub proof fn lemma_word_read(b: Seq<u8>, pos: int, n: nat)
    requires
        n <= u64::MAX,
        stands_at(b, pos, word(n)),
    ensures
        word(n).len() == 8,
        parse_u64(b, pos) == Some((n as u64, pos + 8)),
        n <= usize::MAX ==> parse_size(b, pos) == Some((n as usize, pos + 8)),
{
    lemma_be_bytes_len(n, 8);
    lemma_span_values();
    lemma_be_value_of_bytes(n, 8);
}

/// A flag that was written is read again.
pub proof fn lemma_flag_read(b: Seq<u8>, pos: int, v: bool)
    requires
        stands_at(b, pos, flag(v)),
    ensures
        flag(v).len() == 1,
        parse_flag(b, pos) == Some((v, pos + 1)),
{
    assert(b.subrange(pos, pos + 1)[0] == b[pos]);
}

/// A byte that was written is read again.
pub proof fn lemma_byte_read(b: Seq<u8>, pos: int, v: u8)
    requires
        stands_at(b, pos, seq![v]),
    ensures
        parse_u8(b, pos) == Some((v, pos + 1)),
{
    assert(b.subrange(pos, pos + 1)[0] == b[pos]);
}

/// A text that was written is read again.
pub proof fn lemma_text_read(b: Seq<u8>, pos: int, s: Seq<char>)
    requires
        encode_utf8(s).len() <= usize::MAX,
        stands_at(b, pos, text_code(s)),
    ensures
        text_code(s).len() == 8 + encode_utf8(s).len(),
        parse_string(b, pos) == Some((s, pos + 8 + encode_utf8(s).len())),
{
    let raw = encode_utf8(s);
    lemma_be_bytes_len(raw.len(), 8);
    lemma_stands_split(b, pos, word(raw.len()), raw);
    lemma_word_read(b, pos, raw.len());
    vstd::utf8::encode_utf8_valid_utf8(s);
    vstd::utf8::encode_utf8_decode_utf8(s);
}

/// True when the tuples of a type have no more parts than the image can
/// count.
pub open spec fn type_fits(t: TypeTree) -> bool
    decreases t,
{
    match t {
        TypeTree::Identifier(_) => true,
        TypeTree::Pointer(inner) => type_fits(*inner),
        TypeTree::Tuple(parts) => parts.len() <= u64::MAX && forall|i: int|
            0 <= i < parts.len() ==> type_fits(#[trigger] parts[i]),
    }
}

/// The type of the image for a type of the program: a struct is named
/// by its place among the structs.
pub open spec fn image_type(structs: Seq<StructSpec>, t: TypeTree) -> TypeModel
    decreases t,
{
    match t {
        TypeTree::Identifier(id) => match name_position(struct_ids(structs), id) {
            Some(k) => TypeModel::Identifier(k as usize),
            None => TypeModel::Identifier(0),
        },
        TypeTree::Pointer(inner) => TypeModel::Pointer(Box::new(image_type(structs, *inner))),
        TypeTree::Tuple(parts) => TypeModel::Tuple(
            Seq::new(
                parts.len(),
                |i: int|
                    if 0 <= i < parts.len() {
                        image_type(structs, parts[i])
                    } else {
                        TypeModel::Identifier(0)
                    },
            ),
        ),
    }
}

/// The types of the image for the types `parts`.
pub open spec fn image_types(structs: Seq<StructSpec>, parts: Seq<TypeTree>) -> Seq<TypeModel> {
    Seq::new(parts.len(), |i: int| image_type(structs, parts[i]))
}

/// A type that was written is read again.
pub proof fn lemma_type_read(structs: Seq<StructSpec>, t: TypeTree, b: Seq<u8>, pos: int)
    requires
        structs.len() <= usize::MAX,
        type_fits(t),
        type_code(structs, t) is Ok,
        stands_at(b, pos, type_code(structs, t)->Ok_0),
    ensures
        parse_type(b, pos) == Some(
            (image_type(structs, t), pos + type_code(structs, t)->Ok_0.len()),
        ),
    decreases t, 1nat,
{
    let code = type_code(structs, t)->Ok_0;
    match t {
        TypeTree::Identifier(id) => {
            lemma_name_position_in_range(struct_ids(structs), id);
            let k = name_position(struct_ids(structs), id)->0;
            lemma_stands_split(b, pos, seq![0u8], word(k as nat));
            lemma_byte_read(b, pos, 0u8);
            lemma_word_read(b, pos + 1, k as nat);
        },
        TypeTree::Pointer(inner) => {
            let rest = type_code(structs, *inner)->Ok_0;
            lemma_stands_split(b, pos, seq![1u8], rest);
            lemma_byte_read(b, pos, 1u8);
            lemma_type_read(structs, *inner, b, pos + 1);
        },
        TypeTree::Tuple(parts) => {
            let rest = types_code(structs, parts)->Ok_0;
            lemma_stands_split(b, pos, seq![2u8] + word(parts.len()), rest);
            lemma_stands_split(b, pos, seq![2u8], word(parts.len()));
            lemma_byte_read(b, pos, 2u8);
            lemma_word_read(b, pos + 1, parts.len());
            lemma_types_read(structs, parts, b, pos + 9, t);
            assert(image_type(structs, t)->Tuple_0 =~= image_types(structs, parts));
        },
    }
}

/// Types that were written one after the other are read again.
pub proof fn lemma_types_read(
    structs: Seq<StructSpec>,
    parts: Seq<TypeTree>,
    b: Seq<u8>,
    pos: int,
    whole: TypeTree,
)
    requires
        structs.len() <= usize::MAX,
        forall|i: int| 0 <= i < parts.len() ==> type_fits(#[trigger] parts[i]),
        forall|i: int| 0 <= i < parts.len() ==> decreases_to!(whole => #[trigger] parts[i]),
        types_code(structs, parts) is Ok,
        stands_at(b, pos, types_code(structs, parts)->Ok_0),
    ensures
        parse_types(b, pos, parts.len()) == Some(
            (image_types(structs, parts), pos + types_code(structs, parts)->Ok_0.len()),
        ),
    decreases whole, 0nat, parts.len(),
{
    if parts.len() == 0 {
        assert(image_types(structs, parts) =~= Seq::<TypeModel>::empty());
    } else {
        let front = parts.drop_last();
        let before = types_code(structs, front)->Ok_0;
        let last = type_code(structs, parts.last())->Ok_0;
        lemma_stands_split(b, pos, before, last);
        assert forall|i: int| 0 <= i < front.len() implies type_fits(#[trigger] front[i]) by {
            assert(front[i] == parts[i]);
        }
        assert forall|i: int| 0 <= i < front.len() implies decreases_to!(whole => #[trigger] front[i]) by {
            assert(front[i] == parts[i]);
        }
        lemma_types_read(structs, front, b, pos, whole);
        assert(decreases_to!(whole => parts[parts.len() - 1]));
        lemma_type_read(structs, parts.last(), b, pos + before.len());
        assert(image_types(structs, front).push(image_type(structs, parts.last()))
            =~= image_types(structs, parts));
    }
}

// ---------------------------------------------------------------------------
// Variables, fields, structs, function headers
// ---------------------------------------------------------------------------

/// The variable of the image for a variable of the assembly.
pub open spec fn image_variable(structs: Seq<StructSpec>, v: VariableSpec) -> VariableModel {
    VariableModel {
        index: v.index,
        typeid: image_type(structs, v.typeid),
        size: v.size,
        offset: v.offset,
    }
}

pub open spec fn image_variables(structs: Seq<StructSpec>, vars: Seq<VariableSpec>) -> Seq<
    VariableModel,
> {
    Seq::new(vars.len(), |i: int| image_variable(structs, vars[i]))
}

/// A variable that was written is read again.
pub proof fn lemma_variable_read(structs: Seq<StructSpec>, v: VariableSpec, b: Seq<u8>, pos: int)
    requires
        structs.len() <= usize::MAX,
        type_fits(v.typeid),
        variable_code(structs, v) is Ok,
        stands_at(b, pos, variable_code(structs, v)->Ok_0),
    ensures
        parse_variable(b, pos) == Some(
            (image_variable(structs, v), pos + variable_code(structs, v)->Ok_0.len()),
        ),
{
    let t = type_code(structs, v.typeid)->Ok_0;
    let tail = match v.offset {
        Some(o) => seq![1u8] + word(o as nat),
        None => seq![0u8],
    };
    lemma_be_bytes_len(v.index as nat, 8);
    lemma_be_bytes_len(v.size as nat, 8);
    lemma_stands_split(b, pos, word(v.index as nat) + t + word(v.size as nat), tail);
    lemma_stands_split(b, pos, word(v.index as nat) + t, word(v.size as nat));
    lemma_stands_split(b, pos, word(v.index as nat), t);
    lemma_word_read(b, pos, v.index as nat);
    lemma_type_read(structs, v.typeid, b, pos + 8);
    lemma_word_read(b, pos + 8 + t.len(), v.size as nat);
    let p3 = pos + 8 + t.len() + 8;
    match v.offset {
        Some(o) => {
            lemma_be_bytes_len(o as nat, 8);
            lemma_stands_split(b, p3, seq![1u8], word(o as nat));
            lemma_byte_read(b, p3, 1u8);
            lemma_word_read(b, p3 + 1, o as nat);
        },
        None => {
            lemma_byte_read(b, p3, 0u8);
        },
    }
}

/// Variables that were written one after the other are read again.
pub proof fn lemma_variables_read(
    structs: Seq<StructSpec>,
    vars: Seq<VariableSpec>,
    b: Seq<u8>,
    pos: int,
)
    requires
        structs.len() <= usize::MAX,
        forall|i: int| 0 <= i < vars.len() ==> type_fits((#[trigger] vars[i]).typeid),
        variables_code(structs, vars) is Ok,
        stands_at(b, pos, variables_code(structs, vars)->Ok_0),
    ensures
        parse_seq(variable_parser(), b, pos, vars.len()) == Some(
            (image_variables(structs, vars), pos + variables_code(structs, vars)->Ok_0.len()),
        ),
    decreases vars.len(),
{
    if vars.len() == 0 {
        assert(image_variables(structs, vars) =~= Seq::<VariableModel>::empty());
    } else {
        let front = vars.drop_last();
        let before = variables_code(structs, front)->Ok_0;
        let last = variable_code(structs, vars.last())->Ok_0;
        lemma_stands_split(b, pos, before, last);
        assert forall|i: int| 0 <= i < front.len() implies type_fits(
            (#[trigger] front[i]).typeid,
        ) by {
            assert(front[i] == vars[i]);
        }
        lemma_variables_read(structs, front, b, pos);
        lemma_variable_read(structs, vars.last(), b, pos + before.len());
        assert(image_variables(structs, front).push(image_variable(structs, vars.last()))
            =~= image_variables(structs, vars));
    }
}

/// The field of the image for a field of the assembly.
pub open spec fn image_field(structs: Seq<StructSpec>, f: FieldSpec) -> FieldModel {
    FieldModel { typeid: image_type(structs, f.typeid), offset: f.offset, size: f.size }
}

pub open spec fn image_fields(structs: Seq<StructSpec>, fields: Seq<FieldSpec>) -> Seq<FieldModel> {
    Seq::new(fields.len(), |i: int| image_field(structs, fields[i]))
}

/// A field that was written is read again.
pub proof fn lemma_field_read(structs: Seq<StructSpec>, f: FieldSpec, b: Seq<u8>, pos: int)
    requires
        structs.len() <= usize::MAX,
        type_fits(f.typeid),
        field_code(structs, f) is Ok,
        stands_at(b, pos, field_code(structs, f)->Ok_0),
    ensures
        parse_field(b, pos) == Some(
            (image_field(structs, f), pos + field_code(structs, f)->Ok_0.len()),
        ),
{
    let t = type_code(structs, f.typeid)->Ok_0;
    lemma_be_bytes_len(f.offset as nat, 8);
    lemma_be_bytes_len(f.size as nat, 8);
    lemma_stands_split(b, pos, t + word(f.offset as nat), word(f.size as nat));
    lemma_stands_split(b, pos, t, word(f.offset as nat));
    lemma_type_read(structs, f.typeid, b, pos);
    lemma_word_read(b, pos + t.len(), f.offset as nat);
    lemma_word_read(b, pos + t.len() + 8, f.size as nat);
}

/// Fields that were written one after the other are read again.
pub proof fn lemma_fields_read(structs: Seq<StructSpec>, fields: Seq<FieldSpec>, b: Seq<u8>, pos: int)
    requires
        structs.len() <= usize::MAX,
        forall|i: int| 0 <= i < fields.len() ==> type_fits((#[trigger] fields[i]).typeid),
        fields_code(structs, fields) is Ok,
        stands_at(b, pos, fields_code(structs, fields)->Ok_0),
    ensures
        parse_seq(field_parser(), b, pos, fields.len()) == Some(
            (image_fields(structs, fields), pos + fields_code(structs, fields)->Ok_0.len()),
        ),
    decreases fields.len(),
{
    if fields.len() == 0 {
        assert(image_fields(structs, fields) =~= Seq::<FieldModel>::empty());
    } else {
        let front = fields.drop_last();
        let before = fields_code(structs, front)->Ok_0;
        let last = field_code(structs, fields.last())->Ok_0;
        lemma_stands_split(b, pos, before, last);
        assert forall|i: int| 0 <= i < front.len() implies type_fits(
            (#[trigger] front[i]).typeid,
        ) by {
            assert(front[i] == fields[i]);
        }
        lemma_fields_read(structs, front, b, pos);
        lemma_field_read(structs, fields.last(), b, pos + before.len());
        assert(image_fields(structs, front).push(image_field(structs, fields.last()))
            =~= image_fields(structs, fields));
    }
}

/// True when the image can hold the struct: it can count its fields and
/// the parts of their types.
pub open spec fn struct_fits(s: StructSpec) -> bool {
    s.fields.len() <= u64::MAX && forall|i: int|
        0 <= i < s.fields.len() ==> type_fits((#[trigger] s.fields[i]).typeid)
}

/// The struct of the image for a struct of the assembly.
pub open spec fn image_struct(structs: Seq<StructSpec>, s: StructSpec) -> StructModel {
    StructModel {
        index: s.index,
        fields: image_fields(structs, s.fields),
        size: s.size,
        export: s.export,
    }
}

/// A struct that was written is read again.
pub proof fn lemma_struct_read(structs: Seq<StructSpec>, s: StructSpec, b: Seq<u8>, pos: int)
    requires
        structs.len() <= usize::MAX,
        struct_fits(s),
        struct_code(structs, s) is Ok,
        stands_at(b, pos, struct_code(structs, s)->Ok_0),
    ensures
        parse_struct(b, pos) == Some(
            (image_struct(structs, s), pos + struct_code(structs, s)->Ok_0.len()),
        ),
{
    let fields = fields_code(structs, s.fields)->Ok_0;
    lemma_be_bytes_len(s.index as nat, 8);
    lemma_be_bytes_len(s.fields.len(), 8);
    lemma_be_bytes_len(s.size as nat, 8);
    let head = word(s.index as nat) + word(s.fields.len());
    lemma_stands_split(b, pos, head + fields + word(s.size as nat), flag(s.export));
    lemma_stands_split(b, pos, head + fields, word(s.size as nat));
    lemma_stands_split(b, pos, head, fields);
    lemma_stands_split(b, pos, word(s.index as nat), word(s.fields.len()));
    lemma_word_read(b, pos, s.index as nat);
    lemma_word_read(b, pos + 8, s.fields.len());
    lemma_fields_read(structs, s.fields, b, pos + 16);
    lemma_word_read(b, pos + 16 + fields.len(), s.size as nat);
    lemma_flag_read(b, pos + 16 + fields.len() + 8, s.export);
}

/// True when the image can hold the function: it can count its
/// parameters, its locals and the parts of their types, and the host
/// can hold the names of its place.
pub open spec fn function_fits(f: FunctionSpec) -> bool {
    &&& f.params.len() <= u64::MAX
    &&& f.locals.len() <= u64::MAX
    &&& forall|i: int| 0 <= i < f.params.len() ==> type_fits((#[trigger] f.params[i]).typeid)
    &&& forall|i: int| 0 <= i < f.locals.len() ==> type_fits((#[trigger] f.locals[i]).typeid)
    &&& f.typeid matches Some(t) ==> type_fits(t)
    &&& f.external matches Some(x) ==> encode_utf8(x.0).len() <= usize::MAX && encode_utf8(
        x.1,
    ).len() <= usize::MAX
}

/// The function header of the image for a function of the assembly.
pub open spec fn image_function(structs: Seq<StructSpec>, f: FunctionSpec) -> FunctionModel {
    FunctionModel {
        index: f.index,
        params: image_variables(structs, f.params),
        typeid: match f.typeid {
            Some(t) => Some(image_type(structs, t)),
            None => None,
        },
        locals: image_variables(structs, f.locals),
        external: f.external,
        export: f.export,
    }
}

/// The bytes of the type of a result behind its flag.
pub open spec fn result_code(structs: Seq<StructSpec>, t: Option<TypeTree>) -> Seq<u8> {
    match t {
        Some(t) => seq![1u8] + type_code(structs, t)->Ok_0,
        None => seq![0u8],
    }
}

/// The bytes of the place of an external function behind its flag.
pub open spec fn external_code(x: Option<(Seq<char>, Seq<char>)>) -> Seq<u8> {
    match x {
        Some((m, n)) => seq![1u8] + text_code(m) + text_code(n),
        None => seq![0u8],
    }
}

/// The type of a result that was written is read again.
pub proof fn lemma_result_read(structs: Seq<StructSpec>, t: Option<TypeTree>, b: Seq<u8>, pos: int)
    requires
        structs.len() <= usize::MAX,
        t matches Some(x) ==> type_fits(x) && type_code(structs, x) is Ok,
        stands_at(b, pos, result_code(structs, t)),
    ensures
        parse_return_type(b, pos) == Some(
            (
                match t {
                    Some(x) => Some(image_type(structs, x)),
                    None => None,
                },
                pos + result_code(structs, t).len(),
            ),
        ),
{
    match t {
        Some(x) => {
            lemma_stands_split(b, pos, seq![1u8], type_code(structs, x)->Ok_0);
            lemma_byte_read(b, pos, 1u8);
            lemma_type_read(structs, x, b, pos + 1);
        },
        None => {
            lemma_byte_read(b, pos, 0u8);
        },
    }
}

/// The place of an external function that was written is read again.
pub proof fn lemma_external_read(x: Option<(Seq<char>, Seq<char>)>, b: Seq<u8>, pos: int)
    requires
        x matches Some(y) ==> encode_utf8(y.0).len() <= usize::MAX && encode_utf8(y.1).len()
            <= usize::MAX,
        stands_at(b, pos, external_code(x)),
    ensures
        parse_external(b, pos) == Some((x, pos + external_code(x).len())),
{
    match x {
        Some((m, n)) => {
            lemma_be_bytes_len(encode_utf8(m).len(), 8);
            lemma_be_bytes_len(encode_utf8(n).len(), 8);
            lemma_stands_split(b, pos, seq![1u8] + text_code(m), text_code(n));
            lemma_stands_split(b, pos, seq![1u8], text_code(m));
            lemma_byte_read(b, pos, 1u8);
            lemma_text_read(b, pos + 1, m);
            lemma_text_read(b, pos + 1 + text_code(m).len(), n);
        },
        None => {
            lemma_byte_read(b, pos, 0u8);
        },
    }
}

/// The places of the parts of a function header.
pub struct HeaderPlaces {
    pub params: int,
    pub result: int,
    pub locals_count: int,
    pub locals: int,
    pub external: int,
    pub export: int,
    pub end: int,
}

/// The places of the parts of the header of `f` that stands at `pos`.
pub open spec fn header_places(structs: Seq<StructSpec>, f: FunctionSpec, pos: int) -> HeaderPlaces {
    let params = pos + 16;
    let result = params + variables_code(structs, f.params)->Ok_0.len();
    let locals_count = result + result_code(structs, f.typeid).len();
    let locals = locals_count + 8;
    let external = locals + variables_code(structs, f.locals)->Ok_0.len();
    let export = external + external_code(f.external).len();
    HeaderPlaces { params, result, locals_count, locals, external, export, end: export + 1 }
}

/// Where a function header stands, each of its parts stands at its
/// place.
pub proof fn lemma_header_parts(structs: Seq<StructSpec>, f: FunctionSpec, b: Seq<u8>, pos: int)
    requires
        header_code(structs, f) is Ok,
        stands_at(b, pos, header_code(structs, f)->Ok_0),
    ensures
        ({
            let p = header_places(structs, f, pos);
            &&& stands_at(b, pos, word(f.index as nat))
            &&& stands_at(b, pos + 8, word(f.params.len()))
            &&& stands_at(b, p.params, variables_code(structs, f.params)->Ok_0)
            &&& stands_at(b, p.result, result_code(structs, f.typeid))
            &&& stands_at(b, p.locals_count, word(f.locals.len()))
            &&& stands_at(b, p.locals, variables_code(structs, f.locals)->Ok_0)
            &&& stands_at(b, p.external, external_code(f.external))
            &&& stands_at(b, p.export, flag(f.export))
            &&& p.end == pos + header_code(structs, f)->Ok_0.len()
            &&& variables_code(structs, f.params) is Ok
            &&& variables_code(structs, f.locals) is Ok
            &&& f.typeid matches Some(t) ==> type_code(structs, t) is Ok
        }),
{
    let params = variables_code(structs, f.params)->Ok_0;
    let result = result_code(structs, f.typeid);
    let locals = variables_code(structs, f.locals)->Ok_0;
    let external = external_code(f.external);
    lemma_be_bytes_len(f.index as nat, 8);
    lemma_be_bytes_len(f.params.len(), 8);
    lemma_be_bytes_len(f.locals.len(), 8);
    let c1 = word(f.index as nat);
    let c2 = c1 + word(f.params.len());
    let c3 = c2 + params;
    let c4 = c3 + result;
    let c5 = c4 + word(f.locals.len());
    let c6 = c5 + locals;
    let c7 = c6 + external;
    assert(header_code(structs, f)->Ok_0 == c7 + flag(f.export));
    lemma_stands_split(b, pos, c7, flag(f.export));
    lemma_stands_split(b, pos, c6, external);
    lemma_stands_split(b, pos, c5, locals);
    lemma_stands_split(b, pos, c4, word(f.locals.len()));
    lemma_stands_split(b, pos, c3, result);
    lemma_stands_split(b, pos, c2, params);
    lemma_stands_split(b, pos, c1, word(f.params.len()));
}

/// A function header that was written is read again.
pub proof fn lemma_header_read(structs: Seq<StructSpec>, f: FunctionSpec, b: Seq<u8>, pos: int)
    requires
        structs.len() <= usize::MAX,
        function_fits(f),
        header_code(structs, f) is Ok,
        stands_at(b, pos, header_code(structs, f)->Ok_0),
    ensures
        parse_function(b, pos) == Some(
            (image_function(structs, f), pos + header_code(structs, f)->Ok_0.len()),
        ),
{
    let p = header_places(structs, f, pos);
    lemma_header_parts(structs, f, b, pos);
    lemma_word_read(b, pos, f.index as nat);
    lemma_word_read(b, pos + 8, f.params.len());
    lemma_variables_read(structs, f.params, b, p.params);
    lemma_result_read(structs, f.typeid, b, p.result);
    lemma_word_read(b, p.locals_count, f.locals.len());
    lemma_variables_read(structs, f.locals, b, p.locals);
    lemma_external_read(f.external, b, p.external);
    lemma_flag_read(b, p.export, f.export);
    assert(parse_size(b, pos) == Some((f.index, pos + 8)));
    assert(parse_u64(b, pos + 8) == Some((f.params.len() as u64, p.params)));
    assert(parse_seq(variable_parser(), b, p.params, f.params.len()) == Some(
        (image_variables(structs, f.params), p.result),
    ));
    assert(parse_return_type(b, p.result) == Some(
        (image_function(structs, f).typeid, p.locals_count),
    ));
    assert(parse_u64(b, p.locals_count) == Some((f.locals.len() as u64, p.locals)));
    assert(parse_seq(variable_parser(), b, p.locals, f.locals.len()) == Some(
        (image_variables(structs, f.locals), p.external),
    ));
    assert(parse_external(b, p.external) == Some((f.external, p.export)));
    assert(parse_flag(b, p.export) == Some((f.export, p.end)));
}

} // verus!
