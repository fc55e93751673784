//! What the encoder writes, the decoder reads: the tables of an image
//! and the image as a whole.

use crate::assembly::{FunctionSpec, StructSpec};
use crate::consts::{functions_data, no_data};
use crate::emit::{header_code, struct_code, text_code, word};
use crate::encode::{
    body_bytes, body_code, body_records, exports_code, function_heads, globals_laid,
    header_records, image_of, image_tail, no_records, record_added, struct_heads, struct_records,
    table, Records,
};
use crate::image::{
    body_parser, data_parser, export_parser, function_parser, image_magic, label_parser,
    parse_body, parse_export, parse_image, parse_label, parse_offsets, parse_seq, parse_size,
    parse_string, parse_table_header, parse_tables, parse_tables_tail, parse_u64, string_parser,
    struct_parser, BodyModel, DataModel, FunctionModel, ImageModel, StructModel,
};
use crate::link::{assembled, AssemblyModel};
use crate::encode::encoded;
use crate::program::Program;
use crate::opnames::{functions_ops, no_ops};
use crate::program::{BlockOp, OpRule};
use crate::roundtrip::{
    function_fits, image_function, image_struct, lemma_header_read, lemma_stands_split,
    lemma_struct_read, lemma_text_read, lemma_word_read, stands_at, struct_fits,
};
use crate::roundtrip_data::{
    data_decodes, lemma_functions_data_decodes, lemma_functions_ops_in_step, lemma_pool_shift,
    lemma_texts_read, op_names, ops_in_step, texts_code,
};
use crate::types::Ctx;
use crate::wire::lemma_be_bytes_len;
use vstd::prelude::*;
use vstd::utf8::encode_utf8;

verus! {

// ---------------------------------------------------------------------------
// Exported names
// ---------------------------------------------------------------------------

/// The exported names of the image for the indices `indices` of the
/// items `items`.
pub open spec fn image_exports(indices: Seq<usize>, items: Seq<(usize, Seq<char>)>) -> Seq<
    (Seq<char>, usize),
> {
    Seq::new(indices.len(), |k: int| (items[indices[k] as int].1, items[indices[k] as int].0))
}

/// True when the host can hold the names of the exported items.
pub open spec fn exports_fit(indices: Seq<usize>, items: Seq<(usize, Seq<char>)>) -> bool {
    forall|k: int|
        0 <= k < indices.len() && (#[trigger] indices[k]) < items.len() ==> encode_utf8(
            items[indices[k] as int].1,
        ).len() <= usize::MAX
}

/// Exported names that were written are read again.
pub proof fn lemma_exports_read(
    indices: Seq<usize>,
    items: Seq<(usize, Seq<char>)>,
    b: Seq<u8>,
    pos: int,
)
    requires
        exports_fit(indices, items),
        exports_code(indices, items) is Ok,
        stands_at(b, pos, exports_code(indices, items)->Ok_0),
    ensures
        parse_seq(export_parser(), b, pos, indices.len()) == Some(
            (image_exports(indices, items), pos + exports_code(indices, items)->Ok_0.len()),
        ),
    decreases indices.len(),
{
    if indices.len() == 0 {
        assert(image_exports(indices, items) =~= Seq::<(Seq<char>, usize)>::empty());
    } else {
        let front = indices.drop_last();
        let before = exports_code(front, items)->Ok_0;
        let item = items[indices.last() as int];
        assert(exports_code(indices, items)->Ok_0 == before + word(item.0 as nat) + text_code(
            item.1,
        ));
        lemma_be_bytes_len(item.0 as nat, 8);
        lemma_stands_split(b, pos, before + word(item.0 as nat), text_code(item.1));
        lemma_stands_split(b, pos, before, word(item.0 as nat));
        assert forall|k: int|
            0 <= k < front.len() && (#[trigger] front[k]) < items.len() implies encode_utf8(
            items[front[k] as int].1,
        ).len() <= usize::MAX by {
            assert(front[k] == indices[k]);
        }
        lemma_exports_read(front, items, b, pos);
        lemma_word_read(b, pos + before.len(), item.0 as nat);
        assert(indices[indices.len() - 1] == indices.last());
        lemma_text_read(b, pos + before.len() + 8, item.1);
        assert(image_exports(front, items).push((item.1, item.0)) =~= image_exports(
            indices,
            items,
        ));
    }
}

// ---------------------------------------------------------------------------
// Records
// ---------------------------------------------------------------------------

pub open spec fn image_structs(all: Seq<StructSpec>, structs: Seq<StructSpec>) -> Seq<StructModel> {
    Seq::new(structs.len(), |i: int| image_struct(all, structs[i]))
}

pub open spec fn image_functions(all: Seq<StructSpec>, functions: Seq<FunctionSpec>) -> Seq<
    FunctionModel,
> {
    Seq::new(functions.len(), |i: int| image_function(all, functions[i]))
}

/// The records of structs that were written are read again, and there
/// are as many as there are structs.
pub proof fn lemma_struct_records_read(
    all: Seq<StructSpec>,
    structs: Seq<StructSpec>,
    b: Seq<u8>,
    pos: int,
)
    requires
        all.len() <= usize::MAX,
        forall|i: int| 0 <= i < structs.len() ==> struct_fits(#[trigger] structs[i]),
        struct_records(all, structs) is Ok,
        stands_at(b, pos, struct_records(all, structs)->Ok_0.bytes),
    ensures
        struct_records(all, structs)->Ok_0.count == structs.len(),
        parse_seq(struct_parser(), b, pos, structs.len()) == Some(
            (image_structs(all, structs), pos + struct_records(all, structs)->Ok_0.bytes.len()),
        ),
    decreases structs.len(),
{
    if structs.len() == 0 {
        assert(image_structs(all, structs) =~= Seq::<StructModel>::empty());
    } else {
        let front = structs.drop_last();
        let r = struct_records(all, front)->Ok_0;
        let code = struct_code(all, structs.last())->Ok_0;
        assert(struct_records(all, structs)->Ok_0.bytes =~= r.bytes + code);
        lemma_stands_split(b, pos, r.bytes, code);
        assert forall|i: int| 0 <= i < front.len() implies struct_fits(#[trigger] front[i]) by {
            assert(front[i] == structs[i]);
        }
        lemma_struct_records_read(all, front, b, pos);
        assert(structs[structs.len() - 1] == structs.last());
        lemma_struct_read(all, structs.last(), b, pos + r.bytes.len());
        assert(image_structs(all, front).push(image_struct(all, structs.last()))
            =~= image_structs(all, structs));
    }
}

/// The records of function headers that were written are read again,
/// and there are as many as there are functions.
pub proof fn lemma_header_records_read(
    all: Seq<StructSpec>,
    functions: Seq<FunctionSpec>,
    b: Seq<u8>,
    pos: int,
)
    requires
        all.len() <= usize::MAX,
        forall|i: int| 0 <= i < functions.len() ==> function_fits(#[trigger] functions[i]),
        header_records(all, functions) is Ok,
        stands_at(b, pos, header_records(all, functions)->Ok_0.bytes),
    ensures
        header_records(all, functions)->Ok_0.count == functions.len(),
        parse_seq(function_parser(), b, pos, functions.len()) == Some(
            (
                image_functions(all, functions),
                pos + header_records(all, functions)->Ok_0.bytes.len(),
            ),
        ),
    decreases functions.len(),
{
    if functions.len() == 0 {
        assert(image_functions(all, functions) =~= Seq::<FunctionModel>::empty());
    } else {
        let front = functions.drop_last();
        let r = header_records(all, front)->Ok_0;
        let code = header_code(all, functions.last())->Ok_0;
        assert(header_records(all, functions)->Ok_0.bytes =~= r.bytes + code);
        lemma_stands_split(b, pos, r.bytes, code);
        assert forall|i: int| 0 <= i < front.len() implies function_fits(#[trigger] front[i]) by {
            assert(front[i] == functions[i]);
        }
        lemma_header_records_read(all, front, b, pos);
        assert(functions[functions.len() - 1] == functions.last());
        lemma_header_read(all, functions.last(), b, pos + r.bytes.len());
        assert(image_functions(all, front).push(image_function(all, functions.last()))
            =~= image_functions(all, functions));
    }
}

// ---------------------------------------------------------------------------
// Bodies
// ---------------------------------------------------------------------------

/// The labels of the steps `body`, each with the offset that the code
/// has reached where the label stands.
pub open spec fn body_labels(ctx: Ctx, body: Seq<BlockOp>) -> Seq<(Seq<char>, usize)>
    decreases body.len(),
{
    if body.len() == 0 {
        Seq::empty()
    } else {
        match body.last() {
            BlockOp::Label(name) => body_labels(ctx, body.drop_last()).push(
                (name@, body_code(ctx, body.drop_last())->Ok_0.code.len() as usize),
            ),
            BlockOp::Operation(_) => body_labels(ctx, body.drop_last()),
        }
    }
}

/// True when the host can hold the names of the labels of `body`.
pub open spec fn labels_fit(body: Seq<BlockOp>) -> bool {
    forall|i: int|
        0 <= i < body.len() ==> ((#[trigger] body[i]) matches BlockOp::Label(name)
            ==> encode_utf8(name@).len() <= usize::MAX)
}

/// The code of a body grows with its steps.
pub proof fn lemma_body_code_grows(ctx: Ctx, body: Seq<BlockOp>)
    requires
        body_code(ctx, body) is Ok,
        body.len() > 0,
    ensures
        body_code(ctx, body.drop_last()) is Ok,
        body_code(ctx, body.drop_last())->Ok_0.code.len() <= body_code(ctx, body)->Ok_0.code.len(),
{
}

/// The labels that were written are read again, and there are as many as
/// the body counts.
pub proof fn lemma_labels_read(ctx: Ctx, body: Seq<BlockOp>, b: Seq<u8>, pos: int)
    requires
        labels_fit(body),
        body_code(ctx, body) is Ok,
        body_code(ctx, body)->Ok_0.code.len() <= usize::MAX,
        stands_at(b, pos, body_code(ctx, body)->Ok_0.labels),
    ensures
        body_code(ctx, body)->Ok_0.label_count == body_labels(ctx, body).len(),
        parse_seq(label_parser(), b, pos, body_labels(ctx, body).len()) == Some(
            (body_labels(ctx, body), pos + body_code(ctx, body)->Ok_0.labels.len()),
        ),
    decreases body.len(),
{
    if body.len() > 0 {
        let front = body.drop_last();
        lemma_body_code_grows(ctx, body);
        let st = body_code(ctx, front)->Ok_0;
        assert forall|i: int| 0 <= i < front.len() implies ((#[trigger] front[i]) matches BlockOp::Label(
            name,
        ) ==> encode_utf8(name@).len() <= usize::MAX) by {
            assert(front[i] == body[i]);
        }
        match body.last() {
            BlockOp::Label(name) => {
                assert(body[body.len() - 1] == body.last());
                lemma_be_bytes_len(st.code.len(), 8);
                assert(body_code(ctx, body)->Ok_0.labels == st.labels + text_code(name@) + word(
                    st.code.len(),
                ));
                lemma_stands_split(b, pos, st.labels + text_code(name@), word(st.code.len()));
                lemma_stands_split(b, pos, st.labels, text_code(name@));
                lemma_labels_read(ctx, front, b, pos);
                lemma_text_read(b, pos + st.labels.len(), name@);
                lemma_word_read(b, pos + st.labels.len() + text_code(name@).len(), st.code.len());
            },
            BlockOp::Operation(_) => {
                lemma_labels_read(ctx, front, b, pos);
            },
        }
    }
}

/// The body of the image for the function of `ctx`.
#[verifier::opaque]
pub open spec fn image_body(ctx: Ctx) -> BodyModel {
    BodyModel {
        labels: body_labels(ctx, ctx.function.body),
        code: body_code(ctx, ctx.function.body)->Ok_0.code,
    }
}

/// True when the image can hold the body of the function of `ctx`.
#[verifier::opaque]
pub open spec fn body_fits(ctx: Ctx) -> bool {
    let st = body_code(ctx, ctx.function.body)->Ok_0;
    &&& labels_fit(ctx.function.body)
    &&& st.code.len() <= usize::MAX
    &&& st.labels.len() <= u64::MAX
    &&& st.label_count <= u64::MAX
    &&& st.op_count <= u64::MAX
    &&& body_bytes(ctx)->Ok_0.len() <= u64::MAX
}

/// The bytes of a body: the length of the labels, their number, the
/// labels, the length of the code, the number of operations, the code.
pub open spec fn body_frame(labels: Seq<u8>, label_count: nat, code: Seq<u8>, op_count: nat) -> Seq<
    u8,
> {
    word(labels.len()) + word(label_count) + labels + word(code.len()) + word(op_count) + code
}

/// Where a body stands behind its length and its labels are read, the
/// body is read.
pub proof fn lemma_body_frame_read(
    b: Seq<u8>,
    pos: int,
    labels: Seq<u8>,
    label_count: nat,
    code: Seq<u8>,
    op_count: nat,
    list: Seq<(Seq<char>, usize)>,
)
    requires
        labels.len() <= u64::MAX,
        label_count <= u64::MAX,
        op_count <= u64::MAX,
        code.len() <= usize::MAX,
        body_frame(labels, label_count, code, op_count).len() <= u64::MAX,
        stands_at(
            b,
            pos,
            word(body_frame(labels, label_count, code, op_count).len()) + body_frame(
                labels,
                label_count,
                code,
                op_count,
            ),
        ),
        parse_seq(label_parser(), b, pos + 24, label_count) == Some(
            (list, pos + 24 + labels.len()),
        ),
    ensures
        body_frame(labels, label_count, code, op_count).len() == 32 + labels.len() + code.len(),
        parse_body(b, pos) == Some(
            (
                BodyModel { labels: list, code },
                pos + 8 + body_frame(labels, label_count, code, op_count).len(),
            ),
        ),
{
    let whole = body_frame(labels, label_count, code, op_count);
    lemma_be_bytes_len(whole.len(), 8);
    lemma_be_bytes_len(labels.len(), 8);
    lemma_be_bytes_len(label_count, 8);
    lemma_be_bytes_len(code.len(), 8);
    lemma_be_bytes_len(op_count, 8);
    lemma_stands_split(b, pos, word(whole.len()), whole);
    let p1 = pos + 8;
    let c1 = word(labels.len());
    let c2 = c1 + word(label_count);
    let c3 = c2 + labels;
    let c4 = c3 + word(code.len());
    let c5 = c4 + word(op_count);
    assert(whole == c5 + code);
    lemma_stands_split(b, p1, c5, code);
    lemma_stands_split(b, p1, c4, word(op_count));
    lemma_stands_split(b, p1, c3, word(code.len()));
    lemma_stands_split(b, p1, c2, labels);
    lemma_stands_split(b, p1, c1, word(label_count));
    lemma_word_read(b, pos, whole.len());
    lemma_word_read(b, p1, labels.len());
    lemma_word_read(b, p1 + 8, label_count);
    lemma_word_read(b, p1 + c3.len(), code.len());
    lemma_word_read(b, p1 + c4.len(), op_count);
    assert(parse_u64(b, pos) == Some((whole.len() as u64, p1)));
    assert(parse_u64(b, p1) == Some((labels.len() as u64, p1 + 8)));
    assert(parse_u64(b, p1 + 8) == Some((label_count as u64, p1 + 16)));
    assert(parse_size(b, p1 + c3.len()) == Some((code.len() as usize, p1 + c4.len())));
    assert(parse_u64(b, p1 + c4.len()) == Some((op_count as u64, p1 + c5.len())));
}

/// Where a body stands behind its length, its labels stand behind the
/// length of the labels and their number.
pub proof fn lemma_body_labels_stand(
    b: Seq<u8>,
    pos: int,
    labels: Seq<u8>,
    label_count: nat,
    code: Seq<u8>,
    op_count: nat,
)
    requires
        stands_at(
            b,
            pos,
            word(body_frame(labels, label_count, code, op_count).len()) + body_frame(
                labels,
                label_count,
                code,
                op_count,
            ),
        ),
    ensures
        stands_at(b, pos + 24, labels),
{
    let whole = body_frame(labels, label_count, code, op_count);
    lemma_be_bytes_len(whole.len(), 8);
    lemma_be_bytes_len(labels.len(), 8);
    lemma_be_bytes_len(label_count, 8);
    lemma_stands_split(b, pos, word(whole.len()), whole);
    let c2 = word(labels.len()) + word(label_count);
    let rest = word(code.len()) + word(op_count) + code;
    assert(whole =~= c2 + labels + rest);
    lemma_stands_split(b, pos + 8, c2 + labels, rest);
    lemma_stands_split(b, pos + 8, c2, labels);
}

/// A body that was written behind its length is read again.
pub proof fn lemma_body_read(ctx: Ctx, b: Seq<u8>, pos: int)
    requires
        body_bytes(ctx) is Ok,
        body_fits(ctx),
        stands_at(b, pos, word(body_bytes(ctx)->Ok_0.len()) + body_bytes(ctx)->Ok_0),
    ensures
        parse_body(b, pos) == Some((image_body(ctx), pos + 8 + body_bytes(ctx)->Ok_0.len())),
{
    reveal(body_fits);
    reveal(image_body);
    let st = body_code(ctx, ctx.function.body)->Ok_0;
    assert(body_bytes(ctx)->Ok_0 == body_frame(st.labels, st.label_count, st.code, st.op_count));
    lemma_body_labels_stand(b, pos, st.labels, st.label_count, st.code, st.op_count);
    lemma_labels_read(ctx, ctx.function.body, b, pos + 24);
    lemma_body_frame_read(
        b,
        pos,
        st.labels,
        st.label_count,
        st.code,
        st.op_count,
        body_labels(ctx, ctx.function.body),
    );
}

pub open spec fn image_bodies(base: Ctx, functions: Seq<FunctionSpec>) -> Seq<BodyModel> {
    Seq::new(functions.len(), |i: int| image_body(Ctx { function: functions[i], ..base }))
}

/// True when the image can hold the bodies of the functions.
pub open spec fn bodies_fit(base: Ctx, functions: Seq<FunctionSpec>) -> bool {
    forall|i: int|
        0 <= i < functions.len() ==> body_fits(Ctx { function: #[trigger] functions[i], ..base })
}

/// The records of bodies that were written are read again, and there are
/// as many as there are functions.
pub proof fn lemma_body_records_read(base: Ctx, functions: Seq<FunctionSpec>, b: Seq<u8>, pos: int)
    requires
        bodies_fit(base, functions),
        body_records(base, functions) is Ok,
        stands_at(b, pos, body_records(base, functions)->Ok_0.bytes),
    ensures
        body_records(base, functions)->Ok_0.count == functions.len(),
        parse_seq(body_parser(), b, pos, functions.len()) == Some(
            (image_bodies(base, functions), pos + body_records(base, functions)->Ok_0.bytes.len()),
        ),
    decreases functions.len(),
{
    if functions.len() == 0 {
        assert(image_bodies(base, functions) =~= Seq::<BodyModel>::empty());
    } else {
        let front = functions.drop_last();
        let r = body_records(base, front)->Ok_0;
        let ctx = Ctx { function: functions.last(), ..base };
        let code = body_bytes(ctx)->Ok_0;
        assert(body_records(base, functions)->Ok_0.bytes =~= r.bytes + (word(code.len()) + code));
        lemma_be_bytes_len(code.len(), 8);
        lemma_stands_split(b, pos, r.bytes, word(code.len()) + code);
        assert forall|i: int| 0 <= i < front.len() implies body_fits(
            Ctx { function: #[trigger] front[i], ..base },
        ) by {
            assert(front[i] == functions[i]);
        }
        lemma_body_records_read(base, front, b, pos);
        assert(functions[functions.len() - 1] == functions.last());
        lemma_body_read(ctx, b, pos + r.bytes.len());
        assert(image_bodies(base, front).push(image_body(ctx)) =~= image_bodies(base, functions));
    }
}

// ---------------------------------------------------------------------------
// Tables
// ---------------------------------------------------------------------------

/// Where a table stands, its header is read, and its parts stand behind
/// the header.
pub proof fn lemma_table_read(b: Seq<u8>, pos: int, first: Seq<u8>, count: nat, rest: Seq<u8>)
    requires
        first.len() <= u64::MAX,
        count <= u64::MAX,
        stands_at(b, pos, table(first, count, rest)),
    ensures
        table(first, count, rest).len() == 16 + first.len() + rest.len(),
        parse_table_header(b, pos) == Some(((first.len() as u64, count as u64), pos + 16)),
        parse_offsets(b, pos) == Some((count as u64, pos + 16 + first.len())),
        stands_at(b, pos + 16, first),
        stands_at(b, pos + 16 + first.len(), rest),
{
    lemma_be_bytes_len(first.len(), 8);
    lemma_be_bytes_len(count, 8);
    let c1 = word(first.len());
    let c2 = c1 + word(count);
    let c3 = c2 + first;
    lemma_stands_split(b, pos, c3, rest);
    lemma_stands_split(b, pos, c2, first);
    lemma_stands_split(b, pos, c1, word(count));
    lemma_word_read(b, pos, first.len());
    lemma_word_read(b, pos + 8, count);
}

// ---------------------------------------------------------------------------
// The image
// ---------------------------------------------------------------------------

/// What the encoder knows of an assembly when it lowers the bodies.
pub open spec fn base_ctx(a: AssemblyModel, rules: Seq<OpRule>) -> Ctx {
    Ctx {
        structs: a.structs,
        functions: a.functions,
        globals: a.globals,
        function: arbitrary(),
        data: functions_data(no_data(), a.functions)->Ok_0.table,
        global_offsets: globals_laid(a.globals)->Ok_0.0,
        ops: functions_ops(no_ops(), rules, a.functions)->Ok_0.table,
    }
}

/// The constants that the bytes `bytes` hold.
pub open spec fn constants_of(bytes: Seq<u8>, count: nat) -> Seq<DataModel> {
    parse_seq(data_parser(), bytes, 0, count).unwrap().0
}

/// The image that the decoder reads from the image of the assembly `a`.
pub open spec fn decoded_image(a: AssemblyModel, rules: Seq<OpRule>) -> ImageModel {
    let data = functions_data(no_data(), a.functions)->Ok_0;
    ImageModel {
        export_structs: image_exports(a.export_structs, struct_heads(a.structs)),
        export_functions: image_exports(a.export_functions, function_heads(a.functions)),
        structs: image_structs(a.structs, a.structs),
        functions: image_functions(a.structs, a.functions),
        data: constants_of(data.bytes, data.table.count()),
        globals_size: globals_laid(a.globals)->Ok_0.1 as usize,
        ops: op_names(functions_ops(no_ops(), rules, a.functions)->Ok_0.table),
        bodies: image_bodies(base_ctx(a, rules), a.functions),
    }
}

/// True when the image and the host can hold the tables behind the
/// function headers: the counts and the lengths fit 64 bits, and the
/// host can hold the size of the globals, the names of the operations
/// and the bodies.
#[verifier::opaque]
pub open spec fn tail_fits(a: AssemblyModel, rules: Seq<OpRule>) -> bool {
    let data = functions_data(no_data(), a.functions)->Ok_0;
    let ops = functions_ops(no_ops(), rules, a.functions)->Ok_0;
    let bodies = body_records(base_ctx(a, rules), a.functions)->Ok_0;
    &&& data.bytes.len() <= u64::MAX
    &&& globals_laid(a.globals)->Ok_0.1 <= usize::MAX
    &&& ops.bytes.len() <= u64::MAX
    &&& ops.table.len() <= u64::MAX
    &&& forall|i: int|
        0 <= i < ops.table.len() ==> encode_utf8((#[trigger] ops.table[i]).0).len() <= usize::MAX
    &&& bodies.offsets.len() <= u64::MAX
    &&& a.functions.len() <= u64::MAX
    &&& bodies_fit(base_ctx(a, rules), a.functions)
}

/// True when the image and the host can hold the tables up to the
/// function headers.
#[verifier::opaque]
pub open spec fn head_fits(a: AssemblyModel) -> bool {
    &&& a.structs.len() <= usize::MAX
    &&& a.functions.len() <= u64::MAX
    &&& a.export_structs.len() <= u64::MAX
    &&& a.export_functions.len() <= u64::MAX
    &&& exports_code(a.export_structs, struct_heads(a.structs))->Ok_0.len() <= u64::MAX
    &&& exports_code(a.export_functions, function_heads(a.functions))->Ok_0.len() <= u64::MAX
    &&& struct_records(a.structs, a.structs)->Ok_0.offsets.len() <= u64::MAX
    &&& header_records(a.structs, a.functions)->Ok_0.offsets.len() <= u64::MAX
    &&& exports_fit(a.export_structs, struct_heads(a.structs))
    &&& exports_fit(a.export_functions, function_heads(a.functions))
    &&& forall|i: int| 0 <= i < a.structs.len() ==> struct_fits(#[trigger] a.structs[i])
    &&& forall|i: int| 0 <= i < a.functions.len() ==> function_fits(#[trigger] a.functions[i])
}

/// The tables behind the function headers that were written are read
/// again.
pub proof fn lemma_tail_read(
    a: AssemblyModel,
    rules: Seq<OpRule>,
    b: Seq<u8>,
    pos: int,
    export_structs: Seq<(Seq<char>, usize)>,
    export_functions: Seq<(Seq<char>, usize)>,
    structs: Seq<StructModel>,
    functions: Seq<FunctionModel>,
)
    requires
        image_tail(a, rules) is Ok,
        tail_fits(a, rules),
        stands_at(b, pos, image_tail(a, rules)->Ok_0),
    ensures
        parse_tables_tail(b, pos, export_structs, export_functions, structs, functions) == Some(
            ImageModel {
                export_structs,
                export_functions,
                structs,
                functions,
                data: decoded_image(a, rules).data,
                globals_size: decoded_image(a, rules).globals_size,
                ops: decoded_image(a, rules).ops,
                bodies: decoded_image(a, rules).bodies,
            },
        ),
{
    reveal(tail_fits);
    let data = functions_data(no_data(), a.functions)->Ok_0;
    let gs = globals_laid(a.globals)->Ok_0.1;
    let ops = functions_ops(no_ops(), rules, a.functions)->Ok_0;
    let base = base_ctx(a, rules);
    let bodies = body_records(base, a.functions)->Ok_0;
    let empty = Seq::<u8>::empty();
    let t5 = table(data.bytes, data.table.count(), empty);
    let t6 = table(ops.bytes, ops.table.len(), empty);
    let t7 = table(bodies.offsets, bodies.count, bodies.bytes);
    assert(image_tail(a, rules)->Ok_0 == t5 + word(gs as nat) + t6 + t7);
    lemma_be_bytes_len(gs as nat, 8);
    lemma_stands_split(b, pos, t5 + word(gs as nat) + t6, t7);
    lemma_stands_split(b, pos, t5 + word(gs as nat), t6);
    lemma_stands_split(b, pos, t5, word(gs as nat));
    // the constants
    lemma_table_read(b, pos, data.bytes, data.table.count(), empty);
    assert(data_decodes(no_data())) by {
        assert(no_data().table.count() == 0);
    }
    lemma_functions_data_decodes(no_data(), a.functions);
    lemma_pool_shift(data.bytes, data.table.count(), b, pos + 16);
    let p2 = pos + 16 + data.bytes.len();
    assert(t5.len() == 16 + data.bytes.len());
    // the size of the globals
    lemma_word_read(b, p2, gs as nat);
    // the operation names
    let p3 = p2 + 8;
    lemma_table_read(b, p3, ops.bytes, ops.table.len(), empty);
    assert(ops_in_step(no_ops())) by {
        assert(op_names(no_ops().table) =~= Seq::<Seq<char>>::empty());
    }
    lemma_functions_ops_in_step(no_ops(), rules, a.functions);
    assert forall|i: int| 0 <= i < op_names(ops.table).len() implies encode_utf8(
        #[trigger] op_names(ops.table)[i],
    ).len() <= usize::MAX by {
        assert(op_names(ops.table)[i] == ops.table[i].0);
    }
    lemma_texts_read(op_names(ops.table), b, p3 + 16);
    let p5 = p3 + 16 + ops.bytes.len();
    // the bodies
    lemma_body_records_count(base, a.functions);
    lemma_table_read(b, p5, bodies.offsets, bodies.count, bodies.bytes);
    lemma_body_records_read(base, a.functions, b, p5 + 16 + bodies.offsets.len());
    assert(parse_table_header(b, pos) == Some(
        ((data.bytes.len() as u64, data.table.count() as u64), pos + 16),
    ));
    assert(parse_seq(data_parser(), b, pos + 16, data.table.count()) == Some(
        (decoded_image(a, rules).data, p2),
    ));
    assert(parse_size(b, p2) == Some((gs as usize, p3)));
    assert(parse_table_header(b, p3) == Some(
        ((ops.bytes.len() as u64, ops.table.len() as u64), p3 + 16),
    ));
    assert(parse_seq(string_parser(), b, p3 + 16, ops.table.len()) == Some(
        (decoded_image(a, rules).ops, p5),
    ));
    assert(parse_offsets(b, p5) == Some(
        (a.functions.len() as u64, p5 + 16 + bodies.offsets.len()),
    ));
}

/// There are as many records of bodies as there are functions.
pub proof fn lemma_body_records_count(base: Ctx, functions: Seq<FunctionSpec>)
    requires
        body_records(base, functions) is Ok,
    ensures
        body_records(base, functions)->Ok_0.count == functions.len(),
    decreases functions.len(),
{
    if functions.len() > 0 {
        lemma_body_records_count(base, functions.drop_last());
    }
}

/// There are as many records of structs as there are structs.
pub proof fn lemma_struct_records_count(all: Seq<StructSpec>, structs: Seq<StructSpec>)
    requires
        struct_records(all, structs) is Ok,
    ensures
        struct_records(all, structs)->Ok_0.count == structs.len(),
    decreases structs.len(),
{
    if structs.len() > 0 {
        lemma_struct_records_count(all, structs.drop_last());
    }
}

/// There are as many records of function headers as there are
/// functions.
pub proof fn lemma_header_records_count(all: Seq<StructSpec>, functions: Seq<FunctionSpec>)
    requires
        header_records(all, functions) is Ok,
    ensures
        header_records(all, functions)->Ok_0.count == functions.len(),
    decreases functions.len(),
{
    if functions.len() > 0 {
        lemma_header_records_count(all, functions.drop_last());
    }
}

/// Where six pieces make up `b`, each of them stands at its place.
pub proof fn lemma_six_pieces(
    b: Seq<u8>,
    c0: Seq<u8>,
    c1: Seq<u8>,
    c2: Seq<u8>,
    c3: Seq<u8>,
    c4: Seq<u8>,
    c5: Seq<u8>,
)
    requires
        b == c0 + c1 + c2 + c3 + c4 + c5,
    ensures
        stands_at(b, 0, c0),
        stands_at(b, c0.len() as int, c1),
        stands_at(b, (c0.len() + c1.len()) as int, c2),
        stands_at(b, (c0.len() + c1.len() + c2.len()) as int, c3),
        stands_at(b, (c0.len() + c1.len() + c2.len() + c3.len()) as int, c4),
        stands_at(b, (c0.len() + c1.len() + c2.len() + c3.len() + c4.len()) as int, c5),
{
    assert(b.subrange(0, b.len() as int) =~= b);
    lemma_stands_split(b, 0, c0 + c1 + c2 + c3 + c4, c5);
    lemma_stands_split(b, 0, c0 + c1 + c2 + c3, c4);
    lemma_stands_split(b, 0, c0 + c1 + c2, c3);
    lemma_stands_split(b, 0, c0 + c1, c2);
    lemma_stands_split(b, 0, c0, c1);
}

/// A table of exported names that was written is read again.
pub proof fn lemma_export_table_read(
    indices: Seq<usize>,
    items: Seq<(usize, Seq<char>)>,
    b: Seq<u8>,
    pos: int,
)
    requires
        exports_fit(indices, items),
        exports_code(indices, items) is Ok,
        indices.len() <= u64::MAX,
        exports_code(indices, items)->Ok_0.len() <= u64::MAX,
        stands_at(b, pos, table(exports_code(indices, items)->Ok_0, indices.len(), Seq::empty())),
    ensures
        table(exports_code(indices, items)->Ok_0, indices.len(), Seq::empty()).len() == 16
            + exports_code(indices, items)->Ok_0.len(),
        parse_table_header(b, pos) == Some(
            ((exports_code(indices, items)->Ok_0.len() as u64, indices.len() as u64), pos + 16),
        ),
        parse_seq(export_parser(), b, pos + 16, indices.len()) == Some(
            (image_exports(indices, items), pos + 16 + exports_code(indices, items)->Ok_0.len()),
        ),
{
    lemma_table_read(b, pos, exports_code(indices, items)->Ok_0, indices.len(), Seq::empty());
    lemma_exports_read(indices, items, b, pos + 16);
}

/// A table of structs that was written is read again.
pub proof fn lemma_struct_table_read(all: Seq<StructSpec>, b: Seq<u8>, pos: int)
    requires
        all.len() <= usize::MAX,
        forall|i: int| 0 <= i < all.len() ==> struct_fits(#[trigger] all[i]),
        struct_records(all, all) is Ok,
        struct_records(all, all)->Ok_0.offsets.len() <= u64::MAX,
        stands_at(
            b,
            pos,
            table(
                struct_records(all, all)->Ok_0.offsets,
                struct_records(all, all)->Ok_0.count,
                struct_records(all, all)->Ok_0.bytes,
            ),
        ),
    ensures
        ({
            let r = struct_records(all, all)->Ok_0;
            &&& table(r.offsets, r.count, r.bytes).len() == 16 + r.offsets.len() + r.bytes.len()
            &&& parse_offsets(b, pos) == Some((all.len() as u64, pos + 16 + r.offsets.len()))
            &&& parse_seq(struct_parser(), b, pos + 16 + r.offsets.len(), all.len()) == Some(
                (image_structs(all, all), pos + 16 + r.offsets.len() + r.bytes.len()),
            )
        }),
{
    let r = struct_records(all, all)->Ok_0;
    lemma_struct_records_count(all, all);
    lemma_table_read(b, pos, r.offsets, r.count, r.bytes);
    lemma_struct_records_read(all, all, b, pos + 16 + r.offsets.len());
}

/// A table of function headers that was written is read again.
pub proof fn lemma_header_table_read(
    all: Seq<StructSpec>,
    functions: Seq<FunctionSpec>,
    b: Seq<u8>,
    pos: int,
)
    requires
        all.len() <= usize::MAX,
        functions.len() <= u64::MAX,
        forall|i: int| 0 <= i < functions.len() ==> function_fits(#[trigger] functions[i]),
        header_records(all, functions) is Ok,
        header_records(all, functions)->Ok_0.offsets.len() <= u64::MAX,
        stands_at(
            b,
            pos,
            table(
                header_records(all, functions)->Ok_0.offsets,
                header_records(all, functions)->Ok_0.count,
                header_records(all, functions)->Ok_0.bytes,
            ),
        ),
    ensures
        ({
            let r = header_records(all, functions)->Ok_0;
            &&& table(r.offsets, r.count, r.bytes).len() == 16 + r.offsets.len() + r.bytes.len()
            &&& parse_offsets(b, pos) == Some((functions.len() as u64, pos + 16 + r.offsets.len()))
            &&& parse_seq(function_parser(), b, pos + 16 + r.offsets.len(), functions.len())
                == Some(
                (image_functions(all, functions), pos + 16 + r.offsets.len() + r.bytes.len()),
            )
        }),
{
    let r = header_records(all, functions)->Ok_0;
    lemma_header_records_count(all, functions);
    lemma_table_read(b, pos, r.offsets, r.count, r.bytes);
    lemma_header_records_read(all, functions, b, pos + 16 + r.offsets.len());
}

/// The four tables up to the function headers.
pub struct HeadTables {
    pub export_structs: Seq<u8>,
    pub export_functions: Seq<u8>,
    pub structs: Seq<u8>,
    pub functions: Seq<u8>,
}

/// The four tables up to the function headers of the image of `a`.
pub open spec fn head_tables(a: AssemblyModel) -> HeadTables {
    let e1 = exports_code(a.export_structs, struct_heads(a.structs))->Ok_0;
    let e2 = exports_code(a.export_functions, function_heads(a.functions))->Ok_0;
    let r3 = struct_records(a.structs, a.structs)->Ok_0;
    let r4 = header_records(a.structs, a.functions)->Ok_0;
    HeadTables {
        export_structs: table(e1, a.export_structs.len(), Seq::empty()),
        export_functions: table(e2, a.export_functions.len(), Seq::empty()),
        structs: table(r3.offsets, r3.count, r3.bytes),
        functions: table(r4.offsets, r4.count, r4.bytes),
    }
}

/// The image of an assembly is its magic, its four tables up to the
/// function headers, and the tables behind them.
pub proof fn lemma_image_pieces(a: AssemblyModel, rules: Seq<OpRule>)
    requires
        image_of(a, rules) is Ok,
    ensures
        exports_code(a.export_structs, struct_heads(a.structs)) is Ok,
        exports_code(a.export_functions, function_heads(a.functions)) is Ok,
        struct_records(a.structs, a.structs) is Ok,
        header_records(a.structs, a.functions) is Ok,
        image_tail(a, rules) is Ok,
        image_of(a, rules)->Ok_0 == a.magic + head_tables(a).export_structs + head_tables(
            a,
        ).export_functions + head_tables(a).structs + head_tables(a).functions + image_tail(
            a,
            rules,
        )->Ok_0,
{
}

/// The places behind the four tables up to the function headers.
pub struct HeadPlaces {
    pub p2: int,
    pub p4: int,
    pub p6: int,
    pub p8: int,
}

pub open spec fn head_places(a: AssemblyModel) -> HeadPlaces {
    let t = head_tables(a);
    let p2: int = 4int + t.export_structs.len();
    let p4: int = p2 + t.export_functions.len();
    let p6: int = p4 + t.structs.len();
    let p8: int = p6 + t.functions.len();
    HeadPlaces { p2, p4, p6, p8 }
}

/// What `head_fits` says, part by part.
pub proof fn lemma_head_fits(a: AssemblyModel)
    requires
        head_fits(a),
    ensures
        a.structs.len() <= usize::MAX,
        a.functions.len() <= u64::MAX,
        a.export_structs.len() <= u64::MAX,
        a.export_functions.len() <= u64::MAX,
        exports_code(a.export_structs, struct_heads(a.structs))->Ok_0.len() <= u64::MAX,
        exports_code(a.export_functions, function_heads(a.functions))->Ok_0.len() <= u64::MAX,
        struct_records(a.structs, a.structs)->Ok_0.offsets.len() <= u64::MAX,
        header_records(a.structs, a.functions)->Ok_0.offsets.len() <= u64::MAX,
        exports_fit(a.export_structs, struct_heads(a.structs)),
        exports_fit(a.export_functions, function_heads(a.functions)),
        forall|i: int| 0 <= i < a.structs.len() ==> struct_fits(#[trigger] a.structs[i]),
        forall|i: int| 0 <= i < a.functions.len() ==> function_fits(#[trigger] a.functions[i]),
{
    reveal(head_fits);
}

/// The two tables of exported names that were written are read again.
pub proof fn lemma_head_exports_read(a: AssemblyModel, rest: Seq<u8>, b: Seq<u8>)
    requires
        head_fits(a),
        a.magic.len() == 4,
        exports_code(a.export_structs, struct_heads(a.structs)) is Ok,
        exports_code(a.export_functions, function_heads(a.functions)) is Ok,
        b == a.magic + head_tables(a).export_structs + head_tables(a).export_functions
            + head_tables(a).structs + head_tables(a).functions + rest,
    ensures
        b.subrange(0, 4) == a.magic,
        b.len() >= 4,
        parse_table_header(b, 4) matches Some(h) && h.0.1 == a.export_structs.len() && h.1 == 20,
        a.export_structs.len() <= u64::MAX,
        parse_seq(export_parser(), b, 20, a.export_structs.len()) == Some(
            (image_exports(a.export_structs, struct_heads(a.structs)), head_places(a).p2),
        ),
        parse_table_header(b, head_places(a).p2) matches Some(h) && h.0.1
            == a.export_functions.len() && h.1 == head_places(a).p2 + 16,
        a.export_functions.len() <= u64::MAX,
        parse_seq(export_parser(), b, head_places(a).p2 + 16, a.export_functions.len()) == Some(
            (image_exports(a.export_functions, function_heads(a.functions)), head_places(a).p4),
        ),
{
    let t = head_tables(a);
    let p = head_places(a);
    lemma_six_pieces(b, a.magic, t.export_structs, t.export_functions, t.structs, t.functions, rest);
    lemma_head_fits(a);
    lemma_export_table_read(a.export_structs, struct_heads(a.structs), b, 4);
    lemma_export_table_read(a.export_functions, function_heads(a.functions), b, p.p2);
}

/// The tables of structs and of function headers that were written are
/// read again, and behind them stands what was written behind them.
pub proof fn lemma_head_records_read(a: AssemblyModel, rest: Seq<u8>, b: Seq<u8>)
    requires
        head_fits(a),
        a.magic.len() == 4,
        struct_records(a.structs, a.structs) is Ok,
        header_records(a.structs, a.functions) is Ok,
        b == a.magic + head_tables(a).export_structs + head_tables(a).export_functions
            + head_tables(a).structs + head_tables(a).functions + rest,
    ensures
        parse_offsets(b, head_places(a).p4) matches Some(h) && h.0 == a.structs.len() && parse_seq(
            struct_parser(),
            b,
            h.1,
            a.structs.len(),
        ) == Some((image_structs(a.structs, a.structs), head_places(a).p6)),
        a.structs.len() <= u64::MAX,
        parse_offsets(b, head_places(a).p6) matches Some(h) && h.0 == a.functions.len()
            && parse_seq(function_parser(), b, h.1, a.functions.len()) == Some(
            (image_functions(a.structs, a.functions), head_places(a).p8),
        ),
        a.functions.len() <= u64::MAX,
        stands_at(b, head_places(a).p8, rest),
{
    let t = head_tables(a);
    let p = head_places(a);
    lemma_six_pieces(b, a.magic, t.export_structs, t.export_functions, t.structs, t.functions, rest);
    lemma_head_fits(a);
    lemma_struct_table_read(a.structs, b, p.p4);
    lemma_header_table_read(a.structs, a.functions, b, p.p6);
}

/// The image that the encoder gives for an assembly is read by the
/// decoder as `decoded_image` says: the decoder reads every table that
/// the encoder wrote, as it was written.
pub proof fn lemma_image_read(a: AssemblyModel, rules: Seq<OpRule>)
    requires
        a.magic == image_magic(),
        image_of(a, rules) is Ok,
        head_fits(a),
        tail_fits(a, rules),
    ensures
        parse_image(image_of(a, rules)->Ok_0) == Some(decoded_image(a, rules)),
{
    let b = image_of(a, rules)->Ok_0;
    let tail = image_tail(a, rules)->Ok_0;
    let model = decoded_image(a, rules);
    let p = head_places(a);
    lemma_image_pieces(a, rules);
    assert(a.magic.len() == 4);
    lemma_head_exports_read(a, tail, b);
    lemma_head_records_read(a, tail, b);
    lemma_tail_read(
        a,
        rules,
        b,
        p.p8,
        model.export_structs,
        model.export_functions,
        model.structs,
        model.functions,
    );
    lemma_tables_chain(b, a, p.p2, p.p4, p.p6, p.p8, model);
}

/// Where each table is read at its place, the tables are read.
pub proof fn lemma_tables_chain(
    b: Seq<u8>,
    a: AssemblyModel,
    p2: int,
    p4: int,
    p6: int,
    p8: int,
    model: ImageModel,
)
    requires
        parse_table_header(b, 4) matches Some(h) && h.0.1 == a.export_structs.len() && h.1 == 20,
        a.export_structs.len() <= u64::MAX,
        parse_seq(export_parser(), b, 20, a.export_structs.len()) == Some(
            (model.export_structs, p2),
        ),
        parse_table_header(b, p2) matches Some(h) && h.0.1 == a.export_functions.len() && h.1
            == p2 + 16,
        a.export_functions.len() <= u64::MAX,
        parse_seq(export_parser(), b, p2 + 16, a.export_functions.len()) == Some(
            (model.export_functions, p4),
        ),
        parse_offsets(b, p4) matches Some(h) && h.0 == a.structs.len() && parse_seq(
            struct_parser(),
            b,
            h.1,
            a.structs.len(),
        ) == Some((model.structs, p6)),
        a.structs.len() <= u64::MAX,
        parse_offsets(b, p6) matches Some(h) && h.0 == a.functions.len() && parse_seq(
            function_parser(),
            b,
            h.1,
            a.functions.len(),
        ) == Some((model.functions, p8)),
        a.functions.len() <= u64::MAX,
        parse_tables_tail(
            b,
            p8,
            model.export_structs,
            model.export_functions,
            model.structs,
            model.functions,
        ) == Some(model),
    ensures
        parse_tables(b, 4) == Some(model),
{
}

/// The image that the encoder gives for a program is an image that the
/// decoder accepts, and the decoder reads from it the tables of the
/// assembly of the program: what was encoded is decoded.
pub proof fn lemma_encoded_decodes(program: Program, rules: Seq<OpRule>)
    requires
        program.magic@ == image_magic(),
        encoded(program, rules) is Ok,
        head_fits(assembled(program)->Ok_0),
        tail_fits(assembled(program)->Ok_0, rules),
    ensures
        parse_image(encoded(program, rules)->Ok_0) == Some(
            decoded_image(assembled(program)->Ok_0, rules),
        ),
{
    lemma_image_read(assembled(program)->Ok_0, rules);
}

} // verus!
