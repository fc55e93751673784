//! The encoder: from the assembly of a program to the bytes of its
//! image.

use crate::assembly::{
    built, fail, specs, Function, FunctionSpec, Struct, StructSpec, Variable, VariableSpec,
};
use crate::consts::{collect_data, functions_data, no_data, ConstTable, DataCollector};
use crate::emit::{
    function_to_header_bytes, header_code, put_bytes, put_size, put_text, put_u64, put_u8,
    struct_code, struct_to_bytes, text_code, word, written,
};
use crate::error::{ErrorKind, SimpleResult};
use crate::link::{assembled, Assembly, AssemblyModel};
use crate::lower::{lemma_values_code_fwd_fails, value_code, values_code_fwd};
use crate::names::{lookup, NameTable};
use crate::opnames::{collect_ops, functions_ops, no_ops, OpsCollector};
use crate::program::{BlockOp, OpRule, Operation, OpsDescriptor, Program as CoreProgram, Value};
use crate::types::{Ctx, Scope};
use vstd::prelude::*;

verus! {

/// The code of the values `vs` as targets of an operation: each value,
/// then `StoreTargetAddress`.
pub open spec fn targets_code(ctx: Ctx, vs: Seq<Value>) -> Result<Seq<u8>, ErrorKind>
    decreases vs.len(),
{
    if vs.len() == 0 {
        Ok(Seq::empty())
    } else {
        match targets_code(ctx, vs.drop_last()) {
            Err(e) => Err(e),
            Ok(before) => match value_code(ctx, vs.last()) {
                Err(e) => Err(e),
                Ok(code) => Ok(before + code + seq![9u8]),
            },
        }
    }
}

pub proof fn lemma_targets_code_fails(ctx: Ctx, vs: Seq<Value>, k: int)
    requires
        0 <= k <= vs.len(),
        targets_code(ctx, vs.take(k)) is Err,
    ensures
        targets_code(ctx, vs) == targets_code(ctx, vs.take(k)),
    decreases vs.len(),
{
    if k == vs.len() {
        assert(vs.take(k) =~= vs);
    } else {
        assert(vs.drop_last().take(k) =~= vs.take(k));
        lemma_targets_code_fails(ctx, vs.drop_last(), k);
    }
}

/// The code of an operation: `ExecuteOpStart`, the targets, the
/// parameters, `ExecuteOpStop` and the index of the operation. Fails
/// with `Resolution` where the operation has no index, and as the
/// values fail.
#[verifier::opaque]
pub open spec fn operation_code(ctx: Ctx, o: Operation) -> Result<Seq<u8>, ErrorKind> {
    match targets_code(ctx, o.targets@) {
        Err(e) => Err(e),
        Ok(targets) => match stored_params(ctx, o.params@) {
            Err(e) => Err(e),
            Ok(params) => match lookup(ctx.ops, o.id@) {
                Some((index, _)) => Ok(
                    seq![11u8] + targets + params + seq![12u8] + word(index as nat),
                ),
                None => Err(ErrorKind::Resolution),
            },
        },
    }
}

/// The code of the values `vs` as parameters of an operation: each
/// value, then `StoreParamAddress`.
pub open spec fn stored_params(ctx: Ctx, vs: Seq<Value>) -> Result<Seq<u8>, ErrorKind>
    decreases vs.len(),
{
    if vs.len() == 0 {
        Ok(Seq::empty())
    } else {
        match stored_params(ctx, vs.drop_last()) {
            Err(e) => Err(e),
            Ok(before) => match value_code(ctx, vs.last()) {
                Err(e) => Err(e),
                Ok(code) => Ok(before + code + seq![10u8]),
            },
        }
    }
}

pub proof fn lemma_stored_params_fails(ctx: Ctx, vs: Seq<Value>, k: int)
    requires
        0 <= k <= vs.len(),
        stored_params(ctx, vs.take(k)) is Err,
    ensures
        stored_params(ctx, vs) == stored_params(ctx, vs.take(k)),
    decreases vs.len(),
{
    if k == vs.len() {
        assert(vs.take(k) =~= vs);
    } else {
        assert(vs.drop_last().take(k) =~= vs.take(k));
        lemma_stored_params_fails(ctx, vs.drop_last(), k);
    }
}

/// The labels and the code of a body, as far as it was lowered.
pub struct BodyState {
    pub labels: Seq<u8>,
    pub label_count: nat,
    pub code: Seq<u8>,
    pub op_count: nat,
}

/// The labels and the code of the steps `body`: a label is entered with
/// the offset that the code has reached, an operation adds its code.
pub open spec fn body_code(ctx: Ctx, body: Seq<BlockOp>) -> Result<BodyState, ErrorKind>
    decreases body.len(),
{
    if body.len() == 0 {
        Ok(BodyState { labels: Seq::empty(), label_count: 0, code: Seq::empty(), op_count: 0 })
    } else {
        match body_code(ctx, body.drop_last()) {
            Err(e) => Err(e),
            Ok(st) => match body.last() {
                BlockOp::Label(name) => Ok(
                    BodyState {
                        labels: st.labels + text_code(name@) + word(st.code.len()),
                        label_count: st.label_count + 1,
                        ..st
                    },
                ),
                BlockOp::Operation(o) => match operation_code(ctx, o) {
                    Err(e) => Err(e),
                    Ok(code) => Ok(
                        BodyState { code: st.code + code, op_count: st.op_count + 1, ..st },
                    ),
                },
            },
        }
    }
}

pub proof fn lemma_body_code_fails(ctx: Ctx, body: Seq<BlockOp>, k: int)
    requires
        0 <= k <= body.len(),
        body_code(ctx, body.take(k)) is Err,
    ensures
        body_code(ctx, body) == body_code(ctx, body.take(k)),
    decreases body.len(),
{
    if k == body.len() {
        assert(body.take(k) =~= body);
    } else {
        assert(body.drop_last().take(k) =~= body.take(k));
        lemma_body_code_fails(ctx, body.drop_last(), k);
    }
}

pub proof fn lemma_body_code_counts(ctx: Ctx, body: Seq<BlockOp>)
    ensures
        body_code(ctx, body) matches Ok(st) ==> st.label_count <= body.len() && st.op_count
            <= body.len(),
    decreases body.len(),
{
    if body.len() > 0 {
        lemma_body_code_counts(ctx, body.drop_last());
    }
}

/// The bytes of the body of the function of `ctx`: the length of the
/// labels, their number, the labels, the length of the code, the number
/// of operations, the code.
pub open spec fn body_bytes(ctx: Ctx) -> Result<Seq<u8>, ErrorKind> {
    match body_code(ctx, ctx.function.body) {
        Err(e) => Err(e),
        Ok(st) => Ok(
            word(st.labels.len()) + word(st.label_count) + st.labels + word(st.code.len()) + word(
                st.op_count,
            ) + st.code,
        ),
    }
}

impl<'s, 'a> Scope<'s, 'a> {
    fn write_targets(&self, vs: &Vec<Value>, out: &mut Vec<u8>) -> (r: SimpleResult<()>)
        ensures
            written(r, old(out)@, final(out)@, targets_code(self@, vs@)),
    {
        let mut i: usize = 0;
        proof {
            assert(vs@.take(0) =~= Seq::<Value>::empty());
            assert(out@ =~= old(out)@ + Seq::<u8>::empty());
        }
        while i < vs.len()
            invariant
                i <= vs@.len(),
                targets_code(self@, vs@.take(i as int)) matches Ok(code) && out@ == old(out)@ + code,
            decreases vs@.len() - i,
        {
            proof {
                assert(vs@.take(i + 1).drop_last() =~= vs@.take(i as int));
                assert(vs@.take(i + 1).last() == vs@[i as int]);
            }
            let ghost done = targets_code(self@, vs@.take(i as int))->Ok_0;
            match self.write_core_value(&vs[i], out) {
                Ok(_) => {},
                Err(e) => {
                    proof {
                        assert(targets_code(self@, vs@.take(i + 1)) is Err);
                        lemma_targets_code_fails(self@, vs@, i + 1);
                    }
                    return Err(e);
                },
            }
            put_u8(out, 9);
            assert(out@ =~= old(out)@ + (done + value_code(self@, vs@[i as int])->Ok_0 + seq![9u8]));
            i = i + 1;
        }
        assert(vs@.take(i as int) =~= vs@);
        Ok(())
    }

    fn write_params(&self, vs: &Vec<Value>, out: &mut Vec<u8>) -> (r: SimpleResult<()>)
        ensures
            written(r, old(out)@, final(out)@, stored_params(self@, vs@)),
    {
        let mut i: usize = 0;
        proof {
            assert(vs@.take(0) =~= Seq::<Value>::empty());
            assert(out@ =~= old(out)@ + Seq::<u8>::empty());
        }
        while i < vs.len()
            invariant
                i <= vs@.len(),
                stored_params(self@, vs@.take(i as int)) matches Ok(code) && out@ == old(out)@
                    + code,
            decreases vs@.len() - i,
        {
            proof {
                assert(vs@.take(i + 1).drop_last() =~= vs@.take(i as int));
                assert(vs@.take(i + 1).last() == vs@[i as int]);
            }
            let ghost done = stored_params(self@, vs@.take(i as int))->Ok_0;
            match self.write_core_value(&vs[i], out) {
                Ok(_) => {},
                Err(e) => {
                    proof {
                        assert(stored_params(self@, vs@.take(i + 1)) is Err);
                        lemma_stored_params_fails(self@, vs@, i + 1);
                    }
                    return Err(e);
                },
            }
            put_u8(out, 10);
            assert(out@ =~= old(out)@ + (done + value_code(self@, vs@[i as int])->Ok_0 + seq![
                10u8,
            ]));
            i = i + 1;
        }
        assert(vs@.take(i as int) =~= vs@);
        Ok(())
    }

    /// Writes the code of the operation `o`.
    pub fn write_operation(&self, o: &Operation, out: &mut Vec<u8>) -> (r: SimpleResult<()>)
        ensures
            written(r, old(out)@, final(out)@, operation_code(self@, *o)),
    {
        reveal(operation_code);
        put_u8(out, 11);
        self.write_targets(&o.targets, out)?;
        self.write_params(&o.params, out)?;
        put_u8(out, 12);
        let index = match self.ops.get(o.id.as_str()) {
            Some(entry) => entry.0,
            None => {
                return fail(ErrorKind::Resolution, "an operation has no index");
            },
        };
        put_u64(out, index);
        assert(out@ =~= old(out)@ + operation_code(self@, *o)->Ok_0);
        Ok(())
    }

    /// The bytes of the body of the function: what `body_bytes` says.
    pub fn to_body_bytes(&self) -> (r: SimpleResult<Vec<u8>>)
        ensures
            match body_bytes(self@) {
                Ok(code) => r matches Ok(bytes) && bytes@ == code,
                Err(kind) => r matches Err(e) && e.kind == kind,
            },
    {
        let ghost ctx = self@;
        let ghost body = ctx.function.body;
        let mut labels: Vec<u8> = Vec::new();
        let mut code: Vec<u8> = Vec::new();
        let mut label_count: usize = 0;
        let mut op_count: usize = 0;
        let n = self.function.body_len();
        let mut i: usize = 0;
        assert(body.take(0) =~= Seq::<BlockOp>::empty());
        while i < n
            invariant
                i <= n,
                n == body.len(),
                ctx == self@,
                body == self.function@.body,
                label_count <= i,
                op_count <= i,
                body_code(ctx, body.take(i as int)) == Ok::<BodyState, ErrorKind>(
                    BodyState {
                        labels: labels@,
                        label_count: label_count as nat,
                        code: code@,
                        op_count: op_count as nat,
                    },
                ),
            decreases n - i,
        {
            proof {
                assert(body.take(i + 1).drop_last() =~= body.take(i as int));
                assert(body.take(i + 1).last() == body[i as int]);
            }
            match self.function.body_op(i) {
                BlockOp::Operation(o) => {
                    match self.write_operation(o, &mut code) {
                        Ok(_) => {},
                        Err(e) => {
                            proof {
                                assert(body_code(ctx, body.take(i + 1)) is Err);
                                lemma_body_code_fails(ctx, body, i + 1);
                            }
                            return Err(e);
                        },
                    }
                    op_count = op_count + 1;
                },
                BlockOp::Label(name) => {
                    put_text(&mut labels, name.as_str());
                    put_size(&mut labels, code.len());
                    label_count = label_count + 1;
                },
            }
            i = i + 1;
        }
        assert(body.take(i as int) =~= body);
        let mut out: Vec<u8> = Vec::new();
        put_size(&mut out, labels.len());
        put_size(&mut out, label_count);
        put_bytes(&mut out, labels.as_slice());
        put_size(&mut out, code.len());
        put_size(&mut out, op_count);
        put_bytes(&mut out, code.as_slice());
        assert(out@ =~= body_bytes(ctx)->Ok_0);
        Ok(out)
    }
}

// ---------------------------------------------------------------------------
// Tables
// ---------------------------------------------------------------------------

/// The offsets of the globals: each global at the sum of the sizes of
/// those before it; and the sum of all sizes. Fails with `TypeError`
/// where the sum exceeds 64 bits.
pub open spec fn globals_laid(globals: Seq<VariableSpec>) -> Result<
    (Seq<(Seq<char>, u64)>, u64),
    ErrorKind,
>
    decreases globals.len(),
{
    if globals.len() == 0 {
        Ok((Seq::empty(), 0))
    } else {
        match globals_laid(globals.drop_last()) {
            Err(e) => Err(e),
            Ok((table, total)) => if total + globals.last().size > u64::MAX {
                Err(ErrorKind::TypeError)
            } else {
                Ok(
                    (
                        table.push((globals.last().id, total)),
                        (total + globals.last().size) as u64,
                    ),
                )
            },
        }
    }
}

pub proof fn lemma_globals_laid_fails(globals: Seq<VariableSpec>, k: int)
    requires
        0 <= k <= globals.len(),
        globals_laid(globals.take(k)) is Err,
    ensures
        globals_laid(globals) == globals_laid(globals.take(k)),
    decreases globals.len(),
{
    if k == globals.len() {
        assert(globals.take(k) =~= globals);
    } else {
        assert(globals.drop_last().take(k) =~= globals.take(k));
        lemma_globals_laid_fails(globals.drop_last(), k);
    }
}

/// The offsets of the globals.
pub fn lay_globals(globals: &[Variable]) -> (r: SimpleResult<(NameTable<u64>, u64)>)
    ensures
        match globals_laid(specs(globals@)) {
            Ok((table, total)) => r matches Ok(x) && x.0@ == table && x.1 == total,
            Err(kind) => r matches Err(e) && e.kind == kind,
        },
{
    let ghost all = specs(globals@);
    let mut table: NameTable<u64> = NameTable::new();
    let mut total: u64 = 0;
    let mut i: usize = 0;
    assert(all.take(0) =~= Seq::<VariableSpec>::empty());
    while i < globals.len()
        invariant
            i <= globals@.len(),
            all == specs(globals@),
            globals_laid(all.take(i as int)) == Ok::<(Seq<(Seq<char>, u64)>, u64), ErrorKind>(
                (table@, total),
            ),
        decreases globals@.len() - i,
    {
        proof {
            assert(all.take(i + 1).drop_last() =~= all.take(i as int));
            assert(all.take(i + 1).last() == globals@[i as int]@);
        }
        let next = match total.checked_add(globals[i].size() as u64) {
            Some(n) => n,
            None => {
                proof {
                    assert(globals_laid(all.take(i + 1)) is Err);
                    lemma_globals_laid_fails(all, i + 1);
                }
                return fail(ErrorKind::TypeError, "the globals exceed what the image can hold");
            },
        };
        table.insert(globals[i].id().to_owned(), total);
        total = next;
        i = i + 1;
    }
    assert(all.take(i as int) =~= all);
    Ok((table, total))
}

/// The bytes of a table of exported names: for each index the index of
/// the item and its name. Fails with `Resolution` where an index has no
/// item.
pub open spec fn exports_code(indices: Seq<usize>, items: Seq<(usize, Seq<char>)>) -> Result<
    Seq<u8>,
    ErrorKind,
>
    decreases indices.len(),
{
    if indices.len() == 0 {
        Ok(Seq::empty())
    } else {
        match exports_code(indices.drop_last(), items) {
            Err(e) => Err(e),
            Ok(before) => if indices.last() < items.len() {
                Ok(
                    before + word(items[indices.last() as int].0 as nat) + text_code(
                        items[indices.last() as int].1,
                    ),
                )
            } else {
                Err(ErrorKind::Resolution)
            },
        }
    }
}

pub proof fn lemma_exports_code_fails(indices: Seq<usize>, items: Seq<(usize, Seq<char>)>, k: int)
    requires
        0 <= k <= indices.len(),
        exports_code(indices.take(k), items) is Err,
    ensures
        exports_code(indices, items) == exports_code(indices.take(k), items),
    decreases indices.len(),
{
    if k == indices.len() {
        assert(indices.take(k) =~= indices);
    } else {
        assert(indices.drop_last().take(k) =~= indices.take(k));
        lemma_exports_code_fails(indices.drop_last(), items, k);
    }
}

pub open spec fn struct_heads(s: Seq<StructSpec>) -> Seq<(usize, Seq<char>)> {
    Seq::new(s.len(), |i: int| (s[i].index, s[i].id))
}

pub open spec fn function_heads(s: Seq<FunctionSpec>) -> Seq<(usize, Seq<char>)> {
    Seq::new(s.len(), |i: int| (s[i].index, s[i].id))
}

fn export_structs_bytes(indices: &[usize], structs: &[Struct]) -> (r: SimpleResult<Vec<u8>>)
    ensures
        match exports_code(indices@, struct_heads(specs(structs@))) {
            Ok(code) => r matches Ok(bytes) && bytes@ == code,
            Err(kind) => r matches Err(e) && e.kind == kind,
        },
{
    let ghost items = struct_heads(specs(structs@));
    let mut out: Vec<u8> = Vec::new();
    let mut i: usize = 0;
    assert(indices@.take(0) =~= Seq::<usize>::empty());
    while i < indices.len()
        invariant
            i <= indices@.len(),
            items == struct_heads(specs(structs@)),
            exports_code(indices@.take(i as int), items) == Ok::<Seq<u8>, ErrorKind>(out@),
        decreases indices@.len() - i,
    {
        proof {
            assert(indices@.take(i + 1).drop_last() =~= indices@.take(i as int));
            assert(indices@.take(i + 1).last() == indices@[i as int]);
        }
        let k = indices[i];
        if k >= structs.len() {
            proof {
                assert(exports_code(indices@.take(i + 1), items) is Err);
                lemma_exports_code_fails(indices@, items, i + 1);
            }
            return fail(ErrorKind::Resolution, "an exported struct is not there");
        }
        assert(items[k as int] == (structs@[k as int]@.index, structs@[k as int]@.id));
        put_size(&mut out, structs[k].index());
        put_text(&mut out, structs[k].id());
        i = i + 1;
    }
    assert(indices@.take(i as int) =~= indices@);
    Ok(out)
}

fn export_functions_bytes(indices: &[usize], functions: &[Function]) -> (r: SimpleResult<Vec<u8>>)
    ensures
        match exports_code(indices@, function_heads(specs(functions@))) {
            Ok(code) => r matches Ok(bytes) && bytes@ == code,
            Err(kind) => r matches Err(e) && e.kind == kind,
        },
{
    let ghost items = function_heads(specs(functions@));
    let mut out: Vec<u8> = Vec::new();
    let mut i: usize = 0;
    assert(indices@.take(0) =~= Seq::<usize>::empty());
    while i < indices.len()
        invariant
            i <= indices@.len(),
            items == function_heads(specs(functions@)),
            exports_code(indices@.take(i as int), items) == Ok::<Seq<u8>, ErrorKind>(out@),
        decreases indices@.len() - i,
    {
        proof {
            assert(indices@.take(i + 1).drop_last() =~= indices@.take(i as int));
            assert(indices@.take(i + 1).last() == indices@[i as int]);
        }
        let k = indices[i];
        if k >= functions.len() {
            proof {
                assert(exports_code(indices@.take(i + 1), items) is Err);
                lemma_exports_code_fails(indices@, items, i + 1);
            }
            return fail(ErrorKind::Resolution, "an exported function is not there");
        }
        assert(items[k as int] == (functions@[k as int]@.index, functions@[k as int]@.id));
        put_size(&mut out, functions[k].index());
        put_text(&mut out, functions[k].id());
        i = i + 1;
    }
    assert(indices@.take(i as int) =~= indices@);
    Ok(out)
}

/// The records of a table, each with the index of its item, and the
/// table of their offsets.
pub struct Records {
    /// For each record the index of its item and its offset among the
    /// records.
    pub offsets: Seq<u8>,
    /// The records, one after the other.
    pub bytes: Seq<u8>,
    pub count: nat,
}

/// The records with one more: `code` behind `prefix`, for the item of the
/// index `index`.
pub open spec fn record_added(r: Records, index: usize, code: Seq<u8>, prefix: Seq<u8>) -> Records {
    Records {
        offsets: r.offsets + word(index as nat) + word(r.bytes.len()),
        bytes: r.bytes + prefix + code,
        count: r.count + 1,
    }
}

pub open spec fn no_records() -> Records {
    Records { offsets: Seq::empty(), bytes: Seq::empty(), count: 0 }
}

/// The records of the structs `structs`.
pub open spec fn struct_records(all: Seq<StructSpec>, structs: Seq<StructSpec>) -> Result<
    Records,
    ErrorKind,
>
    decreases structs.len(),
{
    if structs.len() == 0 {
        Ok(no_records())
    } else {
        match struct_records(all, structs.drop_last()) {
            Err(e) => Err(e),
            Ok(r) => match struct_code(all, structs.last()) {
                Err(e) => Err(e),
                Ok(code) => Ok(record_added(r, structs.last().index, code, Seq::empty())),
            },
        }
    }
}

/// The records of the headers of the functions `functions`.
pub open spec fn header_records(all: Seq<StructSpec>, functions: Seq<FunctionSpec>) -> Result<
    Records,
    ErrorKind,
>
    decreases functions.len(),
{
    if functions.len() == 0 {
        Ok(no_records())
    } else {
        match header_records(all, functions.drop_last()) {
            Err(e) => Err(e),
            Ok(r) => match header_code(all, functions.last()) {
                Err(e) => Err(e),
                Ok(code) => Ok(record_added(r, functions.last().index, code, Seq::empty())),
            },
        }
    }
}

/// The records of the bodies of the functions `functions`, each behind
/// its length.
pub open spec fn body_records(base: Ctx, functions: Seq<FunctionSpec>) -> Result<Records, ErrorKind>
    decreases functions.len(),
{
    if functions.len() == 0 {
        Ok(no_records())
    } else {
        match body_records(base, functions.drop_last()) {
            Err(e) => Err(e),
            Ok(r) => match body_bytes(Ctx { function: functions.last(), ..base }) {
                Err(e) => Err(e),
                Ok(code) => Ok(record_added(r, functions.last().index, code, word(code.len()))),
            },
        }
    }
}

pub proof fn lemma_struct_records_fails(all: Seq<StructSpec>, structs: Seq<StructSpec>, k: int)
    requires
        0 <= k <= structs.len(),
        struct_records(all, structs.take(k)) is Err,
    ensures
        struct_records(all, structs) == struct_records(all, structs.take(k)),
    decreases structs.len(),
{
    if k == structs.len() {
        assert(structs.take(k) =~= structs);
    } else {
        assert(structs.drop_last().take(k) =~= structs.take(k));
        lemma_struct_records_fails(all, structs.drop_last(), k);
    }
}

pub proof fn lemma_header_records_fails(all: Seq<StructSpec>, functions: Seq<FunctionSpec>, k: int)
    requires
        0 <= k <= functions.len(),
        header_records(all, functions.take(k)) is Err,
    ensures
        header_records(all, functions) == header_records(all, functions.take(k)),
    decreases functions.len(),
{
    if k == functions.len() {
        assert(functions.take(k) =~= functions);
    } else {
        assert(functions.drop_last().take(k) =~= functions.take(k));
        lemma_header_records_fails(all, functions.drop_last(), k);
    }
}

pub proof fn lemma_body_records_fails(base: Ctx, functions: Seq<FunctionSpec>, k: int)
    requires
        0 <= k <= functions.len(),
        body_records(base, functions.take(k)) is Err,
    ensures
        body_records(base, functions) == body_records(base, functions.take(k)),
    decreases functions.len(),
{
    if k == functions.len() {
        assert(functions.take(k) =~= functions);
    } else {
        assert(functions.drop_last().take(k) =~= functions.take(k));
        lemma_body_records_fails(base, functions.drop_last(), k);
    }
}

/// The records of a table as the encoder holds them.
pub struct RecordList {
    pub offsets: Vec<u8>,
    pub bytes: Vec<u8>,
    pub count: usize,
}

impl View for RecordList {
    type V = Records;

    open spec fn view(&self) -> Records {
        Records { offsets: self.offsets@, bytes: self.bytes@, count: self.count as nat }
    }
}

impl RecordList {
    fn new() -> (r: Self)
        ensures
            r@ == no_records(),
    {
        RecordList { offsets: Vec::new(), bytes: Vec::new(), count: 0 }
    }

    fn add(&mut self, index: usize, code: &[u8], with_length: bool)
        requires
            old(self).count < usize::MAX,
        ensures
            final(self)@ == record_added(
                old(self)@,
                index,
                code@,
                if with_length {
                    word(code@.len())
                } else {
                    Seq::empty()
                },
            ),
    {
        put_size(&mut self.offsets, index);
        put_size(&mut self.offsets, self.bytes.len());
        if with_length {
            put_size(&mut self.bytes, code.len());
        }
        put_bytes(&mut self.bytes, code);
        self.count = self.count + 1;
        assert(self.offsets@ =~= old(self).offsets@ + word(index as nat) + word(
            old(self).bytes@.len(),
        ));
        assert(self.bytes@ =~= old(self).bytes@ + (if with_length {
            word(code@.len())
        } else {
            Seq::empty()
        }) + code@);
    }
}

fn struct_records_of(structs: &[Struct]) -> (r: SimpleResult<RecordList>)
    ensures
        match struct_records(specs(structs@), specs(structs@)) {
            Ok(x) => r matches Ok(list) && list@ == x,
            Err(kind) => r matches Err(e) && e.kind == kind,
        },
{
    let ghost all = specs(structs@);
    let mut list = RecordList::new();
    let mut i: usize = 0;
    assert(all.take(0) =~= Seq::<StructSpec>::empty());
    while i < structs.len()
        invariant
            i <= structs@.len(),
            all == specs(structs@),
            list.count == i,
            struct_records(all, all.take(i as int)) == Ok::<Records, ErrorKind>(list@),
        decreases structs@.len() - i,
    {
        proof {
            assert(all.take(i + 1).drop_last() =~= all.take(i as int));
            assert(all.take(i + 1).last() == structs@[i as int]@);
        }
        let code = match struct_to_bytes(&structs[i], structs) {
            Ok(c) => c,
            Err(e) => {
                proof {
                    assert(struct_records(all, all.take(i + 1)) is Err);
                    lemma_struct_records_fails(all, all, i + 1);
                }
                return Err(e);
            },
        };
        list.add(structs[i].index(), code.as_slice(), false);
        i = i + 1;
    }
    assert(all.take(i as int) =~= all);
    Ok(list)
}

fn header_records_of(functions: &[Function], structs: &[Struct]) -> (r: SimpleResult<RecordList>)
    ensures
        match header_records(specs(structs@), specs(functions@)) {
            Ok(x) => r matches Ok(list) && list@ == x,
            Err(kind) => r matches Err(e) && e.kind == kind,
        },
{
    let ghost all = specs(structs@);
    let ghost fs = specs(functions@);
    let mut list = RecordList::new();
    let mut i: usize = 0;
    assert(fs.take(0) =~= Seq::<FunctionSpec>::empty());
    while i < functions.len()
        invariant
            i <= functions@.len(),
            all == specs(structs@),
            fs == specs(functions@),
            list.count == i,
            header_records(all, fs.take(i as int)) == Ok::<Records, ErrorKind>(list@),
        decreases functions@.len() - i,
    {
        proof {
            assert(fs.take(i + 1).drop_last() =~= fs.take(i as int));
            assert(fs.take(i + 1).last() == functions@[i as int]@);
        }
        let code = match function_to_header_bytes(&functions[i], structs) {
            Ok(c) => c,
            Err(e) => {
                proof {
                    assert(header_records(all, fs.take(i + 1)) is Err);
                    lemma_header_records_fails(all, fs, i + 1);
                }
                return Err(e);
            },
        };
        list.add(functions[i].index(), code.as_slice(), false);
        i = i + 1;
    }
    assert(fs.take(i as int) =~= fs);
    Ok(list)
}

fn body_record<'s, 'a>(
    structs: &'s [Struct],
    functions: &'s [Function<'a>],
    globals: &'s [Variable],
    data: &'s ConstTable,
    global_offsets: &'s NameTable<u64>,
    ops: &'s OpsCollector,
    i: usize,
    Ghost(base): Ghost<Ctx>,
) -> (r: SimpleResult<Vec<u8>>)
    requires
        i < functions@.len(),
        base.structs == specs(structs@),
        base.functions == specs(functions@),
        base.globals == specs(globals@),
        base.data == data@,
        base.global_offsets == global_offsets@,
        base.ops == ops@.table,
    ensures
        match body_bytes(Ctx { function: functions@[i as int]@, ..base }) {
            Ok(code) => r matches Ok(bytes) && bytes@ == code,
            Err(kind) => r matches Err(e) && e.kind == kind,
        },
{
    let scope = Scope {
        structs,
        functions,
        globals,
        function: &functions[i],
        data,
        global_offsets,
        ops,
    };
    assert(scope@ == (Ctx { function: functions@[i as int]@, ..base }));
    scope.to_body_bytes()
}

fn body_records_of<'s, 'a>(
    structs: &'s [Struct],
    functions: &'s [Function<'a>],
    globals: &'s [Variable],
    data: &'s ConstTable,
    global_offsets: &'s NameTable<u64>,
    ops: &'s OpsCollector,
    Ghost(base): Ghost<Ctx>,
) -> (r: SimpleResult<RecordList>)
    requires
        base.structs == specs(structs@),
        base.functions == specs(functions@),
        base.globals == specs(globals@),
        base.data == data@,
        base.global_offsets == global_offsets@,
        base.ops == ops@.table,
    ensures
        match body_records(base, specs(functions@)) {
            Ok(x) => r matches Ok(list) && list@ == x,
            Err(kind) => r matches Err(e) && e.kind == kind,
        },
{
    let ghost fs = specs(functions@);
    let mut list = RecordList::new();
    let mut i: usize = 0;
    assert(fs.take(0) =~= Seq::<FunctionSpec>::empty());
    while i < functions.len()
        invariant
            i <= functions@.len(),
            fs == specs(functions@),
            base.structs == specs(structs@),
            base.functions == specs(functions@),
            base.globals == specs(globals@),
            base.data == data@,
            base.global_offsets == global_offsets@,
            base.ops == ops@.table,
            list.count == i,
            body_records(base, fs.take(i as int)) == Ok::<Records, ErrorKind>(list@),
        decreases functions@.len() - i,
    {
        proof {
            assert(fs.take(i + 1).drop_last() =~= fs.take(i as int));
            assert(fs.take(i + 1).last() == functions@[i as int]@);
        }
        let code = match body_record(
            structs,
            functions,
            globals,
            data,
            global_offsets,
            ops,
            i,
            Ghost(base),
        ) {
            Ok(c) => c,
            Err(e) => {
                proof {
                    assert(body_records(base, fs.take(i + 1)) is Err);
                    lemma_body_records_fails(base, fs, i + 1);
                }
                return Err(e);
            },
        };
        list.add(functions[i].index(), code.as_slice(), true);
        i = i + 1;
    }
    assert(fs.take(i as int) =~= fs);
    Ok(list)
}

/// A table with its header: the length of `first` and `count`, then
/// `first`, then `rest`.
pub open spec fn table(first: Seq<u8>, count: nat, rest: Seq<u8>) -> Seq<u8> {
    word(first.len()) + word(count) + first + rest
}

/// The bytes of the image of an assembly: the magic, the exported
/// structs and functions, the structs, the function headers, the
/// constants, the size of the globals, the operation names, and the
/// bodies. Fails as the parts fail.
pub open spec fn image_of(a: AssemblyModel, rules: Seq<OpRule>) -> Result<Seq<u8>, ErrorKind> {
    match exports_code(a.export_structs, struct_heads(a.structs)) {
        Err(e) => Err(e),
        Ok(export_structs) => match exports_code(a.export_functions, function_heads(a.functions)) {
            Err(e) => Err(e),
            Ok(export_functions) => match struct_records(a.structs, a.structs) {
                Err(e) => Err(e),
                Ok(structs) => match header_records(a.structs, a.functions) {
                    Err(e) => Err(e),
                    Ok(headers) => match image_tail(a, rules) {
                        Err(e) => Err(e),
                        Ok(tail) => Ok(
                            a.magic + table(
                                export_structs,
                                a.export_structs.len(),
                                Seq::empty(),
                            ) + table(export_functions, a.export_functions.len(), Seq::empty())
                                + table(structs.offsets, structs.count, structs.bytes) + table(
                                headers.offsets,
                                headers.count,
                                headers.bytes,
                            ) + tail,
                        ),
                    },
                },
            },
        },
    }
}

/// The bytes of an image behind the function headers: the constants, the
/// size of the globals, the operation names, and the bodies.
pub open spec fn image_tail(a: AssemblyModel, rules: Seq<OpRule>) -> Result<Seq<u8>, ErrorKind> {
    match functions_data(no_data(), a.functions) {
        Err(e) => Err(e),
        Ok(data) => match globals_laid(a.globals) {
            Err(e) => Err(e),
            Ok((global_offsets, globals_size)) => match functions_ops(no_ops(), rules, a.functions) {
                Err(e) => Err(e),
                Ok(ops) => match body_records(
                    Ctx {
                        structs: a.structs,
                        functions: a.functions,
                        globals: a.globals,
                        function: arbitrary(),
                        data: data.table,
                        global_offsets,
                        ops: ops.table,
                    },
                    a.functions,
                ) {
                    Err(e) => Err(e),
                    Ok(bodies) => if data.table.count() > u64::MAX {
                        Err(ErrorKind::TypeError)
                    } else {
                        Ok(
                        table(data.bytes, data.table.count(), Seq::empty()) + word(
                            globals_size as nat,
                        ) + table(ops.bytes, ops.table.len(), Seq::empty()) + table(
                            bodies.offsets,
                            bodies.count,
                            bodies.bytes,
                        ),
                    )
                    },
                },
            },
        },
    }
}

fn put_table(out: &mut Vec<u8>, first: &[u8], count: usize, rest: &[u8])
    ensures
        final(out)@ == old(out)@ + table(first@, count as nat, rest@),
{
    put_size(out, first.len());
    put_size(out, count);
    put_bytes(out, first);
    put_bytes(out, rest);
    assert(out@ =~= old(out)@ + table(first@, count as nat, rest@));
}

impl<'a> Assembly<'a> {
    /// The bytes of the image of the assembly for the rules `ops`: what
    /// `image_of` says.
    pub fn to_bytes(&self, ops: &OpsDescriptor) -> (r: SimpleResult<Vec<u8>>)
        ensures
            match image_of(self@, ops.rules@) {
                Ok(code) => r matches Ok(bytes) && bytes@ == code,
                Err(kind) => r matches Err(e) && e.kind == kind,
            },
    {
        let structs = self.structs();
        let functions = self.functions();
        let globals = self.globals();
        let export_structs = export_structs_bytes(self.export_structs(), structs)?;
        let export_functions = export_functions_bytes(self.export_functions(), functions)?;
        let struct_list = struct_records_of(structs)?;
        let header_list = header_records_of(functions, structs)?;
        let tail = Self::tail_bytes(structs, functions, globals, &ops.rules, Ghost(self@))?;
        let empty: Vec<u8> = Vec::new();
        let mut out: Vec<u8> = Vec::new();
        put_bytes(&mut out, self.magic().as_slice());
        put_table(
            &mut out,
            export_structs.as_slice(),
            self.export_structs().len(),
            empty.as_slice(),
        );
        put_table(
            &mut out,
            export_functions.as_slice(),
            self.export_functions().len(),
            empty.as_slice(),
        );
        put_table(
            &mut out,
            struct_list.offsets.as_slice(),
            struct_list.count,
            struct_list.bytes.as_slice(),
        );
        put_table(
            &mut out,
            header_list.offsets.as_slice(),
            header_list.count,
            header_list.bytes.as_slice(),
        );
        put_bytes(&mut out, tail.as_slice());
        assert(empty@ =~= Seq::<u8>::empty());
        assert(out@ =~= image_of(self@, ops.rules@)->Ok_0);
        Ok(out)
    }

    fn tail_bytes(
        structs: &[Struct],
        functions: &[Function<'a>],
        globals: &[Variable],
        rules: &Vec<OpRule>,
        Ghost(a): Ghost<AssemblyModel>,
    ) -> (r: SimpleResult<Vec<u8>>)
        requires
            a.structs == specs(structs@),
            a.functions == specs(functions@),
            a.globals == specs(globals@),
        ensures
            match image_tail(a, rules@) {
                Ok(code) => r matches Ok(bytes) && bytes@ == code,
                Err(kind) => r matches Err(e) && e.kind == kind,
            },
    {
        let data = collect_data(functions)?;
        let (global_offsets, globals_size) = lay_globals(globals)?;
        let ops = collect_ops(functions, rules)?;
        let ghost base = Ctx {
            structs: a.structs,
            functions: a.functions,
            globals: a.globals,
            function: arbitrary(),
            data: data@.table,
            global_offsets: global_offsets@,
            ops: ops@.table,
        };
        let bodies = body_records_of(
            structs,
            functions,
            globals,
            &data.table,
            &global_offsets,
            &ops,
            Ghost(base),
        )?;
        let count = match data.table.count() {
            Some(n) => n,
            None => {
                return fail(ErrorKind::TypeError, "the constants exceed what the image can count");
            },
        };
        let empty: Vec<u8> = Vec::new();
        let mut out: Vec<u8> = Vec::new();
        put_size(&mut out, data.stream.len());
        put_u64(&mut out, count);
        put_bytes(&mut out, data.stream.as_slice());
        put_u64(&mut out, globals_size);
        put_table(&mut out, ops.stream.as_slice(), ops.table.len(), empty.as_slice());
        put_table(&mut out, bodies.offsets.as_slice(), bodies.count, bodies.bytes.as_slice());
        assert(out@ =~= image_tail(a, rules@)->Ok_0);
        Ok(out)
    }
}

/// The bytes of the image of a program. Fails as the assembly and the
/// image fail.
pub open spec fn encoded(program: CoreProgram, rules: Seq<OpRule>) -> Result<Seq<u8>, ErrorKind> {
    match assembled(program) {
        Err(e) => Err(e),
        Ok(a) => image_of(a, rules),
    }
}

/// Encodes the program for the rules `ops`: the bytes of its image, as
/// `encoded` says.
pub fn encode_assembly(program: &CoreProgram, ops: &OpsDescriptor) -> (r: SimpleResult<Vec<u8>>)
    ensures
        match encoded(*program, ops.rules@) {
            Ok(code) => r matches Ok(bytes) && bytes@ == code,
            Err(kind) => r matches Err(e) && e.kind == kind,
        },
{
    let assembly = Assembly::from_core(program)?;
    assembly.to_bytes(ops)
}

} // verus!
