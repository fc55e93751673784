//! From the values of an operation to the code of the machine: every
//! value becomes opcodes that leave the address of the value on the
//! machine's addresses.

use crate::assembly::{fail, field_named, specs, tree_of, Struct, StructSpec};
use crate::consts::integer_offset;
use crate::emit::{put_size, put_u64, put_u8, word, written};
use crate::error::{ErrorKind, SimpleResult};
use crate::names::{lookup, same_text};
use crate::program::{lemma_tuple_tree, trees, Access, Number, Type as CoreType, TypeTree, Value};
use crate::types::{
    find_function, find_struct, find_variable, function_named, lemma_sizes_at_fails, size_at,
    sizes_at, struct_named, type_size, value_type, values_types, variable_named, Ctx, Scope,
};
use vstd::prelude::*;

verus! {

/// The part at the place `i` of a tuple of the types `types`, and its
/// offset: the sum of the sizes of the parts before it. Fails with
/// `TypeError` where the tuple has no such part, and as the sizes fail.
pub open spec fn tuple_field(structs: Seq<StructSpec>, types: Seq<TypeTree>, i: i64) -> Result<
    (TypeTree, usize),
    ErrorKind,
> {
    if 0 <= i < types.len() {
        match sizes_at(structs, types.take(i as int)) {
            Err(e) => Err(e),
            Ok(offset) => match size_at(structs, types[i as int]) {
                Err(e) => Err(e),
                Ok(_) => Ok((types[i as int], offset)),
            },
        }
    } else {
        match sizes_at(structs, types) {
            Err(e) => Err(e),
            Ok(_) => Err(ErrorKind::TypeError),
        }
    }
}

/// The place of the part `index` of a tuple of the types `types`: its
/// position and its offset.
pub fn find_tuple_field(structs: &[Struct], types: &[CoreType], index: i64) -> (r: SimpleResult<
    (usize, usize),
>)
    ensures
        match tuple_field(specs(structs@), trees(types@), index) {
            Ok((t, offset)) => r matches Ok(x) && x.0 < types@.len() && x.0 == index
                && types@[x.0 as int]@ == t && x.1 == offset,
            Err(kind) => r matches Err(e) && e.kind == kind,
        },
{
    let ghost all = specs(structs@);
    let ghost ts = trees(types@);
    let mut offset: usize = 0;
    let mut i: usize = 0;
    assert(ts.take(0) =~= Seq::<TypeTree>::empty());
    while i < types.len()
        invariant
            i <= types@.len(),
            all == specs(structs@),
            ts == trees(types@),
            index < 0 || i <= index,
            sizes_at(all, ts.take(i as int)) == Ok::<usize, ErrorKind>(offset),
        decreases types@.len() - i,
    {
        proof {
            assert(ts.take(i + 1).drop_last() =~= ts.take(i as int));
            assert(ts.take(i + 1).last() == types@[i as int]@);
            assert(ts[i as int] == types@[i as int]@);
        }
        let size = match type_size(structs, &types[i]) {
            Ok(n) => n,
            Err(e) => {
                proof {
                    assert(sizes_at(all, ts.take(i + 1)) is Err);
                    if 0 <= index < types@.len() {
                        if i < index {
                            assert(ts.take(index as int).take(i + 1) =~= ts.take(i + 1));
                            lemma_sizes_at_fails(all, ts.take(index as int), i + 1);
                        }
                    } else {
                        lemma_sizes_at_fails(all, ts, i + 1);
                    }
                }
                return Err(e);
            },
        };
        if index >= 0 && i as u64 == index as u64 {
            return Ok((i, offset));
        }
        offset = match offset.checked_add(size) {
            Some(n) => n,
            None => {
                proof {
                    assert(sizes_at(all, ts.take(i + 1)) is Err);
                    if 0 <= index < types@.len() {
                        assert(ts.take(index as int).take(i + 1) =~= ts.take(i + 1));
                        lemma_sizes_at_fails(all, ts.take(index as int), i + 1);
                    } else {
                        lemma_sizes_at_fails(all, ts, i + 1);
                    }
                }
                return fail(ErrorKind::TypeError, "a tuple exceeds what the host can hold");
            },
        };
        i = i + 1;
    }
    assert(ts.take(i as int) =~= ts);
    fail(ErrorKind::TypeError, "a tuple has no such part")
}

/// The code of the access `a` in a value of type `t`: the offset of the
/// part that it reaches, and for each further step `OffsetPointer` and
/// the offset of the next part. A pointer is passed through to its
/// pointee. Fails with `Resolution` where no struct has the name of the
/// type, with `TypeError` where a struct has no field of the name, where
/// a part of a tuple is asked of a struct or a field of a tuple, and as
/// `tuple_field` fails.
pub open spec fn access_code(structs: Seq<StructSpec>, t: TypeTree, a: Access) -> Result<
    Seq<u8>,
    ErrorKind,
>
    decreases a, t,
{
    match t {
        TypeTree::Identifier(id) => match struct_named(structs, id) {
            None => Err(ErrorKind::Resolution),
            Some(s) => match a {
                Access::Variable(name, next) => match field_named(s.fields, name@) {
                    None => Err(ErrorKind::TypeError),
                    Some(f) => match next {
                        None => Ok(word(f.offset as nat)),
                        Some(n) => match access_code(structs, f.typeid, *n) {
                            Err(e) => Err(e),
                            Ok(code) => Ok(word(f.offset as nat) + seq![6u8] + code),
                        },
                    },
                },
                _ => Err(ErrorKind::TypeError),
            },
        },
        TypeTree::Tuple(types) => match a {
            Access::Tuple(i, next) => match tuple_field(structs, types, i) {
                Err(e) => Err(e),
                Ok((part, offset)) => match next {
                    None => Ok(word(offset as nat)),
                    Some(n) => match access_code(structs, part, *n) {
                        Err(e) => Err(e),
                        Ok(code) => Ok(word(offset as nat) + seq![6u8] + code),
                    },
                },
            },
            _ => Err(ErrorKind::TypeError),
        },
        TypeTree::Pointer(inner) => access_code(structs, *inner, a),
    }
}

/// Writes the code of the access `access` in a value of type `type_`.
pub fn write_core_value_access(
    structs: &[Struct],
    out: &mut Vec<u8>,
    type_: &CoreType,
    access: &Access,
) -> (r: SimpleResult<()>)
    ensures
        written(r, old(out)@, final(out)@, access_code(specs(structs@), type_@, *access)),
    decreases access, type_,
{
    let ghost all = specs(structs@);
    match type_ {
        CoreType::Identifier(id) => match find_struct(structs, id.as_str()) {
            None => fail(ErrorKind::Resolution, "a type names a struct that is not there"),
            Some(s) => match access {
                Access::Variable(name, next) => match s.find_field(name.as_str()) {
                    None => fail(ErrorKind::TypeError, "a struct has no such field"),
                    Some(f) => {
                        put_size(out, f.offset());
                        match next {
                            None => Ok(()),
                            Some(n) => {
                                put_u8(out, 6);
                                write_core_value_access(structs, out, f.typeid(), n)?;
                                assert(out@ =~= old(out)@ + (word(f@.offset as nat) + seq![6u8]
                                    + access_code(all, f@.typeid, **n)->Ok_0));
                                Ok(())
                            },
                        }
                    },
                },
                _ => fail(ErrorKind::TypeError, "a part of a tuple is asked of a struct"),
            },
        },
        CoreType::Tuple(types) => {
            proof {
                lemma_tuple_tree(*types);
            }
            write_tuple_access(structs, out, types, access, Ghost(*type_))
        },
        CoreType::Pointer(inner) => write_core_value_access(structs, out, inner, access),
    }
}

/// Writes the code of the access `access` in a tuple of the types
/// `types`.
pub fn write_tuple_access(
    structs: &[Struct],
    out: &mut Vec<u8>,
    types: &Vec<CoreType>,
    access: &Access,
    Ghost(whole): Ghost<CoreType>,
) -> (r: SimpleResult<()>)
    requires
        whole@ == TypeTree::Tuple(trees(types@)),
    ensures
        written(
            r,
            old(out)@,
            final(out)@,
            access_code(specs(structs@), TypeTree::Tuple(trees(types@)), *access),
        ),
    decreases access, whole, 0nat,
{
    let ghost all = specs(structs@);
    match access {
        Access::Tuple(i, next) => {
            let (k, offset) = find_tuple_field(structs, types.as_slice(), *i)?;
            put_size(out, offset);
            match next {
                None => Ok(()),
                Some(n) => {
                    put_u8(out, 6);
                    write_core_value_access(structs, out, &types[k], n)?;
                    assert(out@ =~= old(out)@ + (word(offset as nat) + seq![6u8] + access_code(
                        all,
                        types@[k as int]@,
                        **n,
                    )->Ok_0));
                    Ok(())
                },
            }
        },
        _ => fail(ErrorKind::TypeError, "a field is asked of a tuple"),
    }
}

/// `code`, and behind it `OffsetPointer` and the code of the access, if
/// there is one.
pub open spec fn with_access(
    structs: Seq<StructSpec>,
    code: Seq<u8>,
    t: TypeTree,
    a: Option<Box<Access>>,
) -> Result<Seq<u8>, ErrorKind> {
    match a {
        None => Ok(code),
        Some(acc) => match access_code(structs, t, *acc) {
            Err(e) => Err(e),
            Ok(more) => Ok(code + seq![6u8] + more),
        },
    }
}

/// The code of the sizes of the values `vs`, value by value.
pub open spec fn sizes_code(ctx: Ctx, vs: Seq<Value>) -> Result<Seq<u8>, ErrorKind>
    decreases vs.len(),
{
    if vs.len() == 0 {
        Ok(Seq::empty())
    } else {
        match sizes_code(ctx, vs.drop_last()) {
            Err(e) => Err(e),
            Ok(before) => match value_type(ctx, vs.last()) {
                Err(e) => Err(e),
                Ok(t) => match size_at(ctx.structs, t) {
                    Err(e) => Err(e),
                    Ok(n) => Ok(before + word(n as nat)),
                },
            },
        }
    }
}

pub proof fn lemma_sizes_code_fails(ctx: Ctx, vs: Seq<Value>, k: int)
    requires
        0 <= k <= vs.len(),
        sizes_code(ctx, vs.take(k)) is Err,
    ensures
        sizes_code(ctx, vs) == sizes_code(ctx, vs.take(k)),
    decreases vs.len(),
{
    if k == vs.len() {
        assert(vs.take(k) =~= vs);
    } else {
        assert(vs.drop_last().take(k) =~= vs.take(k));
        lemma_sizes_code_fails(ctx, vs.drop_last(), k);
    }
}

/// The code of the variable `id`: the opcode of the place where it
/// lives, with its offset. A parameter goes before a local of the same
/// name, a local before a global, and `_` names the result of the
/// function.
pub open spec fn variable_code(ctx: Ctx, id: Seq<char>, a: Option<Box<Access>>) -> Result<
    Seq<u8>,
    ErrorKind,
> {
    match variable_named(ctx.function.params, id) {
        Some(p) => match p.offset {
            Some(o) => with_access(ctx.structs, seq![2u8] + word(o as nat), p.typeid, a),
            None => Err(ErrorKind::Resolution),
        },
        None => match variable_named(ctx.function.locals, id) {
            Some(l) => match l.offset {
                Some(o) => with_access(ctx.structs, seq![4u8] + word(o as nat), l.typeid, a),
                None => Err(ErrorKind::Resolution),
            },
            None => match lookup(ctx.global_offsets, id) {
                Some(o) => match variable_named(ctx.globals, id) {
                    Some(g) => with_access(ctx.structs, seq![5u8] + word(o as nat), g.typeid, a),
                    None => Err(ErrorKind::Resolution),
                },
                None => if id == "_"@ {
                    match ctx.function.typeid {
                        Some(t) => with_access(ctx.structs, seq![3u8], t, a),
                        None => if a is Some {
                            Err(ErrorKind::TypeError)
                        } else {
                            Err(ErrorKind::Resolution)
                        },
                    }
                } else {
                    Err(ErrorKind::Resolution)
                },
            },
        },
    }
}

/// The code of the value `v`. Fails with `TypeError` where a reference
/// or the result of a function without result is accessed, with
/// `Resolution` where a function, an operation, a constant or a
/// variable is not there, and as the types, the sizes and the accesses
/// fail.
pub open spec fn value_code(ctx: Ctx, v: Value) -> Result<Seq<u8>, ErrorKind>
    decreases v,
{
    match v {
        Value::Ref(inner, a) => match value_code(ctx, *inner) {
            Err(e) => Err(e),
            Ok(code) => if a is Some {
                Err(ErrorKind::TypeError)
            } else {
                Ok(code + seq![7u8])
            },
        },
        Value::Deref(inner, a) => match value_code(ctx, *inner) {
            Err(e) => Err(e),
            Ok(code) => match a {
                None => Ok(code + seq![8u8]),
                Some(_) => match value_type(ctx, *inner) {
                    Err(e) => Err(e),
                    Ok(t) => with_access(ctx.structs, code + seq![8u8], t, a),
                },
            },
        },
        Value::FunctionCall(id, args, a) => match function_named(ctx.functions, id@) {
            None => Err(ErrorKind::Resolution),
            Some(f) => match values_code_rev(ctx, args@) {
                Err(e) => Err(e),
                Ok(code) => match f.typeid {
                    Some(t) => with_access(
                        ctx.structs,
                        code + seq![16u8] + word(f.index as nat),
                        t,
                        a,
                    ),
                    None => if a is Some {
                        Err(ErrorKind::TypeError)
                    } else {
                        Ok(code + seq![16u8] + word(f.index as nat))
                    },
                },
            },
        },
        Value::Tuple(parts, a) => match values_code_rev(ctx, parts@) {
            Err(e) => Err(e),
            Ok(code) => match sizes_code(ctx, parts@) {
                Err(e) => Err(e),
                Ok(sizes) => match a {
                    None => Ok(code + seq![15u8] + word(parts@.len()) + sizes),
                    Some(_) => match values_types(ctx, parts@) {
                        Err(e) => Err(e),
                        Ok(ts) => with_access(
                            ctx.structs,
                            code + seq![15u8] + word(parts@.len()) + sizes,
                            TypeTree::Tuple(ts),
                            a,
                        ),
                    },
                },
            },
        },
        Value::String(s, _) => match lookup(ctx.data.strings, s@) {
            Some(o) => Ok(seq![1u8] + word(o as nat)),
            None => Err(ErrorKind::Resolution),
        },
        Value::Number(Number::Integer(i, _)) => match integer_offset(ctx.data.integers, i) {
            Some(o) => Ok(seq![1u8] + word(o as nat)),
            None => Err(ErrorKind::Resolution),
        },
        Value::Number(Number::Float(f, _)) => match lookup(ctx.data.floats, f.text@) {
            Some(o) => Ok(seq![1u8] + word(o as nat)),
            None => Err(ErrorKind::Resolution),
        },
        Value::OperationInline(id, args, a) => match values_code_fwd(ctx, args@) {
            Err(e) => Err(e),
            Ok(code) => match lookup(ctx.ops, id@) {
                Some((index, Some(t))) => match size_at(ctx.structs, t) {
                    Err(e) => Err(e),
                    Ok(n) => with_access(
                        ctx.structs,
                        seq![13u8] + code + seq![14u8] + word(index as nat) + word(n as nat),
                        t,
                        a,
                    ),
                },
                _ => Err(ErrorKind::Resolution),
            },
        },
        Value::Variable(id, a) => variable_code(ctx, id@, a),
    }
}

/// The code of the values `vs`, the last value first.
pub open spec fn values_code_rev(ctx: Ctx, vs: Seq<Value>) -> Result<Seq<u8>, ErrorKind>
    decreases vs,
{
    if vs.len() == 0 {
        Ok(Seq::empty())
    } else {
        match values_code_rev(ctx, vs.drop_first()) {
            Err(e) => Err(e),
            Ok(before) => match value_code(ctx, vs[0]) {
                Err(e) => Err(e),
                Ok(code) => Ok(before + code),
            },
        }
    }
}

/// The code of the values `vs` as parameters of an inline operation:
/// each value, then `StoreParamAddress`.
pub open spec fn values_code_fwd(ctx: Ctx, vs: Seq<Value>) -> Result<Seq<u8>, ErrorKind>
    decreases vs,
{
    if vs.len() == 0 {
        Ok(Seq::empty())
    } else {
        match values_code_fwd(ctx, vs.drop_last()) {
            Err(e) => Err(e),
            Ok(before) => match value_code(ctx, vs.last()) {
                Err(e) => Err(e),
                Ok(code) => Ok(before + code + seq![10u8]),
            },
        }
    }
}

pub proof fn lemma_values_code_rev_fails(ctx: Ctx, vs: Seq<Value>, k: int)
    requires
        0 <= k <= vs.len(),
        values_code_rev(ctx, vs.skip(k)) is Err,
    ensures
        values_code_rev(ctx, vs) == values_code_rev(ctx, vs.skip(k)),
    decreases vs.len(),
{
    if k == 0 {
        assert(vs.skip(0) =~= vs);
    } else {
        assert(vs.drop_first().skip(k - 1) =~= vs.skip(k));
        lemma_values_code_rev_fails(ctx, vs.drop_first(), k - 1);
    }
}

pub proof fn lemma_values_code_fwd_fails(ctx: Ctx, vs: Seq<Value>, k: int)
    requires
        0 <= k <= vs.len(),
        values_code_fwd(ctx, vs.take(k)) is Err,
    ensures
        values_code_fwd(ctx, vs) == values_code_fwd(ctx, vs.take(k)),
    decreases vs.len(),
{
    if k == vs.len() {
        assert(vs.take(k) =~= vs);
    } else {
        assert(vs.drop_last().take(k) =~= vs.take(k));
        lemma_values_code_fwd_fails(ctx, vs.drop_last(), k);
    }
}

impl<'s, 'a> Scope<'s, 'a> {
    /// Writes `OffsetPointer` and the code of the access, if there is
    /// one.
    fn write_access(&self, out: &mut Vec<u8>, Ghost(code): Ghost<Seq<u8>>, t: &CoreType, a: &Option<
        Box<Access>,
    >) -> (r: SimpleResult<()>)
        ensures
            written(
                r,
                old(out)@,
                final(out)@,
                match with_access(self@.structs, code, t@, *a) {
                    Ok(all) => Ok(all.skip(code.len() as int)),
                    Err(e) => Err(e),
                },
            ),
    {
        match a {
            None => {
                assert(out@ =~= old(out)@ + code.skip(code.len() as int));
                Ok(())
            },
            Some(acc) => {
                put_u8(out, 6);
                write_core_value_access(self.structs, out, t, acc)?;
                let ghost more = access_code(self@.structs, t@, **acc)->Ok_0;
                assert((code + seq![6u8] + more).skip(code.len() as int) =~= seq![6u8] + more);
                assert(out@ =~= old(out)@ + (seq![6u8] + more));
                Ok(())
            },
        }
    }

    /// Writes the code of the sizes of the values `vs`.
    fn write_sizes(&self, vs: &Vec<Value>, out: &mut Vec<u8>) -> (r: SimpleResult<()>)
        ensures
            written(r, old(out)@, final(out)@, sizes_code(self@, vs@)),
    {
        let mut i: usize = 0;
        proof {
            assert(vs@.take(0) =~= Seq::<Value>::empty());
            assert(out@ =~= old(out)@ + Seq::<u8>::empty());
        }
        while i < vs.len()
            invariant
                i <= vs@.len(),
                sizes_code(self@, vs@.take(i as int)) matches Ok(code) && out@ == old(out)@ + code,
            decreases vs@.len() - i,
        {
            proof {
                assert(vs@.take(i + 1).drop_last() =~= vs@.take(i as int));
                assert(vs@.take(i + 1).last() == vs@[i as int]);
            }
            let ghost done = sizes_code(self@, vs@.take(i as int))->Ok_0;
            let t = match self.find_value_type(&vs[i]) {
                Ok(t) => t,
                Err(e) => {
                    proof {
                        assert(sizes_code(self@, vs@.take(i + 1)) is Err);
                        lemma_sizes_code_fails(self@, vs@, i + 1);
                    }
                    return Err(e);
                },
            };
            let n = match type_size(self.structs, &t) {
                Ok(n) => n,
                Err(e) => {
                    proof {
                        assert(sizes_code(self@, vs@.take(i + 1)) is Err);
                        lemma_sizes_code_fails(self@, vs@, i + 1);
                    }
                    return Err(e);
                },
            };
            put_size(out, n);
            assert(out@ =~= old(out)@ + (done + word(n as nat)));
            i = i + 1;
        }
        assert(vs@.take(i as int) =~= vs@);
        Ok(())
    }

    /// Writes the code of the values `vs`, the last value first.
    fn write_values_rev(&self, vs: &Vec<Value>, out: &mut Vec<u8>) -> (r: SimpleResult<()>)
        ensures
            written(r, old(out)@, final(out)@, values_code_rev(self@, vs@)),
        decreases vs, 2nat,
    {
        let mut i: usize = vs.len();
        proof {
            assert(vs@.skip(vs@.len() as int) =~= Seq::<Value>::empty());
            assert(out@ =~= old(out)@ + Seq::<u8>::empty());
        }
        while i > 0
            invariant
                i <= vs@.len(),
                values_code_rev(self@, vs@.skip(i as int)) matches Ok(code) && out@ == old(out)@
                    + code,
            decreases i,
        {
            proof {
                assert(vs@.skip(i - 1)[0] == vs@[i - 1]);
                assert(vs@.skip(i - 1).drop_first() =~= vs@.skip(i as int));
                assert(decreases_to!(vs => vs@[i - 1]));
            }
            let ghost done = values_code_rev(self@, vs@.skip(i as int))->Ok_0;
            match self.write_core_value(&vs[i - 1], out) {
                Ok(_) => {
                    assert(out@ =~= old(out)@ + (done + value_code(self@, vs@[i - 1])->Ok_0));
                },
                Err(e) => {
                    proof {
                        assert(values_code_rev(self@, vs@.skip(i - 1)) is Err);
                        lemma_values_code_rev_fails(self@, vs@, i - 1);
                    }
                    return Err(e);
                },
            }
            i = i - 1;
        }
        assert(vs@.skip(0) =~= vs@);
        Ok(())
    }

    /// Writes the code of the values `vs`, each with `StoreParamAddress`
    /// behind it.
    fn write_values_fwd(&self, vs: &Vec<Value>, out: &mut Vec<u8>) -> (r: SimpleResult<()>)
        ensures
            written(r, old(out)@, final(out)@, values_code_fwd(self@, vs@)),
        decreases vs, 2nat,
    {
        let mut i: usize = 0;
        proof {
            assert(vs@.take(0) =~= Seq::<Value>::empty());
            assert(out@ =~= old(out)@ + Seq::<u8>::empty());
        }
        while i < vs.len()
            invariant
                i <= vs@.len(),
                values_code_fwd(self@, vs@.take(i as int)) matches Ok(code) && out@ == old(out)@
                    + code,
            decreases vs@.len() - i,
        {
            proof {
                assert(vs@.take(i + 1).drop_last() =~= vs@.take(i as int));
                assert(vs@.take(i + 1).last() == vs@[i as int]);
                assert(decreases_to!(vs => vs@[i as int]));
            }
            let ghost done = values_code_fwd(self@, vs@.take(i as int))->Ok_0;
            match self.write_core_value(&vs[i], out) {
                Ok(_) => {},
                Err(e) => {
                    proof {
                        assert(values_code_fwd(self@, vs@.take(i + 1)) is Err);
                        lemma_values_code_fwd_fails(self@, vs@, i + 1);
                    }
                    return Err(e);
                },
            }
            put_u8(out, 10);
            assert(out@ =~= old(out)@ + (done + value_code(self@, vs@[i as int])->Ok_0 + seq![
                10u8,
            ]));
            i = i + 1;
        }
        assert(vs@.take(i as int) =~= vs@);
        Ok(())
    }

    /// Writes the code of the variable `id`.
    fn write_variable(&self, id: &String, a: &Option<Box<Access>>, out: &mut Vec<u8>) -> (r:
        SimpleResult<()>)
        ensures
            written(r, old(out)@, final(out)@, variable_code(self@, id@, *a)),
    {
        let name = id.as_str();
        match find_variable(self.function.params(), name) {
            Some(p) => match p.offset() {
                Some(o) => {
                    put_u8(out, 2);
                    put_size(out, *o);
                    let ghost head = seq![2u8] + word(*o as nat);
                    assert(out@ =~= old(out)@ + head);
                    self.write_access(out, Ghost(head), p.typeid(), a)?;
                    proof {
                        let all = with_access(self@.structs, head, p@.typeid, *a)->Ok_0;
                        assert(out@ =~= old(out)@ + all);
                    }
                    Ok(())
                },
                None => fail(ErrorKind::Resolution, "a parameter has no place"),
            },
            None => match find_variable(self.function.locals(), name) {
                Some(l) => match l.offset() {
                    Some(o) => {
                        put_u8(out, 4);
                        put_size(out, *o);
                        let ghost head = seq![4u8] + word(*o as nat);
                        assert(out@ =~= old(out)@ + head);
                        self.write_access(out, Ghost(head), l.typeid(), a)?;
                        proof {
                            let all = with_access(self@.structs, head, l@.typeid, *a)->Ok_0;
                            assert(out@ =~= old(out)@ + all);
                        }
                        Ok(())
                    },
                    None => fail(ErrorKind::Resolution, "a local has no place"),
                },
                None => match self.global_offsets.get(name) {
                    Some(o) => match find_variable(self.globals, name) {
                        Some(g) => {
                            put_u8(out, 5);
                            put_u64(out, *o);
                            let ghost head = seq![5u8] + word(*o as nat);
                            assert(out@ =~= old(out)@ + head);
                            self.write_access(out, Ghost(head), g.typeid(), a)?;
                            proof {
                                let all = with_access(self@.structs, head, g@.typeid, *a)->Ok_0;
                                assert(out@ =~= old(out)@ + all);
                            }
                            Ok(())
                        },
                        None => fail(ErrorKind::Resolution, "a global is not there"),
                    },
                    None => {
                        if same_text(name, "_") {
                            match self.function.typeid() {
                                Some(t) => {
                                    put_u8(out, 3);
                                    let ghost head = seq![3u8];
                                    assert(out@ =~= old(out)@ + head);
                                    self.write_access(out, Ghost(head), t, a)?;
                                    proof {
                                        let all = with_access(self@.structs, head, t@, *a)->Ok_0;
                                        assert(out@ =~= old(out)@ + all);
                                    }
                                    Ok(())
                                },
                                None => if a.is_some() {
                                    fail(
                                        ErrorKind::TypeError,
                                        "the result of a function without result is accessed",
                                    )
                                } else {
                                    fail(ErrorKind::Resolution, "the function has no result")
                                },
                            }
                        } else {
                            fail(ErrorKind::Resolution, "a variable is not there")
                        }
                    },
                },
            },
        }
    }

    fn write_ref(&self, v: &Value, a: &Option<Box<Access>>, out: &mut Vec<u8>, Ghost(whole): Ghost<
        Value,
    >) -> (r: SimpleResult<()>)
        requires
            whole == Value::Ref(Box::new(*v), *a),
        ensures
            written(r, old(out)@, final(out)@, value_code(self@, whole)),
        decreases whole, 0nat,
    {
        self.write_core_value(v, out)?;
        put_u8(out, 7);
        if a.is_some() {
            fail(ErrorKind::TypeError, "a reference is accessed")
        } else {
            assert(out@ =~= old(out)@ + (value_code(self@, *v)->Ok_0 + seq![7u8]));
            Ok(())
        }
    }

    fn write_deref(&self, v: &Value, a: &Option<Box<Access>>, out: &mut Vec<u8>, Ghost(whole): Ghost<
        Value,
    >) -> (r: SimpleResult<()>)
        requires
            whole == Value::Deref(Box::new(*v), *a),
        ensures
            written(r, old(out)@, final(out)@, value_code(self@, whole)),
        decreases whole, 0nat,
    {
        let ghost ctx = self@;
        self.write_core_value(v, out)?;
        put_u8(out, 8);
        let ghost head = value_code(ctx, *v)->Ok_0 + seq![8u8];
        assert(out@ =~= old(out)@ + head);
        match a {
            None => Ok(()),
            Some(_) => {
                let t = self.find_value_type(v)?;
                self.write_access(out, Ghost(head), &t, a)?;
                proof {
                    let all = with_access(ctx.structs, head, t@, *a)->Ok_0;
                    assert(out@ =~= old(out)@ + all);
                }
                Ok(())
            },
        }
    }

    fn write_call(&self, id: &String, v: &Vec<Value>, a: &Option<Box<Access>>, out: &mut Vec<
        u8,
    >, Ghost(whole): Ghost<Value>) -> (r: SimpleResult<()>)
        requires
            whole == Value::FunctionCall(*id, *v, *a),
        ensures
            written(r, old(out)@, final(out)@, value_code(self@, whole)),
        decreases whole, 0nat,
    {
        let ghost ctx = self@;
        let f = match find_function(self.functions, id.as_str()) {
            Some(f) => f,
            None => {
                return fail(ErrorKind::Resolution, "a function that is called is not there");
            },
        };
        assert(whole->FunctionCall_1 == *v);
        self.write_values_rev(v, out)?;
        put_u8(out, 16);
        put_size(out, f.index());
        let ghost head = values_code_rev(ctx, v@)->Ok_0 + seq![16u8] + word(f@.index as nat);
        assert(out@ =~= old(out)@ + head);
        match f.typeid() {
            Some(t) => {
                self.write_access(out, Ghost(head), t, a)?;
                proof {
                    let all = with_access(ctx.structs, head, t@, *a)->Ok_0;
                    assert(out@ =~= old(out)@ + all);
                }
                Ok(())
            },
            None => if a.is_some() {
                fail(ErrorKind::TypeError, "the result of a function without result is accessed")
            } else {
                Ok(())
            },
        }
    }

    fn write_tuple(&self, v: &Vec<Value>, a: &Option<Box<Access>>, out: &mut Vec<u8>, Ghost(
        whole,
    ): Ghost<Value>) -> (r: SimpleResult<()>)
        requires
            whole == Value::Tuple(*v, *a),
        ensures
            written(r, old(out)@, final(out)@, value_code(self@, whole)),
        decreases whole, 0nat,
    {
        let ghost ctx = self@;
        assert(whole->Tuple_0 == *v);
        self.write_values_rev(v, out)?;
        put_u8(out, 15);
        put_size(out, v.len());
        self.write_sizes(v, out)?;
        let ghost head = values_code_rev(ctx, v@)->Ok_0 + seq![15u8] + word(v@.len()) + sizes_code(
            ctx,
            v@,
        )->Ok_0;
        assert(out@ =~= old(out)@ + head);
        match a {
            None => Ok(()),
            Some(_) => {
                let ts = self.find_values_types(v)?;
                proof {
                    lemma_tuple_tree(ts);
                }
                let t = CoreType::Tuple(ts);
                self.write_access(out, Ghost(head), &t, a)?;
                proof {
                    let all = with_access(ctx.structs, head, t@, *a)->Ok_0;
                    assert(out@ =~= old(out)@ + all);
                }
                Ok(())
            },
        }
    }

    fn write_inline(&self, id: &String, v: &Vec<Value>, a: &Option<Box<Access>>, out: &mut Vec<
        u8,
    >, Ghost(whole): Ghost<Value>) -> (r: SimpleResult<()>)
        requires
            whole == Value::OperationInline(*id, *v, *a),
        ensures
            written(r, old(out)@, final(out)@, value_code(self@, whole)),
        decreases whole, 0nat,
    {
        let ghost ctx = self@;
        put_u8(out, 13);
        assert(whole->OperationInline_1 == *v);
        self.write_values_fwd(v, out)?;
        put_u8(out, 14);
        let (index, t) = match self.ops.get(id.as_str()) {
            Some(entry) => match &entry.1 {
                Some(t) => (entry.0, t),
                None => {
                    return fail(
                        ErrorKind::Resolution,
                        "an operation that is inlined gives no result",
                    );
                },
            },
            None => {
                return fail(ErrorKind::Resolution, "an operation that is inlined is not there");
            },
        };
        put_u64(out, index);
        let n = type_size(self.structs, t)?;
        put_size(out, n);
        let ghost head = seq![13u8] + values_code_fwd(ctx, v@)->Ok_0 + seq![14u8] + word(
            index as nat,
        ) + word(n as nat);
        assert(out@ =~= old(out)@ + head);
        self.write_access(out, Ghost(head), t, a)?;
        proof {
            let all = with_access(ctx.structs, head, t@, *a)->Ok_0;
            assert(out@ =~= old(out)@ + all);
        }
        Ok(())
    }

    fn write_constant(&self, found: Option<u64>, out: &mut Vec<u8>) -> (r: SimpleResult<()>)
        ensures
            written(
                r,
                old(out)@,
                final(out)@,
                match found {
                    Some(o) => Ok(seq![1u8] + word(o as nat)),
                    None => Err(ErrorKind::Resolution),
                },
            ),
    {
        match found {
            Some(o) => {
                put_u8(out, 1);
                put_u64(out, o);
                assert(out@ =~= old(out)@ + (seq![1u8] + word(o as nat)));
                Ok(())
            },
            None => fail(ErrorKind::Resolution, "a constant is not in the data pool"),
        }
    }

    /// Writes the code of the value `value`: what `value_code` says.
    pub fn write_core_value(&self, value: &Value, out: &mut Vec<u8>) -> (r: SimpleResult<()>)
        ensures
            written(r, old(out)@, final(out)@, value_code(self@, *value)),
        decreases value, 1nat,
    {
        match value {
            Value::Ref(v, a) => self.write_ref(v, a, out, Ghost(*value)),
            Value::Deref(v, a) => self.write_deref(v, a, out, Ghost(*value)),
            Value::FunctionCall(id, v, a) => self.write_call(id, v, a, out, Ghost(*value)),
            Value::Tuple(v, a) => self.write_tuple(v, a, out, Ghost(*value)),
            Value::String(s, _) => self.write_constant(self.data.string(s.as_str()), out),
            Value::Number(n) => match n {
                Number::Integer(i, _) => self.write_constant(self.data.integer(*i), out),
                Number::Float(f, _) => self.write_constant(
                    self.data.float(f.text.as_str()),
                    out,
                ),
            },
            Value::OperationInline(id, v, a) => self.write_inline(id, v, a, out, Ghost(*value)),
            Value::Variable(id, a) => self.write_variable(id, a, out),
        }
    }
}

} // verus!
