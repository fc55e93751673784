//! The bytes of the records of an image: numbers, texts, types, structs,
//! variables and function headers.

use crate::assembly::{
    fail, specs, FieldSpec, Function, FunctionSpec, Struct, StructField, StructSpec, Variable,
    VariableSpec,
};
use crate::error::{ErrorKind, SimpleResult};
use crate::link::{lemma_name_position_extends, name_position};
use crate::names::same_text;
use crate::program::{lemma_tuple_tree, trees, Type as CoreType, TypeTree};
use crate::wire::{be_bytes, bytes_u16, bytes_u32, bytes_u64};
use vstd::prelude::*;
use vstd::utf8::encode_utf8;

verus! {

/// The eight bytes of a number.
pub open spec fn word(n: nat) -> Seq<u8> {
    be_bytes(n, 8)
}

/// The bytes of a text: its length in bytes, then its UTF-8 encoding.
pub open spec fn text_code(s: Seq<char>) -> Seq<u8> {
    word(encode_utf8(s).len()) + encode_utf8(s)
}

/// The byte of a flag.
pub open spec fn flag(b: bool) -> Seq<u8> {
    if b {
        seq![1u8]
    } else {
        seq![0u8]
    }
}

pub fn put_u8(out: &mut Vec<u8>, v: u8)
    ensures
        final(out)@ == old(out)@ + seq![v],
{
    out.push(v);
    assert(out@ =~= old(out)@ + seq![v]);
}

pub fn put_flag(out: &mut Vec<u8>, b: bool)
    ensures
        final(out)@ == old(out)@ + flag(b),
{
    put_u8(out, if b { 1 } else { 0 });
}

pub fn put_bytes(out: &mut Vec<u8>, bytes: &[u8])
    ensures
        final(out)@ == old(out)@ + bytes@,
{
    let mut i: usize = 0;
    assert(out@ =~= old(out)@ + bytes@.take(0));
    while i < bytes.len()
        invariant
            i <= bytes@.len(),
            out@ == old(out)@ + bytes@.take(i as int),
        decreases bytes@.len() - i,
    {
        out.push(bytes[i]);
        assert(out@ =~= old(out)@ + bytes@.take(i + 1));
        i = i + 1;
    }
    assert(bytes@.take(i as int) =~= bytes@);
}

pub fn put_u16(out: &mut Vec<u8>, n: u16)
    ensures
        final(out)@ == old(out)@ + be_bytes(n as nat, 2),
{
    let b = bytes_u16(n);
    put_bytes(out, b.as_slice());
}

pub fn put_u32(out: &mut Vec<u8>, n: u32)
    ensures
        final(out)@ == old(out)@ + be_bytes(n as nat, 4),
{
    let b = bytes_u32(n);
    put_bytes(out, b.as_slice());
}

pub fn put_u64(out: &mut Vec<u8>, n: u64)
    ensures
        final(out)@ == old(out)@ + word(n as nat),
{
    let b = bytes_u64(n);
    put_bytes(out, b.as_slice());
}

pub fn put_size(out: &mut Vec<u8>, n: usize)
    ensures
        final(out)@ == old(out)@ + word(n as nat),
{
    put_u64(out, n as u64);
}

pub fn put_text(out: &mut Vec<u8>, s: &str)
    ensures
        final(out)@ == old(out)@ + text_code(s@),
{
    let bytes = s.as_bytes();
    put_size(out, bytes.len());
    put_bytes(out, bytes);
    assert(out@ =~= old(out)@ + text_code(s@));
}

pub open spec fn struct_ids(s: Seq<StructSpec>) -> Seq<Seq<char>> {
    Seq::new(s.len(), |i: int| s[i].id)
}

/// The place of the first struct of the name `id`.
pub fn struct_index(structs: &[Struct], id: &str) -> (r: Option<usize>)
    ensures
        match r {
            Some(k) => name_position(struct_ids(specs(structs@)), id@) == Some(k as int) && k
                < structs@.len(),
            None => name_position(struct_ids(specs(structs@)), id@) is None,
        },
{
    let ghost names = struct_ids(specs(structs@));
    let mut i: usize = 0;
    assert(names.take(0) =~= Seq::<Seq<char>>::empty());
    while i < structs.len()
        invariant
            i <= structs@.len(),
            names == struct_ids(specs(structs@)),
            name_position(names.take(i as int), id@) is None,
        decreases structs@.len() - i,
    {
        proof {
            assert(names.take(i + 1).drop_last() =~= names.take(i as int));
            assert(names.take(i + 1).last() == structs@[i as int]@.id);
        }
        if same_text(structs[i].id(), id) {
            proof {
                lemma_name_position_extends(names, id@, i + 1);
            }
            return Some(i);
        }
        i = i + 1;
    }
    assert(names.take(i as int) =~= names);
    None
}

/// The bytes of a type: 0 and the place of the struct of its name, 1 and
/// the pointee, or 2, the number of parts and the parts. Fails with
/// `Resolution` where no struct has the name.
pub open spec fn type_code(structs: Seq<StructSpec>, t: TypeTree) -> Result<Seq<u8>, ErrorKind>
    decreases t,
{
    match t {
        TypeTree::Identifier(id) => match name_position(struct_ids(structs), id) {
            Some(k) => Ok(seq![0u8] + word(k as nat)),
            None => Err(ErrorKind::Resolution),
        },
        TypeTree::Pointer(inner) => match type_code(structs, *inner) {
            Ok(code) => Ok(seq![1u8] + code),
            Err(e) => Err(e),
        },
        TypeTree::Tuple(parts) => match types_code(structs, parts) {
            Ok(code) => Ok(seq![2u8] + word(parts.len()) + code),
            Err(e) => Err(e),
        },
    }
}

/// The bytes of the types `parts`, one after the other.
pub open spec fn types_code(structs: Seq<StructSpec>, parts: Seq<TypeTree>) -> Result<
    Seq<u8>,
    ErrorKind,
>
    decreases parts,
{
    if parts.len() == 0 {
        Ok(Seq::empty())
    } else {
        match types_code(structs, parts.drop_last()) {
            Err(e) => Err(e),
            Ok(before) => match type_code(structs, parts.last()) {
                Err(e) => Err(e),
                Ok(code) => Ok(before + code),
            },
        }
    }
}

pub proof fn lemma_types_code_fails(structs: Seq<StructSpec>, parts: Seq<TypeTree>, k: int)
    requires
        0 <= k <= parts.len(),
        types_code(structs, parts.take(k)) is Err,
    ensures
        types_code(structs, parts) == types_code(structs, parts.take(k)),
    decreases parts.len(),
{
    if k == parts.len() {
        assert(parts.take(k) =~= parts);
    } else {
        assert(parts.drop_last().take(k) =~= parts.take(k));
        lemma_types_code_fails(structs, parts.drop_last(), k);
    }
}

/// What a writer owes: the bytes that the specification gives, behind
/// what was written before; or the failure that it gives.
pub open spec fn written(
    r: SimpleResult<()>,
    before: Seq<u8>,
    after: Seq<u8>,
    expected: Result<Seq<u8>, ErrorKind>,
) -> bool {
    match expected {
        Ok(code) => r is Ok && after == before + code,
        Err(kind) => r matches Err(e) && e.kind == kind,
    }
}

/// Writes the bytes of the type `typeid`.
pub fn write_core_type(typeid: &CoreType, out: &mut Vec<u8>, structs: &[Struct]) -> (r:
    SimpleResult<()>)
    ensures
        written(r, old(out)@, final(out)@, type_code(specs(structs@), typeid@)),
    decreases typeid,
{
    let ghost all = specs(structs@);
    match typeid {
        CoreType::Identifier(id) => match struct_index(structs, id.as_str()) {
            Some(k) => {
                put_u8(out, 0);
                put_size(out, k);
                assert(out@ =~= old(out)@ + (seq![0u8] + word(k as nat)));
                Ok(())
            },
            None => fail(ErrorKind::Resolution, "a type names a struct that is not there"),
        },
        CoreType::Pointer(inner) => {
            put_u8(out, 1);
            let ghost mid = out@;
            write_core_type(inner, out, structs)?;
            assert(out@ =~= old(out)@ + (seq![1u8] + type_code(all, inner@)->Ok_0));
            Ok(())
        },
        CoreType::Tuple(parts) => {
            put_u8(out, 2);
            put_size(out, parts.len());
            let ghost head = out@;
            let ghost ts = trees(parts@);
            proof {
                lemma_tuple_tree(*parts);
                assert(ts.take(0) =~= Seq::<TypeTree>::empty());
                assert(out@ =~= head + Seq::<u8>::empty());
            }
            let mut i: usize = 0;
            while i < parts.len()
                invariant
                    i <= parts@.len(),
                    *typeid == CoreType::Tuple(*parts),
                    typeid@ == TypeTree::Tuple(ts),
                    ts == trees(parts@),
                    all == specs(structs@),
                    head == old(out)@ + seq![2u8] + word(parts@.len()),
                    types_code(all, ts.take(i as int)) matches Ok(code) && out@ == head + code,
                decreases parts@.len() - i,
            {
                proof {
                    assert(ts.take(i + 1).drop_last() =~= ts.take(i as int));
                    assert(ts.take(i + 1).last() == parts@[i as int]@);
                    assert(typeid->Tuple_0 == *parts);
                }
                let ghost before = out@;
                let ghost done = types_code(all, ts.take(i as int))->Ok_0;
                match write_core_type(&parts[i], out, structs) {
                    Ok(_) => {
                        assert(out@ =~= head + (done + type_code(all, parts@[i as int]@)->Ok_0));
                    },
                    Err(e) => {
                        proof {
                            assert(types_code(all, ts.take(i + 1)) is Err);
                            lemma_types_code_fails(all, ts, i + 1);
                        }
                        return Err(e);
                    },
                }
                i = i + 1;
            }
            assert(ts.take(i as int) =~= ts);
            assert(out@ =~= old(out)@ + (seq![2u8] + word(parts@.len()) + types_code(all, ts)->Ok_0));
            Ok(())
        },
    }
}

// ---------------------------------------------------------------------------
// Records
// ---------------------------------------------------------------------------

/// The bytes of a variable: index, type, size, and the offset behind a
/// flag.
pub open spec fn variable_code(structs: Seq<StructSpec>, v: VariableSpec) -> Result<
    Seq<u8>,
    ErrorKind,
> {
    match type_code(structs, v.typeid) {
        Err(e) => Err(e),
        Ok(t) => Ok(
            word(v.index as nat) + t + word(v.size as nat) + match v.offset {
                Some(o) => seq![1u8] + word(o as nat),
                None => seq![0u8],
            },
        ),
    }
}

/// The bytes of the variables `vars`, one after the other.
pub open spec fn variables_code(structs: Seq<StructSpec>, vars: Seq<VariableSpec>) -> Result<
    Seq<u8>,
    ErrorKind,
>
    decreases vars.len(),
{
    if vars.len() == 0 {
        Ok(Seq::empty())
    } else {
        match variables_code(structs, vars.drop_last()) {
            Err(e) => Err(e),
            Ok(before) => match variable_code(structs, vars.last()) {
                Err(e) => Err(e),
                Ok(code) => Ok(before + code),
            },
        }
    }
}

pub proof fn lemma_variables_code_fails(structs: Seq<StructSpec>, vars: Seq<VariableSpec>, k: int)
    requires
        0 <= k <= vars.len(),
        variables_code(structs, vars.take(k)) is Err,
    ensures
        variables_code(structs, vars) == variables_code(structs, vars.take(k)),
    decreases vars.len(),
{
    if k == vars.len() {
        assert(vars.take(k) =~= vars);
    } else {
        assert(vars.drop_last().take(k) =~= vars.take(k));
        lemma_variables_code_fails(structs, vars.drop_last(), k);
    }
}

/// Writes the bytes of the variable `v`.
pub fn write_variable(v: &Variable, out: &mut Vec<u8>, structs: &[Struct]) -> (r: SimpleResult<()>)
    ensures
        written(r, old(out)@, final(out)@, variable_code(specs(structs@), v@)),
{
    put_size(out, v.index());
    write_core_type(v.typeid(), out, structs)?;
    put_size(out, v.size());
    match v.offset() {
        Some(o) => {
            put_u8(out, 1);
            put_size(out, *o);
        },
        None => {
            put_u8(out, 0);
        },
    }
    assert(out@ =~= old(out)@ + variable_code(specs(structs@), v@)->Ok_0);
    Ok(())
}

/// Writes the bytes of the variables `vars`.
pub fn write_variables(vars: &[Variable], out: &mut Vec<u8>, structs: &[Struct]) -> (r:
    SimpleResult<()>)
    ensures
        written(r, old(out)@, final(out)@, variables_code(specs(structs@), specs(vars@))),
{
    let ghost all = specs(structs@);
    let ghost list = specs(vars@);
    let mut i: usize = 0;
    proof {
        assert(list.take(0) =~= Seq::<VariableSpec>::empty());
        assert(out@ =~= old(out)@ + Seq::<u8>::empty());
    }
    while i < vars.len()
        invariant
            i <= vars@.len(),
            all == specs(structs@),
            list == specs(vars@),
            variables_code(all, list.take(i as int)) matches Ok(code) && out@ == old(out)@ + code,
        decreases vars@.len() - i,
    {
        proof {
            assert(list.take(i + 1).drop_last() =~= list.take(i as int));
            assert(list.take(i + 1).last() == vars@[i as int]@);
        }
        let ghost done = variables_code(all, list.take(i as int))->Ok_0;
        match write_variable(&vars[i], out, structs) {
            Ok(_) => {
                assert(out@ =~= old(out)@ + (done + variable_code(all, vars@[i as int]@)->Ok_0));
            },
            Err(e) => {
                proof {
                    assert(variables_code(all, list.take(i + 1)) is Err);
                    lemma_variables_code_fails(all, list, i + 1);
                }
                return Err(e);
            },
        }
        i = i + 1;
    }
    assert(list.take(i as int) =~= list);
    Ok(())
}

/// The bytes of a field: type, offset, size.
pub open spec fn field_code(structs: Seq<StructSpec>, f: FieldSpec) -> Result<Seq<u8>, ErrorKind> {
    match type_code(structs, f.typeid) {
        Err(e) => Err(e),
        Ok(t) => Ok(t + word(f.offset as nat) + word(f.size as nat)),
    }
}

/// The bytes of the fields `fields`, one after the other.
pub open spec fn fields_code(structs: Seq<StructSpec>, fields: Seq<FieldSpec>) -> Result<
    Seq<u8>,
    ErrorKind,
>
    decreases fields.len(),
{
    if fields.len() == 0 {
        Ok(Seq::empty())
    } else {
        match fields_code(structs, fields.drop_last()) {
            Err(e) => Err(e),
            Ok(before) => match field_code(structs, fields.last()) {
                Err(e) => Err(e),
                Ok(code) => Ok(before + code),
            },
        }
    }
}

pub proof fn lemma_fields_code_fails(structs: Seq<StructSpec>, fields: Seq<FieldSpec>, k: int)
    requires
        0 <= k <= fields.len(),
        fields_code(structs, fields.take(k)) is Err,
    ensures
        fields_code(structs, fields) == fields_code(structs, fields.take(k)),
    decreases fields.len(),
{
    if k == fields.len() {
        assert(fields.take(k) =~= fields);
    } else {
        assert(fields.drop_last().take(k) =~= fields.take(k));
        lemma_fields_code_fails(structs, fields.drop_last(), k);
    }
}

/// The bytes of a struct: index, the number of fields, the fields, size,
/// export flag.
pub open spec fn struct_code(structs: Seq<StructSpec>, s: StructSpec) -> Result<Seq<u8>, ErrorKind> {
    match fields_code(structs, s.fields) {
        Err(e) => Err(e),
        Ok(fields) => Ok(
            word(s.index as nat) + word(s.fields.len()) + fields + word(s.size as nat) + flag(
                s.export,
            ),
        ),
    }
}

/// Writes the bytes of the field `f`.
pub fn write_field(f: &StructField, out: &mut Vec<u8>, structs: &[Struct]) -> (r: SimpleResult<()>)
    ensures
        written(r, old(out)@, final(out)@, field_code(specs(structs@), f@)),
{
    write_core_type(f.typeid(), out, structs)?;
    put_size(out, f.offset());
    put_size(out, f.size());
    assert(out@ =~= old(out)@ + field_code(specs(structs@), f@)->Ok_0);
    Ok(())
}

/// The bytes of the struct `s`.
pub fn struct_to_bytes(s: &Struct, structs: &[Struct]) -> (r: SimpleResult<Vec<u8>>)
    ensures
        match struct_code(specs(structs@), s@) {
            Ok(code) => r matches Ok(bytes) && bytes@ == code,
            Err(kind) => r matches Err(e) && e.kind == kind,
        },
{
    let ghost all = specs(structs@);
    let mut out: Vec<u8> = Vec::new();
    put_size(&mut out, s.index());
    let fields = s.fields();
    put_size(&mut out, fields.len());
    let ghost head = out@;
    let ghost list = specs(fields@);
    let mut i: usize = 0;
    proof {
        assert(list.take(0) =~= Seq::<FieldSpec>::empty());
        assert(out@ =~= head + Seq::<u8>::empty());
        assert(head =~= word(s@.index as nat) + word(s@.fields.len()));
    }
    while i < fields.len()
        invariant
            i <= fields@.len(),
            all == specs(structs@),
            list == specs(fields@),
            list == s@.fields,
            head == word(s@.index as nat) + word(s@.fields.len()),
            fields_code(all, list.take(i as int)) matches Ok(code) && out@ == head + code,
        decreases fields@.len() - i,
    {
        proof {
            assert(list.take(i + 1).drop_last() =~= list.take(i as int));
            assert(list.take(i + 1).last() == fields@[i as int]@);
        }
        let ghost done = fields_code(all, list.take(i as int))->Ok_0;
        match write_field(&fields[i], &mut out, structs) {
            Ok(_) => {
                assert(out@ =~= head + (done + field_code(all, fields@[i as int]@)->Ok_0));
            },
            Err(e) => {
                proof {
                    assert(fields_code(all, list.take(i + 1)) is Err);
                    lemma_fields_code_fails(all, list, i + 1);
                }
                return Err(e);
            },
        }
        i = i + 1;
    }
    assert(list.take(i as int) =~= list);
    put_size(&mut out, s.size());
    put_flag(&mut out, s.export());
    assert(out@ =~= struct_code(all, s@)->Ok_0);
    Ok(out)
}

/// The bytes of a function header: index, parameters, the type of the
/// result behind a flag, locals, the place of an external function
/// behind a flag, export flag.
pub open spec fn header_code(structs: Seq<StructSpec>, f: FunctionSpec) -> Result<Seq<u8>, ErrorKind> {
    match variables_code(structs, f.params) {
        Err(e) => Err(e),
        Ok(params) => match (match f.typeid {
            Some(t) => match type_code(structs, t) {
                Ok(code) => Ok(seq![1u8] + code),
                Err(e) => Err(e),
            },
            None => Ok(seq![0u8]),
        }) {
            Err(e) => Err(e),
            Ok(result) => match variables_code(structs, f.locals) {
                Err(e) => Err(e),
                Ok(locals) => Ok(
                    word(f.index as nat) + word(f.params.len()) + params + result + word(
                        f.locals.len(),
                    ) + locals + match f.external {
                        Some((m, n)) => seq![1u8] + text_code(m) + text_code(n),
                        None => seq![0u8],
                    } + flag(f.export),
                ),
            },
        },
    }
}

/// The bytes of the header of the function `f`.
pub fn function_to_header_bytes(f: &Function, structs: &[Struct]) -> (r: SimpleResult<Vec<u8>>)
    ensures
        match header_code(specs(structs@), f@) {
            Ok(code) => r matches Ok(bytes) && bytes@ == code,
            Err(kind) => r matches Err(e) && e.kind == kind,
        },
{
    let mut out: Vec<u8> = Vec::new();
    put_size(&mut out, f.index());
    put_size(&mut out, f.params().len());
    write_variables(f.params(), &mut out, structs)?;
    match f.typeid() {
        Some(t) => {
            put_u8(&mut out, 1);
            write_core_type(t, &mut out, structs)?;
        },
        None => {
            put_u8(&mut out, 0);
        },
    }
    put_size(&mut out, f.locals().len());
    write_variables(f.locals(), &mut out, structs)?;
    match f.external() {
        Some((m, n)) => {
            put_u8(&mut out, 1);
            put_text(&mut out, m.as_str());
            put_text(&mut out, n.as_str());
        },
        None => {
            put_u8(&mut out, 0);
        },
    }
    put_flag(&mut out, f.export());
    assert(out@ =~= header_code(specs(structs@), f@)->Ok_0);
    Ok(out)
}

} // verus!
