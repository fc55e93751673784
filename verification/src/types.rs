//! The types of the values of an operation, as the encoder finds them in
//! the assembly of a program.

use crate::assembly::{
    fail, field_named, specs, tree_of, FieldSpec, Function, FunctionSpec, Struct, StructSpec,
    Variable, VariableSpec,
};
use crate::consts::{ConstModel, ConstTable};
use crate::emit::{struct_ids, struct_index};
use crate::error::{ErrorKind, SimpleResult};
use crate::image::{host_word_size, word_size};
use crate::link::{lemma_name_position_extends, lemma_name_position_in_range, name_position, spec_names};
use crate::names::{lookup, same_text, NameTable};
use crate::opnames::OpsCollector;
use crate::program::{
    lemma_trees_push, lemma_tuple_tree, trees, Access, Number, Type as CoreType, TypeTree, Value,
};
use vstd::prelude::*;

verus! {

/// What the encoder knows while it lowers the body of a function.
pub struct Ctx {
    pub structs: Seq<StructSpec>,
    pub functions: Seq<FunctionSpec>,
    pub globals: Seq<VariableSpec>,
    /// The function whose body is lowered.
    pub function: FunctionSpec,
    /// The offsets of the constants in the data pool.
    pub data: ConstModel,
    /// The offsets of the globals.
    pub global_offsets: Seq<(Seq<char>, u64)>,
    /// The indices of the operations and the types of their results.
    pub ops: Seq<(Seq<char>, (u64, Option<TypeTree>))>,
}

/// What the encoder knows while it lowers the body of a function.
pub struct Scope<'s, 'a> {
    pub structs: &'s [Struct],
    pub functions: &'s [Function<'a>],
    pub globals: &'s [Variable],
    pub function: &'s Function<'a>,
    pub data: &'s ConstTable,
    pub global_offsets: &'s NameTable<u64>,
    pub ops: &'s OpsCollector,
}

impl<'s, 'a> View for Scope<'s, 'a> {
    type V = Ctx;

    open spec fn view(&self) -> Ctx {
        Ctx {
            structs: specs(self.structs@),
            functions: specs(self.functions@),
            globals: specs(self.globals@),
            function: self.function@,
            data: self.data@,
            global_offsets: self.global_offsets@,
            ops: self.ops@.table,
        }
    }
}

pub open spec fn variable_ids(s: Seq<VariableSpec>) -> Seq<Seq<char>> {
    Seq::new(s.len(), |i: int| s[i].id)
}

/// The first struct of the name `id`.
pub open spec fn struct_named(structs: Seq<StructSpec>, id: Seq<char>) -> Option<StructSpec> {
    match name_position(struct_ids(structs), id) {
        Some(k) => Some(structs[k]),
        None => None,
    }
}

/// The first function of the name `id`.
pub open spec fn function_named(functions: Seq<FunctionSpec>, id: Seq<char>) -> Option<
    FunctionSpec,
> {
    match name_position(spec_names(functions), id) {
        Some(k) => Some(functions[k]),
        None => None,
    }
}

/// The first variable of the name `id`.
pub open spec fn variable_named(vars: Seq<VariableSpec>, id: Seq<char>) -> Option<VariableSpec> {
    match name_position(variable_ids(vars), id) {
        Some(k) => Some(vars[k]),
        None => None,
    }
}

/// The first struct of the name `id`.
pub fn find_struct<'s>(structs: &'s [Struct], id: &str) -> (r: Option<&'s Struct>)
    ensures
        match r {
            Some(s) => struct_named(specs(structs@), id@) == Some(s@),
            None => struct_named(specs(structs@), id@) is None,
        },
{
    match struct_index(structs, id) {
        Some(k) => Some(&structs[k]),
        None => None,
    }
}

/// The first function of the name `id`.
pub fn find_function<'s, 'a>(functions: &'s [Function<'a>], id: &str) -> (r: Option<
    &'s Function<'a>,
>)
    ensures
        match r {
            Some(f) => function_named(specs(functions@), id@) == Some(f@),
            None => function_named(specs(functions@), id@) is None,
        },
{
    let ghost names = spec_names(specs(functions@));
    let mut i: usize = 0;
    assert(names.take(0) =~= Seq::<Seq<char>>::empty());
    while i < functions.len()
        invariant
            i <= functions@.len(),
            names == spec_names(specs(functions@)),
            name_position(names.take(i as int), id@) is None,
        decreases functions@.len() - i,
    {
        proof {
            assert(names.take(i + 1).drop_last() =~= names.take(i as int));
            assert(names.take(i + 1).last() == functions@[i as int]@.id);
        }
        if same_text(functions[i].id(), id) {
            proof {
                lemma_name_position_extends(names, id@, i + 1);
            }
            return Some(&functions[i]);
        }
        i = i + 1;
    }
    assert(names.take(i as int) =~= names);
    None
}

/// The first variable of the name `id`.
pub fn find_variable<'s>(vars: &'s [Variable], id: &str) -> (r: Option<&'s Variable>)
    ensures
        match r {
            Some(v) => variable_named(specs(vars@), id@) == Some(v@),
            None => variable_named(specs(vars@), id@) is None,
        },
{
    let ghost names = variable_ids(specs(vars@));
    let mut i: usize = 0;
    assert(names.take(0) =~= Seq::<Seq<char>>::empty());
    while i < vars.len()
        invariant
            i <= vars@.len(),
            names == variable_ids(specs(vars@)),
            name_position(names.take(i as int), id@) is None,
        decreases vars@.len() - i,
    {
        proof {
            assert(names.take(i + 1).drop_last() =~= names.take(i as int));
            assert(names.take(i + 1).last() == vars@[i as int]@.id);
        }
        if same_text(vars[i].id(), id) {
            proof {
                lemma_name_position_extends(names, id@, i + 1);
            }
            return Some(&vars[i]);
        }
        i = i + 1;
    }
    assert(names.take(i as int) =~= names);
    None
}

/// The size in bytes of a value of type `t`: that of the first struct of
/// the name for an identifier, a host word for a pointer, the sum of the
/// parts for a tuple. Fails with `Resolution` where no struct has the
/// name, and with `TypeError` where the size exceeds what the host can
/// hold.
pub open spec fn size_at(structs: Seq<StructSpec>, t: TypeTree) -> Result<usize, ErrorKind>
    decreases t,
{
    match t {
        TypeTree::Identifier(id) => match struct_named(structs, id) {
            Some(s) => Ok(s.size),
            None => Err(ErrorKind::Resolution),
        },
        TypeTree::Pointer(_) => Ok(word_size() as usize),
        TypeTree::Tuple(ts) => sizes_at(structs, ts),
    }
}

/// The sum of the sizes of the types `ts`.
pub open spec fn sizes_at(structs: Seq<StructSpec>, ts: Seq<TypeTree>) -> Result<usize, ErrorKind>
    decreases ts,
{
    if ts.len() == 0 {
        Ok(0)
    } else {
        match sizes_at(structs, ts.drop_last()) {
            Err(e) => Err(e),
            Ok(a) => match size_at(structs, ts.last()) {
                Err(e) => Err(e),
                Ok(b) => if a + b > usize::MAX {
                    Err(ErrorKind::TypeError)
                } else {
                    Ok((a + b) as usize)
                },
            },
        }
    }
}

pub proof fn lemma_sizes_at_fails(structs: Seq<StructSpec>, ts: Seq<TypeTree>, k: int)
    requires
        0 <= k <= ts.len(),
        sizes_at(structs, ts.take(k)) is Err,
    ensures
        sizes_at(structs, ts) == sizes_at(structs, ts.take(k)),
    decreases ts.len(),
{
    if k == ts.len() {
        assert(ts.take(k) =~= ts);
    } else {
        assert(ts.drop_last().take(k) =~= ts.take(k));
        lemma_sizes_at_fails(structs, ts.drop_last(), k);
    }
}

/// What a finder owes: the value that the specification gives, or the
/// failure that it gives.
pub open spec fn found<T>(r: SimpleResult<T>, expected: Result<T, ErrorKind>) -> bool {
    match expected {
        Ok(v) => r matches Ok(x) && x == v,
        Err(kind) => r matches Err(e) && e.kind == kind,
    }
}

/// What a finder of a type owes.
pub open spec fn found_type(r: SimpleResult<CoreType>, expected: Result<TypeTree, ErrorKind>) -> bool {
    match expected {
        Ok(t) => r matches Ok(x) && x@ == t,
        Err(kind) => r matches Err(e) && e.kind == kind,
    }
}

/// The size in bytes of a value of type `typeid`.
pub fn type_size(structs: &[Struct], typeid: &CoreType) -> (r: SimpleResult<usize>)
    ensures
        found(r, size_at(specs(structs@), typeid@)),
    decreases typeid,
{
    let ghost all = specs(structs@);
    match typeid {
        CoreType::Identifier(id) => match find_struct(structs, id.as_str()) {
            Some(s) => Ok(s.size()),
            None => fail(ErrorKind::Resolution, "a type names a struct that is not there"),
        },
        CoreType::Pointer(_) => Ok(host_word_size()),
        CoreType::Tuple(parts) => {
            let ghost ts = trees(parts@);
            proof {
                lemma_tuple_tree(*parts);
                assert(ts.take(0) =~= Seq::<TypeTree>::empty());
            }
            let mut total: usize = 0;
            let mut i: usize = 0;
            while i < parts.len()
                invariant
                    i <= parts@.len(),
                    *typeid == CoreType::Tuple(*parts),
                    typeid@ == TypeTree::Tuple(ts),
                    ts == trees(parts@),
                    all == specs(structs@),
                    sizes_at(all, ts.take(i as int)) == Ok::<usize, ErrorKind>(total),
                decreases parts@.len() - i,
            {
                proof {
                    assert(ts.take(i + 1).drop_last() =~= ts.take(i as int));
                    assert(ts.take(i + 1).last() == parts@[i as int]@);
                    assert(typeid->Tuple_0 == *parts);
                }
                let part = match type_size(structs, &parts[i]) {
                    Ok(n) => n,
                    Err(e) => {
                        proof {
                            assert(sizes_at(all, ts.take(i + 1)) is Err);
                            lemma_sizes_at_fails(all, ts, i + 1);
                        }
                        return Err(e);
                    },
                };
                total = match total.checked_add(part) {
                    Some(n) => n,
                    None => {
                        proof {
                            assert(sizes_at(all, ts.take(i + 1)) is Err);
                            lemma_sizes_at_fails(all, ts, i + 1);
                        }
                        return fail(ErrorKind::TypeError, "a tuple exceeds what the host can hold");
                    },
                };
                i = i + 1;
            }
            assert(ts.take(i as int) =~= ts);
            Ok(total)
        },
    }
}

/// The type of the part that the access `a` reaches in a value of type
/// `t`. Fails with `TypeError` where the access asks for a part of a
/// tuple in what is no tuple or has no such part, or for a field in what
/// is no struct or has no such field, and with `Resolution` where no
/// struct has the name of the type.
pub open spec fn access_type(structs: Seq<StructSpec>, t: TypeTree, a: Access) -> Result<
    TypeTree,
    ErrorKind,
>
    decreases a,
{
    match a {
        Access::Tuple(i, next) => match t {
            TypeTree::Tuple(parts) => if 0 <= i < parts.len() {
                match next {
                    Some(n) => access_type(structs, parts[i as int], *n),
                    None => Ok(parts[i as int]),
                }
            } else {
                Err(ErrorKind::TypeError)
            },
            _ => Err(ErrorKind::TypeError),
        },
        Access::Variable(name, next) => match t {
            TypeTree::Identifier(id) => match struct_named(structs, id) {
                Some(s) => match field_named(s.fields, name@) {
                    Some(f) => match next {
                        Some(n) => access_type(structs, f.typeid, *n),
                        None => Ok(f.typeid),
                    },
                    None => Err(ErrorKind::TypeError),
                },
                None => Err(ErrorKind::Resolution),
            },
            _ => Err(ErrorKind::TypeError),
        },
    }
}

/// The type of the part that the access `access` reaches in a value of
/// type `type_`.
pub fn find_access_type(structs: &[Struct], type_: &CoreType, access: &Access) -> (r:
    SimpleResult<CoreType>)
    ensures
        found_type(r, access_type(specs(structs@), type_@, *access)),
    decreases access,
{
    match access {
        Access::Tuple(i, next) => match type_ {
            CoreType::Tuple(parts) => {
                proof {
                    lemma_tuple_tree(*parts);
                }
                if *i >= 0 && (*i as u64) < parts.len() as u64 {
                    let k = *i as usize;
                    assert(trees(parts@)[k as int] == parts@[k as int]@);
                    match next {
                        Some(n) => find_access_type(structs, &parts[k], n),
                        None => Ok(parts[k].duplicate()),
                    }
                } else {
                    fail(ErrorKind::TypeError, "a tuple has no such part")
                }
            },
            _ => fail(ErrorKind::TypeError, "a part of a tuple is asked of what is no tuple"),
        },
        Access::Variable(name, next) => match type_ {
            CoreType::Identifier(id) => match find_struct(structs, id.as_str()) {
                Some(s) => match s.find_field(name.as_str()) {
                    Some(f) => match next {
                        Some(n) => find_access_type(structs, f.typeid(), n),
                        None => Ok(f.typeid().duplicate()),
                    },
                    None => fail(ErrorKind::TypeError, "a struct has no such field"),
                },
                None => fail(ErrorKind::Resolution, "a type names a struct that is not there"),
            },
            _ => fail(ErrorKind::TypeError, "a field is asked of what is no struct"),
        },
    }
}

/// The type of the part that an optional access reaches.
pub open spec fn accessed_type(structs: Seq<StructSpec>, t: TypeTree, a: Option<Box<Access>>) -> Result<
    TypeTree,
    ErrorKind,
> {
    match a {
        Some(acc) => access_type(structs, t, *acc),
        None => Ok(t),
    }
}

/// The type of the value `v`. Fails with `TypeError` where a reference
/// is accessed, where what is dereferenced is no pointer, where a
/// function that is called gives no result, or as an access fails; and
/// with `Resolution` where a function, an operation with a result or a
/// variable of the name is not there.
pub open spec fn value_type(ctx: Ctx, v: Value) -> Result<TypeTree, ErrorKind>
    decreases v,
{
    match v {
        Value::Ref(inner, a) => match value_type(ctx, *inner) {
            Err(e) => Err(e),
            Ok(t) => if a is Some {
                Err(ErrorKind::TypeError)
            } else {
                Ok(TypeTree::Pointer(Box::new(t)))
            },
        },
        Value::Deref(inner, a) => match value_type(ctx, *inner) {
            Err(e) => Err(e),
            Ok(TypeTree::Pointer(t)) => accessed_type(ctx.structs, *t, a),
            Ok(_) => Err(ErrorKind::TypeError),
        },
        Value::FunctionCall(id, _, a) => match function_named(ctx.functions, id@) {
            None => Err(ErrorKind::Resolution),
            Some(f) => match f.typeid {
                Some(t) => accessed_type(ctx.structs, t, a),
                None => Err(ErrorKind::TypeError),
            },
        },
        Value::Tuple(parts, a) => match values_types(ctx, parts@) {
            Err(e) => Err(e),
            Ok(ts) => accessed_type(ctx.structs, TypeTree::Tuple(ts), a),
        },
        Value::String(_, t) => Ok(t@),
        Value::Number(Number::Integer(_, t)) => Ok(t@),
        Value::Number(Number::Float(_, t)) => Ok(t@),
        Value::OperationInline(id, _, a) => match lookup(ctx.ops, id@) {
            Some((_, Some(t))) => accessed_type(ctx.structs, t, a),
            _ => Err(ErrorKind::Resolution),
        },
        Value::Variable(id, a) => match variable_named(ctx.function.params, id@) {
            Some(p) => accessed_type(ctx.structs, p.typeid, a),
            None => match variable_named(ctx.function.locals, id@) {
                Some(l) => accessed_type(ctx.structs, l.typeid, a),
                None => match variable_named(ctx.globals, id@) {
                    Some(g) => accessed_type(ctx.structs, g.typeid, a),
                    None => Err(ErrorKind::Resolution),
                },
            },
        },
    }
}

/// The types of the values `vs`.
pub open spec fn values_types(ctx: Ctx, vs: Seq<Value>) -> Result<Seq<TypeTree>, ErrorKind>
    decreases vs,
{
    if vs.len() == 0 {
        Ok(Seq::empty())
    } else {
        match values_types(ctx, vs.drop_last()) {
            Err(e) => Err(e),
            Ok(ts) => match value_type(ctx, vs.last()) {
                Err(e) => Err(e),
                Ok(t) => Ok(ts.push(t)),
            },
        }
    }
}

pub proof fn lemma_values_types_fails(ctx: Ctx, vs: Seq<Value>, k: int)
    requires
        0 <= k <= vs.len(),
        values_types(ctx, vs.take(k)) is Err,
    ensures
        values_types(ctx, vs) == values_types(ctx, vs.take(k)),
    decreases vs.len(),
{
    if k == vs.len() {
        assert(vs.take(k) =~= vs);
    } else {
        assert(vs.drop_last().take(k) =~= vs.take(k));
        lemma_values_types_fails(ctx, vs.drop_last(), k);
    }
}

impl<'s, 'a> Scope<'s, 'a> {
    /// The type of the part that an optional access reaches.
    pub fn accessed(&self, t: &CoreType, a: &Option<Box<Access>>) -> (r: SimpleResult<CoreType>)
        ensures
            found_type(r, accessed_type(self@.structs, t@, *a)),
    {
        match a {
            Some(acc) => find_access_type(self.structs, t, acc),
            None => Ok(t.duplicate()),
        }
    }

    /// The types of the values `vs`.
    pub fn find_values_types(&self, vs: &Vec<Value>) -> (r: SimpleResult<Vec<CoreType>>)
        ensures
            match values_types(self@, vs@) {
                Ok(ts) => r matches Ok(x) && trees(x@) == ts,
                Err(kind) => r matches Err(e) && e.kind == kind,
            },
        decreases vs,
    {
        let mut out: Vec<CoreType> = Vec::new();
        let mut i: usize = 0;
        proof {
            assert(vs@.take(0) =~= Seq::<Value>::empty());
            assert(trees(out@) =~= Seq::<TypeTree>::empty());
        }
        while i < vs.len()
            invariant
                i <= vs@.len(),
                values_types(self@, vs@.take(i as int)) == Ok::<Seq<TypeTree>, ErrorKind>(
                    trees(out@),
                ),
            decreases vs@.len() - i,
        {
            proof {
                assert(vs@.take(i + 1).drop_last() =~= vs@.take(i as int));
                assert(vs@.take(i + 1).last() == vs@[i as int]);
                assert(decreases_to!(vs => vs@[i as int]));
            }
            let t = match self.find_value_type(&vs[i]) {
                Ok(t) => t,
                Err(e) => {
                    proof {
                        assert(values_types(self@, vs@.take(i + 1)) is Err);
                        lemma_values_types_fails(self@, vs@, i + 1);
                    }
                    return Err(e);
                },
            };
            proof {
                lemma_trees_push(out@, t);
            }
            out.push(t);
            i = i + 1;
        }
        assert(vs@.take(i as int) =~= vs@);
        Ok(out)
    }

    /// The type of the value `value`.
    pub fn find_value_type(&self, value: &Value) -> (r: SimpleResult<CoreType>)
        ensures
            found_type(r, value_type(self@, *value)),
        decreases value,
    {
        match value {
            Value::Ref(v, a) => {
                let t = self.find_value_type(v)?;
                if a.is_some() {
                    fail(ErrorKind::TypeError, "a reference is accessed")
                } else {
                    Ok(CoreType::Pointer(Box::new(t)))
                }
            },
            Value::Deref(v, a) => {
                let t = self.find_value_type(v)?;
                match t {
                    CoreType::Pointer(inner) => self.accessed(&inner, a),
                    _ => fail(ErrorKind::TypeError, "what is dereferenced is no pointer"),
                }
            },
            Value::FunctionCall(id, _, a) => match find_function(self.functions, id.as_str()) {
                Some(f) => match f.typeid() {
                    Some(t) => self.accessed(t, a),
                    None => fail(ErrorKind::TypeError, "a function that is called gives no result"),
                },
                None => fail(ErrorKind::Resolution, "a function that is called is not there"),
            },
            Value::Tuple(v, a) => {
                let ts = self.find_values_types(v)?;
                proof {
                    lemma_tuple_tree(ts);
                }
                let t = CoreType::Tuple(ts);
                self.accessed(&t, a)
            },
            Value::String(_, t) => Ok(t.duplicate()),
            Value::Number(n) => match n {
                Number::Integer(_, t) => Ok(t.duplicate()),
                Number::Float(_, t) => Ok(t.duplicate()),
            },
            Value::OperationInline(id, _, a) => match self.ops.get(id.as_str()) {
                Some(entry) => match &entry.1 {
                    Some(t) => self.accessed(t, a),
                    None => fail(ErrorKind::Resolution, "an operation that is inlined gives no result"),
                },
                None => fail(ErrorKind::Resolution, "an operation that is inlined is not there"),
            },
            Value::Variable(id, a) => {
                let t = match find_variable(self.function.params(), id.as_str()) {
                    Some(v) => v.typeid(),
                    None => match find_variable(self.function.locals(), id.as_str()) {
                        Some(v) => v.typeid(),
                        None => match find_variable(self.globals, id.as_str()) {
                            Some(v) => v.typeid(),
                            None => {
                                return fail(ErrorKind::Resolution, "a variable is not there");
                            },
                        },
                    },
                };
                self.accessed(t, a)
            },
        }
    }
}

} // verus!
