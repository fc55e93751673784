//! The assembly of a program: its structs, globals and functions, each
//! with its index and its layout, as the encoder writes them into an
//! image.

use crate::error::{ErrorKind, SimpleError, SimpleResult};
use crate::layout::{calculate_type_size, type_size_in};
use crate::names::same_text;
use crate::program::{
    BlockOp, Extern as CoreExtern, Function as CoreFunction, Module as CoreModule,
    Program as CoreProgram, Struct as CoreStruct, Type as CoreType, TypeTree,
    Variable as CoreVariable,
};
use vstd::prelude::*;

verus! {

pub(crate) fn fail<T>(kind: ErrorKind, message: &str) -> (r: SimpleResult<T>)
    ensures
        r matches Err(e) && e.kind == kind,
{
    Err(SimpleError::of(kind, message))
}

/// What a builder owes: the value that the specification gives, or the
/// failure that it gives.
pub open spec fn built<T: View>(r: SimpleResult<T>, expected: Result<T::V, ErrorKind>) -> bool {
    match expected {
        Ok(v) => r matches Ok(x) && x@ == v,
        Err(kind) => r matches Err(e) && e.kind == kind,
    }
}

/// The views of the items of a sequence.
pub open spec fn specs<T: View>(s: Seq<T>) -> Seq<T::V> {
    Seq::new(s.len(), |i: int| s[i]@)
}

pub proof fn lemma_specs_push<T: View>(s: Seq<T>, x: T)
    ensures
        specs(s.push(x)) == specs(s).push(x@),
{
    assert(specs(s.push(x)) =~= specs(s).push(x@));
}

pub proof fn lemma_specs_empty<T: View>()
    ensures
        specs(Seq::<T>::empty()) == Seq::<T::V>::empty(),
{
    assert(specs(Seq::<T>::empty()) =~= Seq::<T::V>::empty());
}

// ---------------------------------------------------------------------------
// Variables
// ---------------------------------------------------------------------------

/// A variable of the assembly: a global, a parameter or a local, with its
/// index, its size, and its offset among its neighbours if it has one.
#[derive(Debug)]
pub struct Variable {
    index: usize,
    id: String,
    typeid: CoreType,
    size: usize,
    offset: Option<usize>,
}

/// The model of `Variable`.
pub struct VariableSpec {
    pub index: usize,
    pub id: Seq<char>,
    pub typeid: TypeTree,
    pub size: usize,
    pub offset: Option<usize>,
}

impl View for Variable {
    type V = VariableSpec;

    closed spec fn view(&self) -> VariableSpec {
        VariableSpec {
            index: self.index,
            id: self.id@,
            typeid: self.typeid@,
            size: self.size,
            offset: self.offset,
        }
    }
}

/// The variable of the assembly for a variable of the program. Fails
/// with `TypeError` where its type has no size.
pub open spec fn variable_built(
    modules: Seq<CoreModule>,
    index: usize,
    variable: CoreVariable,
    offset: Option<usize>,
) -> Result<VariableSpec, ErrorKind> {
    match type_size_in(modules, variable.typeid@) {
        Some(size) => Ok(
            VariableSpec { index, id: variable.id@, typeid: variable.typeid@, size, offset },
        ),
        None => Err(ErrorKind::TypeError),
    }
}

impl Variable {
    pub fn from_core(
        index: usize,
        variable: &CoreVariable,
        program: &CoreProgram,
        offset: Option<usize>,
    ) -> (r: SimpleResult<Self>)
        ensures
            built(r, variable_built(program.modules@, index, *variable, offset)),
    {
        let size = calculate_type_size(&variable.typeid, program)?;
        Ok(
            Variable {
                index,
                id: variable.id.clone(),
                typeid: variable.typeid.duplicate(),
                size,
                offset,
            },
        )
    }

    pub fn index(&self) -> (r: usize)
        ensures
            r == self@.index,
    {
        self.index
    }

    pub fn id(&self) -> (r: &str)
        ensures
            r@ == self@.id,
    {
        self.id.as_str()
    }

    pub fn typeid(&self) -> (r: &CoreType)
        ensures
            r@ == self@.typeid,
    {
        &self.typeid
    }

    pub fn size(&self) -> (r: usize)
        ensures
            r == self@.size,
    {
        self.size
    }

    pub fn offset(&self) -> (r: &Option<usize>)
        ensures
            *r == self@.offset,
    {
        &self.offset
    }
}

/// The variables of the assembly for the variables `vars`, one behind
/// the other: each has its place in the list as index and the sum of the
/// sizes before it as offset; and the sum of all sizes. Fails with
/// `TypeError` where a type has no size or the sum exceeds what the host
/// can hold.
pub open spec fn laid_out(modules: Seq<CoreModule>, vars: Seq<CoreVariable>) -> Result<
    (Seq<VariableSpec>, usize),
    ErrorKind,
>
    decreases vars.len(),
{
    if vars.len() == 0 {
        Ok((Seq::empty(), 0))
    } else {
        match laid_out(modules, vars.drop_last()) {
            Err(e) => Err(e),
            Ok((done, total)) => match variable_built(
                modules,
                (vars.len() - 1) as usize,
                vars.last(),
                Some(total),
            ) {
                Err(e) => Err(e),
                Ok(v) => if total + v.size > usize::MAX {
                    Err(ErrorKind::TypeError)
                } else {
                    Ok((done.push(v), (total + v.size) as usize))
                },
            },
        }
    }
}

pub proof fn lemma_laid_out_fails(modules: Seq<CoreModule>, vars: Seq<CoreVariable>, k: int)
    requires
        0 <= k <= vars.len(),
        laid_out(modules, vars.take(k)) is Err,
    ensures
        laid_out(modules, vars) == laid_out(modules, vars.take(k)),
    decreases vars.len(),
{
    if k == vars.len() {
        assert(vars.take(k) =~= vars);
    } else {
        assert(vars.drop_last().take(k) =~= vars.take(k));
        lemma_laid_out_fails(modules, vars.drop_last(), k);
    }
}

/// Lays the variables `vars` out, one behind the other.
pub(crate) fn lay_out(vars: &Vec<CoreVariable>, program: &CoreProgram) -> (r: SimpleResult<
    (Vec<Variable>, usize),
>)
    ensures
        match laid_out(program.modules@, vars@) {
            Ok((list, total)) => r matches Ok(x) && specs(x.0@) == list && x.1 == total,
            Err(kind) => r matches Err(e) && e.kind == kind,
        },
{
    let ghost modules = program.modules@;
    let mut out: Vec<Variable> = Vec::new();
    let mut total: usize = 0;
    let mut i: usize = 0;
    proof {
        lemma_specs_empty::<Variable>();
        assert(vars@.take(0) =~= Seq::<CoreVariable>::empty());
    }
    while i < vars.len()
        invariant
            i <= vars@.len(),
            modules == program.modules@,
            laid_out(modules, vars@.take(i as int)) == Ok::<(Seq<VariableSpec>, usize), ErrorKind>(
                (specs(out@), total),
            ),
        decreases vars@.len() - i,
    {
        proof {
            assert(vars@.take(i + 1).drop_last() =~= vars@.take(i as int));
            assert(vars@.take(i + 1).last() == vars@[i as int]);
        }
        let v = match Variable::from_core(i, &vars[i], program, Some(total)) {
            Ok(v) => v,
            Err(e) => {
                proof {
                    assert(laid_out(modules, vars@.take(i + 1)) is Err);
                    lemma_laid_out_fails(modules, vars@, i + 1);
                }
                return Err(e);
            },
        };
        let next = match total.checked_add(v.size) {
            Some(n) => n,
            None => {
                proof {
                    assert(laid_out(modules, vars@.take(i + 1)) is Err);
                    lemma_laid_out_fails(modules, vars@, i + 1);
                }
                return fail(ErrorKind::TypeError, "the variables exceed what the host can hold");
            },
        };
        proof {
            lemma_specs_push(out@, v);
        }
        out.push(v);
        total = next;
        i = i + 1;
    }
    assert(vars@.take(i as int) =~= vars@);
    Ok((out, total))
}

// ---------------------------------------------------------------------------
// Structs
// ---------------------------------------------------------------------------

/// A field of a struct of the assembly.
#[derive(Debug)]
pub struct StructField {
    id: String,
    typeid: CoreType,
    offset: usize,
    size: usize,
}

/// The model of `StructField`.
pub struct FieldSpec {
    pub id: Seq<char>,
    pub typeid: TypeTree,
    pub offset: usize,
    pub size: usize,
}

impl View for StructField {
    type V = FieldSpec;

    closed spec fn view(&self) -> FieldSpec {
        FieldSpec { id: self.id@, typeid: self.typeid@, offset: self.offset, size: self.size }
    }
}

/// The field of the assembly for a field of the program. Fails with
/// `TypeError` where its type has no size.
pub open spec fn field_built(modules: Seq<CoreModule>, field: CoreVariable, offset: usize) -> Result<
    FieldSpec,
    ErrorKind,
> {
    match type_size_in(modules, field.typeid@) {
        Some(size) => Ok(FieldSpec { id: field.id@, typeid: field.typeid@, offset, size }),
        None => Err(ErrorKind::TypeError),
    }
}

impl StructField {
    pub fn from_core(field: &CoreVariable, offset: usize, program: &CoreProgram) -> (r:
        SimpleResult<Self>)
        ensures
            built(r, field_built(program.modules@, *field, offset)),
    {
        let size = calculate_type_size(&field.typeid, program)?;
        Ok(StructField { id: field.id.clone(), typeid: field.typeid.duplicate(), offset, size })
    }

    pub fn id(&self) -> (r: &str)
        ensures
            r@ == self@.id,
    {
        self.id.as_str()
    }

    pub fn typeid(&self) -> (r: &CoreType)
        ensures
            r@ == self@.typeid,
    {
        &self.typeid
    }

    pub fn offset(&self) -> (r: usize)
        ensures
            r == self@.offset,
    {
        self.offset
    }

    pub fn size(&self) -> (r: usize)
        ensures
            r == self@.size,
    {
        self.size
    }
}

/// The fields of the assembly for the fields `fields`, each at the sum of
/// the sizes before it; and the sum of all sizes.
pub open spec fn fields_built(modules: Seq<CoreModule>, fields: Seq<CoreVariable>) -> Result<
    (Seq<FieldSpec>, usize),
    ErrorKind,
>
    decreases fields.len(),
{
    if fields.len() == 0 {
        Ok((Seq::empty(), 0))
    } else {
        match fields_built(modules, fields.drop_last()) {
            Err(e) => Err(e),
            Ok((done, total)) => match field_built(modules, fields.last(), total) {
                Err(e) => Err(e),
                Ok(f) => if total + f.size > usize::MAX {
                    Err(ErrorKind::TypeError)
                } else {
                    Ok((done.push(f), (total + f.size) as usize))
                },
            },
        }
    }
}

pub proof fn lemma_fields_built_fails(modules: Seq<CoreModule>, fields: Seq<CoreVariable>, k: int)
    requires
        0 <= k <= fields.len(),
        fields_built(modules, fields.take(k)) is Err,
    ensures
        fields_built(modules, fields) == fields_built(modules, fields.take(k)),
    decreases fields.len(),
{
    if k == fields.len() {
        assert(fields.take(k) =~= fields);
    } else {
        assert(fields.drop_last().take(k) =~= fields.take(k));
        lemma_fields_built_fails(modules, fields.drop_last(), k);
    }
}

/// A struct of the assembly: its index, its name, its fields with their
/// offsets, and its size.
#[derive(Debug)]
pub struct Struct {
    index: usize,
    id: String,
    fields: Vec<StructField>,
    size: usize,
    export: bool,
}

/// The model of `Struct`.
pub struct StructSpec {
    pub index: usize,
    pub id: Seq<char>,
    pub fields: Seq<FieldSpec>,
    pub size: usize,
    pub export: bool,
}

impl View for Struct {
    type V = StructSpec;

    closed spec fn view(&self) -> StructSpec {
        StructSpec {
            index: self.index,
            id: self.id@,
            fields: specs(self.fields@),
            size: self.size,
            export: self.export,
        }
    }
}

/// The struct of an atom: no fields, not exported.
pub open spec fn atom_struct(index: usize, id: Seq<char>, size: usize) -> StructSpec {
    StructSpec { index, id, fields: Seq::empty(), size, export: false }
}

/// The struct of the assembly for a struct of the program.
pub open spec fn struct_built(modules: Seq<CoreModule>, index: usize, s: CoreStruct) -> Result<
    StructSpec,
    ErrorKind,
> {
    match fields_built(modules, s.fields@) {
        Err(e) => Err(e),
        Ok((fields, size)) => Ok(StructSpec { index, id: s.id@, fields, size, export: s.export }),
    }
}

/// The field of the name `id`: the first.
pub open spec fn field_named(fields: Seq<FieldSpec>, id: Seq<char>) -> Option<FieldSpec>
    decreases fields.len(),
{
    if fields.len() == 0 {
        None
    } else if fields[0].id == id {
        Some(fields[0])
    } else {
        field_named(fields.drop_first(), id)
    }
}

impl Struct {
    pub fn new_atom(index: usize, id: &str, size: usize) -> (r: Self)
        ensures
            r@ == atom_struct(index, id@, size),
    {
        let r = Struct { index, id: id.to_owned(), fields: Vec::new(), size, export: false };
        proof {
            lemma_specs_empty::<StructField>();
        }
        r
    }

    pub fn from_core(index: usize, struct_: &CoreStruct, program: &CoreProgram) -> (r:
        SimpleResult<Self>)
        ensures
            built(r, struct_built(program.modules@, index, *struct_)),
    {
        let ghost modules = program.modules@;
        let ghost all = struct_.fields@;
        let mut fields: Vec<StructField> = Vec::new();
        let mut offset: usize = 0;
        let mut i: usize = 0;
        proof {
            lemma_specs_empty::<StructField>();
            assert(all.take(0) =~= Seq::<CoreVariable>::empty());
        }
        while i < struct_.fields.len()
            invariant
                i <= all.len(),
                all == struct_.fields@,
                modules == program.modules@,
                fields_built(modules, all.take(i as int)) == Ok::<
                    (Seq<FieldSpec>, usize),
                    ErrorKind,
                >((specs(fields@), offset)),
            decreases all.len() - i,
        {
            proof {
                assert(all.take(i + 1).drop_last() =~= all.take(i as int));
                assert(all.take(i + 1).last() == all[i as int]);
            }
            let field = match StructField::from_core(&struct_.fields[i], offset, program) {
                Ok(f) => f,
                Err(e) => {
                    proof {
                        assert(fields_built(modules, all.take(i + 1)) is Err);
                        lemma_fields_built_fails(modules, all, i + 1);
                    }
                    return Err(e);
                },
            };
            let next = match offset.checked_add(field.size) {
                Some(n) => n,
                None => {
                    proof {
                        assert(fields_built(modules, all.take(i + 1)) is Err);
                        lemma_fields_built_fails(modules, all, i + 1);
                    }
                    return fail(ErrorKind::TypeError, "a struct exceeds what the host can hold");
                },
            };
            proof {
                lemma_specs_push(fields@, field);
            }
            fields.push(field);
            offset = next;
            i = i + 1;
        }
        assert(all.take(i as int) =~= all);
        Ok(Struct { index, id: struct_.id.clone(), fields, size: offset, export: struct_.export })
    }

    pub fn index(&self) -> (r: usize)
        ensures
            r == self@.index,
    {
        self.index
    }

    pub fn id(&self) -> (r: &str)
        ensures
            r@ == self@.id,
    {
        self.id.as_str()
    }

    pub fn fields(&self) -> (r: &[StructField])
        ensures
            specs(r@) == self@.fields,
    {
        self.fields.as_slice()
    }

    pub fn size(&self) -> (r: usize)
        ensures
            r == self@.size,
    {
        self.size
    }

    pub fn export(&self) -> (r: bool)
        ensures
            r == self@.export,
    {
        self.export
    }

    /// The field of the name `id`: the first.
    pub fn find_field(&self, id: &str) -> (r: Option<&StructField>)
        ensures
            match r {
                Some(f) => field_named(self@.fields, id@) == Some(f@),
                None => field_named(self@.fields, id@) is None,
            },
    {
        let ghost all = specs(self.fields@);
        let mut i: usize = 0;
        assert(all.skip(0) =~= all);
        while i < self.fields.len()
            invariant
                i <= self.fields@.len(),
                all == specs(self.fields@),
                field_named(all, id@) == field_named(all.skip(i as int), id@),
            decreases self.fields@.len() - i,
        {
            proof {
                assert(all.skip(i as int)[0] == self.fields@[i as int]@);
                assert(all.skip(i as int).drop_first() =~= all.skip(i + 1));
            }
            if same_text(self.fields[i].id.as_str(), id) {
                return Some(&self.fields[i]);
            }
            i = i + 1;
        }
        None
    }
}

// ---------------------------------------------------------------------------
// Functions
// ---------------------------------------------------------------------------

/// A function of the assembly: its index, its name, its parameters and
/// locals with their offsets, the type of its result, its body, and the
/// place of an external function.
#[derive(Debug)]
pub struct Function<'a> {
    index: usize,
    id: String,
    params: Vec<Variable>,
    typeid: Option<CoreType>,
    locals: Vec<Variable>,
    body: Option<&'a Vec<BlockOp>>,
    external: Option<(String, String)>,
    export: bool,
}

/// The model of `Function`.
pub struct FunctionSpec {
    pub index: usize,
    pub id: Seq<char>,
    pub params: Seq<VariableSpec>,
    pub typeid: Option<TypeTree>,
    pub locals: Seq<VariableSpec>,
    pub body: Seq<BlockOp>,
    pub external: Option<(Seq<char>, Seq<char>)>,
    pub export: bool,
}

/// The model of an optional type.
pub open spec fn tree_of(t: Option<CoreType>) -> Option<TypeTree> {
    match t {
        Some(t) => Some(t@),
        None => None,
    }
}

impl<'a> View for Function<'a> {
    type V = FunctionSpec;

    closed spec fn view(&self) -> FunctionSpec {
        FunctionSpec {
            index: self.index,
            id: self.id@,
            params: specs(self.params@),
            typeid: tree_of(self.typeid),
            locals: specs(self.locals@),
            body: match self.body {
                Some(b) => b@,
                None => Seq::empty(),
            },
            external: match self.external {
                Some((m, f)) => Some((m@, f@)),
                None => None,
            },
            export: self.export,
        }
    }
}

/// The function of the assembly for a function of the program.
pub open spec fn function_built(modules: Seq<CoreModule>, index: usize, f: CoreFunction) -> Result<
    FunctionSpec,
    ErrorKind,
> {
    match laid_out(modules, f.header.params@) {
        Err(e) => Err(e),
        Ok((params, _)) => match laid_out(modules, f.locals@) {
            Err(e) => Err(e),
            Ok((locals, _)) => Ok(
                FunctionSpec {
                    index,
                    id: f.header.id@,
                    params,
                    typeid: tree_of(f.header.typeid),
                    locals,
                    body: f.body@,
                    external: None,
                    export: f.export,
                },
            ),
        },
    }
}

/// The function of the assembly for an external function of the
/// program: no locals, no body, not exported.
pub open spec fn extern_built(modules: Seq<CoreModule>, index: usize, e: CoreExtern) -> Result<
    FunctionSpec,
    ErrorKind,
> {
    match laid_out(modules, e.item.params@) {
        Err(kind) => Err(kind),
        Ok((params, _)) => Ok(
            FunctionSpec {
                index,
                id: e.item.id@,
                params,
                typeid: tree_of(e.item.typeid),
                locals: Seq::empty(),
                body: Seq::empty(),
                external: Some((e.location_module@, e.location_function@)),
                export: false,
            },
        ),
    }
}

fn copy_type(t: &Option<CoreType>) -> (r: Option<CoreType>)
    ensures
        tree_of(r) == tree_of(*t),
{
    match t {
        Some(t) => Some(t.duplicate()),
        None => None,
    }
}

impl<'a> Function<'a> {
    pub fn from_core(index: usize, function: &'a CoreFunction, program: &CoreProgram) -> (r:
        SimpleResult<Function<'a>>)
        ensures
            built(r, function_built(program.modules@, index, *function)),
    {
        let (params, _) = lay_out(&function.header.params, program)?;
        let (locals, _) = lay_out(&function.locals, program)?;
        Ok(
            Function {
                index,
                id: function.header.id.clone(),
                params,
                typeid: copy_type(&function.header.typeid),
                locals,
                body: Some(&function.body),
                external: None,
                export: function.export,
            },
        )
    }

    pub fn from_core_extern(index: usize, extern_: &CoreExtern, program: &CoreProgram) -> (r:
        SimpleResult<Function<'a>>)
        ensures
            built(r, extern_built(program.modules@, index, *extern_)),
    {
        let (params, _) = lay_out(&extern_.item.params, program)?;
        proof {
            lemma_specs_empty::<Variable>();
        }
        Ok(
            Function {
                index,
                id: extern_.item.id.clone(),
                params,
                typeid: copy_type(&extern_.item.typeid),
                locals: Vec::new(),
                body: None,
                external: Some(
                    (extern_.location_module.clone(), extern_.location_function.clone()),
                ),
                export: false,
            },
        )
    }

    pub fn index(&self) -> (r: usize)
        ensures
            r == self@.index,
    {
        self.index
    }

    pub fn id(&self) -> (r: &str)
        ensures
            r@ == self@.id,
    {
        self.id.as_str()
    }

    pub fn params(&self) -> (r: &[Variable])
        ensures
            specs(r@) == self@.params,
    {
        self.params.as_slice()
    }

    pub fn typeid(&self) -> (r: &Option<CoreType>)
        ensures
            tree_of(*r) == self@.typeid,
    {
        &self.typeid
    }

    pub fn locals(&self) -> (r: &[Variable])
        ensures
            specs(r@) == self@.locals,
    {
        self.locals.as_slice()
    }

    /// The number of steps of the body.
    pub fn body_len(&self) -> (r: usize)
        ensures
            r == self@.body.len(),
    {
        match self.body {
            Some(b) => b.len(),
            None => 0,
        }
    }

    /// The step at `i` of the body.
    pub fn body_op(&self, i: usize) -> (r: &BlockOp)
        requires
            i < self@.body.len(),
        ensures
            *r == self@.body[i as int],
    {
        match self.body {
            Some(b) => &b[i],
            None => {
                proof {
                    assert(false);
                }
                vstd::pervasive::unreached()
            },
        }
    }

    pub fn external(&self) -> (r: &Option<(String, String)>)
        ensures
            r is Some <==> self@.external is Some,
            r matches Some(x) ==> self@.external == Some((x.0@, x.1@)),
    {
        &self.external
    }

    pub fn export(&self) -> (r: bool)
        ensures
            r == self@.export,
    {
        self.export
    }
}

} // verus!
