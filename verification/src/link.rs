//! From a program to its assembly: every struct, global and function of
//! every module gets its index, and every module the indices of what it
//! holds and of what it imports.

use crate::assembly::{
    atom_struct, built, extern_built, fail, function_built, lemma_specs_empty, lemma_specs_push,
    specs, struct_built, variable_built, Function, FunctionSpec, Struct, StructSpec, Variable,
    VariableSpec,
};
use crate::error::{ErrorKind, SimpleResult};
use crate::image::{host_word_size, word_size};
use crate::names::same_text;
use crate::program::{
    Extern as CoreExtern, Function as CoreFunction, Import, Module as CoreModule,
    Program as CoreProgram, Struct as CoreStruct, Variable as CoreVariable,
};
use vstd::prelude::*;

verus! {

/// The indices from `lo` up to `hi`.
pub open spec fn range(lo: int, hi: int) -> Seq<usize> {
    Seq::new((hi - lo) as nat, |i: int| (lo + i) as usize)
}

/// The place of the first of `names` that is `name`.
pub open spec fn name_position(names: Seq<Seq<char>>, name: Seq<char>) -> Option<int>
    decreases names.len(),
{
    if names.len() == 0 {
        None
    } else {
        match name_position(names.drop_last(), name) {
            Some(k) => Some(k),
            None => if names.last() == name {
                Some(names.len() - 1)
            } else {
                None
            },
        }
    }
}

/// A name that was found among the first names is found at the same
/// place among all.
pub proof fn lemma_name_position_extends(names: Seq<Seq<char>>, name: Seq<char>, k: int)
    requires
        0 <= k <= names.len(),
        name_position(names.take(k), name) is Some,
    ensures
        name_position(names, name) == name_position(names.take(k), name),
    decreases names.len(),
{
    if k == names.len() {
        assert(names.take(k) =~= names);
    } else {
        assert(names.drop_last().take(k) =~= names.take(k));
        lemma_name_position_extends(names.drop_last(), name, k);
    }
}

/// A place that was found lies in the list and holds the name.
pub proof fn lemma_name_position_in_range(names: Seq<Seq<char>>, name: Seq<char>)
    ensures
        name_position(names, name) matches Some(k) ==> 0 <= k < names.len() && names[k] == name,
    decreases names.len(),
{
    if names.len() > 0 {
        lemma_name_position_in_range(names.drop_last(), name);
    }
}

pub open spec fn struct_names(s: Seq<CoreStruct>) -> Seq<Seq<char>> {
    Seq::new(s.len(), |i: int| s[i].id@)
}

pub open spec fn function_names(s: Seq<CoreFunction>) -> Seq<Seq<char>> {
    Seq::new(s.len(), |i: int| s[i].header.id@)
}

pub open spec fn module_paths(s: Seq<CoreModule>) -> Seq<Seq<char>> {
    Seq::new(s.len(), |i: int| s[i].path@)
}

pub open spec fn spec_names(s: Seq<FunctionSpec>) -> Seq<Seq<char>> {
    Seq::new(s.len(), |i: int| s[i].id)
}

pub(crate) fn struct_position(s: &Vec<CoreStruct>, name: &str) -> (r: Option<usize>)
    ensures
        match r {
            Some(k) => name_position(struct_names(s@), name@) == Some(k as int) && k < s@.len(),
            None => name_position(struct_names(s@), name@) is None,
        },
{
    let ghost names = struct_names(s@);
    let mut i: usize = 0;
    assert(names.take(0) =~= Seq::<Seq<char>>::empty());
    while i < s.len()
        invariant
            i <= s@.len(),
            names == struct_names(s@),
            name_position(names.take(i as int), name@) is None,
        decreases s@.len() - i,
    {
        proof {
            assert(names.take(i + 1).drop_last() =~= names.take(i as int));
            assert(names.take(i + 1).last() == s@[i as int].id@);
        }
        if same_text(s[i].id.as_str(), name) {
            proof {
                lemma_name_position_extends(names, name@, i + 1);
            }
            return Some(i);
        }
        i = i + 1;
    }
    assert(names.take(i as int) =~= names);
    None
}

pub(crate) fn function_position(s: &Vec<CoreFunction>, name: &str) -> (r: Option<usize>)
    ensures
        match r {
            Some(k) => name_position(function_names(s@), name@) == Some(k as int) && k < s@.len(),
            None => name_position(function_names(s@), name@) is None,
        },
{
    let ghost names = function_names(s@);
    let mut i: usize = 0;
    assert(names.take(0) =~= Seq::<Seq<char>>::empty());
    while i < s.len()
        invariant
            i <= s@.len(),
            names == function_names(s@),
            name_position(names.take(i as int), name@) is None,
        decreases s@.len() - i,
    {
        proof {
            assert(names.take(i + 1).drop_last() =~= names.take(i as int));
            assert(names.take(i + 1).last() == s@[i as int].header.id@);
        }
        if same_text(s[i].header.id.as_str(), name) {
            proof {
                lemma_name_position_extends(names, name@, i + 1);
            }
            return Some(i);
        }
        i = i + 1;
    }
    assert(names.take(i as int) =~= names);
    None
}

pub(crate) fn module_position(s: &Vec<CoreModule>, path: &str) -> (r: Option<usize>)
    ensures
        match r {
            Some(k) => name_position(module_paths(s@), path@) == Some(k as int) && k < s@.len(),
            None => name_position(module_paths(s@), path@) is None,
        },
{
    let ghost names = module_paths(s@);
    let mut i: usize = 0;
    assert(names.take(0) =~= Seq::<Seq<char>>::empty());
    while i < s.len()
        invariant
            i <= s@.len(),
            names == module_paths(s@),
            name_position(names.take(i as int), path@) is None,
        decreases s@.len() - i,
    {
        proof {
            assert(names.take(i + 1).drop_last() =~= names.take(i as int));
            assert(names.take(i + 1).last() == s@[i as int].path@);
        }
        if same_text(s[i].path.as_str(), path) {
            proof {
                lemma_name_position_extends(names, path@, i + 1);
            }
            return Some(i);
        }
        i = i + 1;
    }
    assert(names.take(i as int) =~= names);
    None
}

fn extern_position(list: &Vec<Function>, name: &str) -> (r: Option<usize>)
    ensures
        match r {
            Some(k) => name_position(spec_names(specs(list@)), name@) == Some(k as int) && k
                < list@.len(),
            None => name_position(spec_names(specs(list@)), name@) is None,
        },
{
    let ghost names = spec_names(specs(list@));
    let mut i: usize = 0;
    assert(names.take(0) =~= Seq::<Seq<char>>::empty());
    while i < list.len()
        invariant
            i <= list@.len(),
            names == spec_names(specs(list@)),
            name_position(names.take(i as int), name@) is None,
        decreases list@.len() - i,
    {
        proof {
            assert(names.take(i + 1).drop_last() =~= names.take(i as int));
            assert(names.take(i + 1).last() == list@[i as int]@.id);
        }
        if same_text(list[i].id(), name) {
            proof {
                lemma_name_position_extends(names, name@, i + 1);
            }
            return Some(i);
        }
        i = i + 1;
    }
    assert(names.take(i as int) =~= names);
    None
}

// ---------------------------------------------------------------------------
// Modules
// ---------------------------------------------------------------------------

/// A module of the assembly: the indices of its structs, globals and
/// functions, its own first and then those that it imports.
#[derive(Debug)]
pub struct Module {
    index: usize,
    structs: Vec<usize>,
    globals: Vec<usize>,
    functions: Vec<usize>,
}

/// The model of `Module`.
pub struct ModuleSpec {
    pub index: usize,
    pub structs: Seq<usize>,
    pub globals: Seq<usize>,
    pub functions: Seq<usize>,
}

impl View for Module {
    type V = ModuleSpec;

    closed spec fn view(&self) -> ModuleSpec {
        ModuleSpec {
            index: self.index,
            structs: self.structs@,
            globals: self.globals@,
            functions: self.functions@,
        }
    }
}

impl Module {
    pub fn index(&self) -> (r: usize)
        ensures
            r == self@.index,
    {
        self.index
    }

    pub fn structs(&self) -> (r: &[usize])
        ensures
            r@ == self@.structs,
    {
        self.structs.as_slice()
    }

    pub fn globals(&self) -> (r: &[usize])
        ensures
            r@ == self@.globals,
    {
        self.globals.as_slice()
    }

    pub fn functions(&self) -> (r: &[usize])
        ensures
            r@ == self@.functions,
    {
        self.functions.as_slice()
    }
}

// ---------------------------------------------------------------------------
// The items of the modules
// ---------------------------------------------------------------------------

/// The structs of the atoms, which every assembly begins with.
pub open spec fn atoms() -> Seq<StructSpec> {
    seq![
        atom_struct(0, "i8"@, 1),
        atom_struct(1, "u8"@, 1),
        atom_struct(2, "i16"@, 2),
        atom_struct(3, "u16"@, 2),
        atom_struct(4, "i32"@, 4),
        atom_struct(5, "u32"@, 4),
        atom_struct(6, "i64"@, 8),
        atom_struct(7, "u64"@, 8),
        atom_struct(8, "f32"@, 4),
        atom_struct(9, "f64"@, 8),
        atom_struct(10, "isize"@, word_size() as usize),
        atom_struct(11, "usize"@, word_size() as usize),
    ]
}

fn atoms_list() -> (r: Vec<Struct>)
    ensures
        specs(r@) == atoms(),
{
    let mut out: Vec<Struct> = Vec::new();
    out.push(Struct::new_atom(0, "i8", 1));
    out.push(Struct::new_atom(1, "u8", 1));
    out.push(Struct::new_atom(2, "i16", 2));
    out.push(Struct::new_atom(3, "u16", 2));
    out.push(Struct::new_atom(4, "i32", 4));
    out.push(Struct::new_atom(5, "u32", 4));
    out.push(Struct::new_atom(6, "i64", 8));
    out.push(Struct::new_atom(7, "u64", 8));
    out.push(Struct::new_atom(8, "f32", 4));
    out.push(Struct::new_atom(9, "f64", 8));
    out.push(Struct::new_atom(10, "isize", host_word_size()));
    out.push(Struct::new_atom(11, "usize", host_word_size()));
    assert(specs(out@) =~= atoms());
    out
}

/// `list` with the structs `structs` added, each with its place in the
/// list as index.
pub open spec fn structs_added(
    all: Seq<CoreModule>,
    list: Seq<StructSpec>,
    structs: Seq<CoreStruct>,
) -> Result<Seq<StructSpec>, ErrorKind>
    decreases structs.len(),
{
    if structs.len() == 0 {
        Ok(list)
    } else {
        match structs_added(all, list, structs.drop_last()) {
            Err(e) => Err(e),
            Ok(done) => match struct_built(all, done.len() as usize, structs.last()) {
                Err(e) => Err(e),
                Ok(s) => Ok(done.push(s)),
            },
        }
    }
}

/// `list` with the globals `globals` added, each with its place in the
/// list as index.
pub open spec fn globals_added(
    all: Seq<CoreModule>,
    list: Seq<VariableSpec>,
    globals: Seq<CoreVariable>,
) -> Result<Seq<VariableSpec>, ErrorKind>
    decreases globals.len(),
{
    if globals.len() == 0 {
        Ok(list)
    } else {
        match globals_added(all, list, globals.drop_last()) {
            Err(e) => Err(e),
            Ok(done) => match variable_built(all, done.len() as usize, globals.last(), None) {
                Err(e) => Err(e),
                Ok(v) => Ok(done.push(v)),
            },
        }
    }
}

/// `list` with the functions `functions` added, each with its place in
/// the list as index.
pub open spec fn functions_added(
    all: Seq<CoreModule>,
    list: Seq<FunctionSpec>,
    functions: Seq<CoreFunction>,
) -> Result<Seq<FunctionSpec>, ErrorKind>
    decreases functions.len(),
{
    if functions.len() == 0 {
        Ok(list)
    } else {
        match functions_added(all, list, functions.drop_last()) {
            Err(e) => Err(e),
            Ok(done) => match function_built(all, done.len() as usize, functions.last()) {
                Err(e) => Err(e),
                Ok(f) => Ok(done.push(f)),
            },
        }
    }
}

pub proof fn lemma_structs_added(
    all: Seq<CoreModule>,
    list: Seq<StructSpec>,
    structs: Seq<CoreStruct>,
    k: int,
)
    requires
        0 <= k <= structs.len(),
    ensures
        structs_added(all, list, structs.take(k)) is Err ==> structs_added(all, list, structs)
            == structs_added(all, list, structs.take(k)),
        structs_added(all, list, structs) matches Ok(done) ==> done.len() == list.len()
            + structs.len(),
    decreases structs.len(),
{
    if structs.len() > 0 {
        lemma_structs_added(all, list, structs.drop_last(), structs.len() - 1);
    }
    if k == structs.len() {
        assert(structs.take(k) =~= structs);
    } else {
        assert(structs.drop_last().take(k) =~= structs.take(k));
        lemma_structs_added(all, list, structs.drop_last(), k);
    }
}

pub proof fn lemma_globals_added(
    all: Seq<CoreModule>,
    list: Seq<VariableSpec>,
    globals: Seq<CoreVariable>,
    k: int,
)
    requires
        0 <= k <= globals.len(),
    ensures
        globals_added(all, list, globals.take(k)) is Err ==> globals_added(all, list, globals)
            == globals_added(all, list, globals.take(k)),
        globals_added(all, list, globals) matches Ok(done) ==> done.len() == list.len()
            + globals.len(),
    decreases globals.len(),
{
    if globals.len() > 0 {
        lemma_globals_added(all, list, globals.drop_last(), globals.len() - 1);
    }
    if k == globals.len() {
        assert(globals.take(k) =~= globals);
    } else {
        assert(globals.drop_last().take(k) =~= globals.take(k));
        lemma_globals_added(all, list, globals.drop_last(), k);
    }
}

pub proof fn lemma_functions_added(
    all: Seq<CoreModule>,
    list: Seq<FunctionSpec>,
    functions: Seq<CoreFunction>,
    k: int,
)
    requires
        0 <= k <= functions.len(),
    ensures
        functions_added(all, list, functions.take(k)) is Err ==> functions_added(
            all,
            list,
            functions,
        ) == functions_added(all, list, functions.take(k)),
        functions_added(all, list, functions) matches Ok(done) ==> done.len() == list.len()
            + functions.len(),
    decreases functions.len(),
{
    if functions.len() > 0 {
        lemma_functions_added(all, list, functions.drop_last(), functions.len() - 1);
    }
    if k == functions.len() {
        assert(functions.take(k) =~= functions);
    } else {
        assert(functions.drop_last().take(k) =~= functions.take(k));
        lemma_functions_added(all, list, functions.drop_last(), k);
    }
}

fn add_structs(list: &mut Vec<Struct>, structs: &Vec<CoreStruct>, program: &CoreProgram) -> (r:
    SimpleResult<Vec<usize>>)
    ensures
        match structs_added(program.modules@, specs(old(list)@), structs@) {
            Ok(done) => r matches Ok(ix) && specs(final(list)@) == done && ix@ == range(
                old(list)@.len() as int,
                done.len() as int,
            ),
            Err(kind) => r matches Err(e) && e.kind == kind,
        },
{
    let ghost all = program.modules@;
    let ghost first = specs(list@);
    let base = list.len();
    let mut ix: Vec<usize> = Vec::new();
    let mut i: usize = 0;
    assert(structs@.take(0) =~= Seq::<CoreStruct>::empty());
    assert(ix@ =~= range(base as int, base as int));
    while i < structs.len()
        invariant
            i <= structs@.len(),
            all == program.modules@,
            base == first.len(),
            first == specs(old(list)@),
            list@.len() == base + i,
            structs_added(all, first, structs@.take(i as int)) == Ok::<Seq<StructSpec>, ErrorKind>(
                specs(list@),
            ),
            ix@ == range(base as int, base + i),
        decreases structs@.len() - i,
    {
        proof {
            assert(structs@.take(i + 1).drop_last() =~= structs@.take(i as int));
            assert(structs@.take(i + 1).last() == structs@[i as int]);
            lemma_structs_added(all, first, structs@, i + 1);
        }
        let index = list.len();
        let s = Struct::from_core(index, &structs[i], program)?;
        proof {
            lemma_specs_push(list@, s);
        }
        list.push(s);
        ix.push(index);
        assert(ix@ =~= range(base as int, base + i + 1));
        i = i + 1;
    }
    assert(structs@.take(i as int) =~= structs@);
    Ok(ix)
}

fn add_globals(list: &mut Vec<Variable>, globals: &Vec<CoreVariable>, program: &CoreProgram) -> (r:
    SimpleResult<Vec<usize>>)
    ensures
        match globals_added(program.modules@, specs(old(list)@), globals@) {
            Ok(done) => r matches Ok(ix) && specs(final(list)@) == done && ix@ == range(
                old(list)@.len() as int,
                done.len() as int,
            ),
            Err(kind) => r matches Err(e) && e.kind == kind,
        },
{
    let ghost all = program.modules@;
    let ghost first = specs(list@);
    let base = list.len();
    let mut ix: Vec<usize> = Vec::new();
    let mut i: usize = 0;
    assert(globals@.take(0) =~= Seq::<CoreVariable>::empty());
    assert(ix@ =~= range(base as int, base as int));
    while i < globals.len()
        invariant
            i <= globals@.len(),
            all == program.modules@,
            base == first.len(),
            first == specs(old(list)@),
            list@.len() == base + i,
            globals_added(all, first, globals@.take(i as int)) == Ok::<
                Seq<VariableSpec>,
                ErrorKind,
            >(specs(list@)),
            ix@ == range(base as int, base + i),
        decreases globals@.len() - i,
    {
        proof {
            assert(globals@.take(i + 1).drop_last() =~= globals@.take(i as int));
            assert(globals@.take(i + 1).last() == globals@[i as int]);
            lemma_globals_added(all, first, globals@, i + 1);
        }
        let index = list.len();
        let v = Variable::from_core(index, &globals[i], program, None)?;
        proof {
            lemma_specs_push(list@, v);
        }
        list.push(v);
        ix.push(index);
        assert(ix@ =~= range(base as int, base + i + 1));
        i = i + 1;
    }
    assert(globals@.take(i as int) =~= globals@);
    Ok(ix)
}

fn add_functions<'a>(
    list: &mut Vec<Function<'a>>,
    functions: &'a Vec<CoreFunction>,
    program: &CoreProgram,
) -> (r: SimpleResult<Vec<usize>>)
    ensures
        match functions_added(program.modules@, specs(old(list)@), functions@) {
            Ok(done) => r matches Ok(ix) && specs(final(list)@) == done && ix@ == range(
                old(list)@.len() as int,
                done.len() as int,
            ),
            Err(kind) => r matches Err(e) && e.kind == kind,
        },
{
    let ghost all = program.modules@;
    let ghost first = specs(list@);
    let base = list.len();
    let mut ix: Vec<usize> = Vec::new();
    let mut i: usize = 0;
    assert(functions@.take(0) =~= Seq::<CoreFunction>::empty());
    assert(ix@ =~= range(base as int, base as int));
    while i < functions.len()
        invariant
            i <= functions@.len(),
            all == program.modules@,
            base == first.len(),
            first == specs(old(list)@),
            list@.len() == base + i,
            functions_added(all, first, functions@.take(i as int)) == Ok::<
                Seq<FunctionSpec>,
                ErrorKind,
            >(specs(list@)),
            ix@ == range(base as int, base + i),
        decreases functions@.len() - i,
    {
        proof {
            assert(functions@.take(i + 1).drop_last() =~= functions@.take(i as int));
            assert(functions@.take(i + 1).last() == functions@[i as int]);
            lemma_functions_added(all, first, functions@, i + 1);
        }
        let index = list.len();
        let f = Function::from_core(index, &functions[i], program)?;
        proof {
            lemma_specs_push(list@, f);
        }
        list.push(f);
        ix.push(index);
        assert(ix@ =~= range(base as int, base + i + 1));
        i = i + 1;
    }
    assert(functions@.take(i as int) =~= functions@);
    Ok(ix)
}

/// The items of the modules that were gathered so far.
pub struct Gathered {
    pub structs: Seq<StructSpec>,
    pub globals: Seq<VariableSpec>,
    pub functions: Seq<FunctionSpec>,
    pub modules: Seq<ModuleSpec>,
}

/// The items of the modules `modules` of a program, module by module:
/// behind the atoms, every struct, global and function has its place in
/// its list as index, and every module the indices of its own.
pub open spec fn gathered(all: Seq<CoreModule>, modules: Seq<CoreModule>) -> Result<
    Gathered,
    ErrorKind,
>
    decreases modules.len(),
{
    if modules.len() == 0 {
        Ok(
            Gathered {
                structs: atoms(),
                globals: Seq::empty(),
                functions: Seq::empty(),
                modules: Seq::empty(),
            },
        )
    } else {
        match gathered(all, modules.drop_last()) {
            Err(e) => Err(e),
            Ok(g) => match structs_added(all, g.structs, modules.last().structs@) {
                Err(e) => Err(e),
                Ok(structs) => match globals_added(all, g.globals, modules.last().globals@) {
                    Err(e) => Err(e),
                    Ok(globals) => match functions_added(
                        all,
                        g.functions,
                        modules.last().functions@,
                    ) {
                        Err(e) => Err(e),
                        Ok(functions) => Ok(
                            Gathered {
                                structs,
                                globals,
                                functions,
                                modules: g.modules.push(
                                    ModuleSpec {
                                        index: g.modules.len() as usize,
                                        structs: range(
                                            g.structs.len() as int,
                                            structs.len() as int,
                                        ),
                                        globals: range(
                                            g.globals.len() as int,
                                            globals.len() as int,
                                        ),
                                        functions: range(
                                            g.functions.len() as int,
                                            functions.len() as int,
                                        ),
                                    },
                                ),
                            },
                        ),
                    },
                },
            },
        }
    }
}

pub proof fn lemma_gathered_fails(all: Seq<CoreModule>, modules: Seq<CoreModule>, k: int)
    requires
        0 <= k <= modules.len(),
        gathered(all, modules.take(k)) is Err,
    ensures
        gathered(all, modules) == gathered(all, modules.take(k)),
    decreases modules.len(),
{
    if k == modules.len() {
        assert(modules.take(k) =~= modules);
    } else {
        assert(modules.drop_last().take(k) =~= modules.take(k));
        lemma_gathered_fails(all, modules.drop_last(), k);
    }
}

/// Gathers the items of the modules of the program.
pub(crate) fn gather<'a>(program: &'a CoreProgram) -> (r: SimpleResult<
    (Vec<Struct>, Vec<Variable>, Vec<Function<'a>>, Vec<Module>),
>)
    ensures
        match gathered(program.modules@, program.modules@) {
            Ok(g) => r matches Ok(x) && specs(x.0@) == g.structs && specs(x.1@) == g.globals
                && specs(x.2@) == g.functions && specs(x.3@) == g.modules,
            Err(kind) => r matches Err(e) && e.kind == kind,
        },
{
    let ghost all = program.modules@;
    let mut structs = atoms_list();
    let mut globals: Vec<Variable> = Vec::new();
    let mut functions: Vec<Function<'a>> = Vec::new();
    let mut modules: Vec<Module> = Vec::new();
    let mut i: usize = 0;
    proof {
        lemma_specs_empty::<Variable>();
        lemma_specs_empty::<Function<'a>>();
        lemma_specs_empty::<Module>();
        assert(all.take(0) =~= Seq::<CoreModule>::empty());
    }
    while i < program.modules.len()
        invariant
            i <= all.len(),
            all == program.modules@,
            gathered(all, all.take(i as int)) == Ok::<Gathered, ErrorKind>(
                Gathered {
                    structs: specs(structs@),
                    globals: specs(globals@),
                    functions: specs(functions@),
                    modules: specs(modules@),
                },
            ),
        decreases all.len() - i,
    {
        proof {
            assert(all.take(i + 1).drop_last() =~= all.take(i as int));
            assert(all.take(i + 1).last() == all[i as int]);
        }
        let index = modules.len();
        let module = &program.modules[i];
        let own_structs = match add_structs(&mut structs, &module.structs, program) {
            Ok(x) => x,
            Err(e) => {
                proof {
                    assert(gathered(all, all.take(i + 1)) is Err);
                    lemma_gathered_fails(all, all, i + 1);
                }
                return Err(e);
            },
        };
        let own_globals = match add_globals(&mut globals, &module.globals, program) {
            Ok(x) => x,
            Err(e) => {
                proof {
                    assert(gathered(all, all.take(i + 1)) is Err);
                    lemma_gathered_fails(all, all, i + 1);
                }
                return Err(e);
            },
        };
        let own_functions = match add_functions(&mut functions, &module.functions, program) {
            Ok(x) => x,
            Err(e) => {
                proof {
                    assert(gathered(all, all.take(i + 1)) is Err);
                    lemma_gathered_fails(all, all, i + 1);
                }
                return Err(e);
            },
        };
        let m = Module {
            index,
            structs: own_structs,
            globals: own_globals,
            functions: own_functions,
        };
        proof {
            lemma_specs_push(modules@, m);
        }
        modules.push(m);
        i = i + 1;
    }
    assert(all.take(i as int) =~= all);
    Ok((structs, globals, functions, modules))
}

// ---------------------------------------------------------------------------
// Imports
// ---------------------------------------------------------------------------

/// The indices that the names `names` bring in: for each name that is
/// among `own`, the index that `list` holds at its place.
pub open spec fn imported(names: Seq<String>, own: Seq<Seq<char>>, list: Seq<usize>) -> Seq<usize>
    decreases names.len(),
{
    if names.len() == 0 {
        Seq::empty()
    } else {
        let before = imported(names.drop_last(), own, list);
        match name_position(own, names.last()@) {
            Some(k) => if k < list.len() {
                before.push(list[k])
            } else {
                before
            },
            None => before,
        }
    }
}

/// The indices of the structs and of the functions that the imports
/// `imports` bring in, import by import. Fails with `Resolution` where
/// an import names a module that the program does not have.
pub open spec fn import_lists(
    all: Seq<CoreModule>,
    state: Seq<ModuleSpec>,
    imports: Seq<Import>,
) -> Result<(Seq<usize>, Seq<usize>), ErrorKind>
    decreases imports.len(),
{
    if imports.len() == 0 {
        Ok((Seq::empty(), Seq::empty()))
    } else {
        match import_lists(all, state, imports.drop_last()) {
            Err(e) => Err(e),
            Ok((ss, ff)) => match name_position(module_paths(all), imports.last().module@) {
                None => Err(ErrorKind::Resolution),
                Some(mi) => if mi >= state.len() || mi >= all.len() {
                    Err(ErrorKind::Resolution)
                } else {
                    Ok(
                        (
                            ss + imported(
                                imports.last().names@,
                                struct_names(all[mi].structs@),
                                state[mi].structs,
                            ),
                            ff + imported(
                                imports.last().names@,
                                function_names(all[mi].functions@),
                                state[mi].functions,
                            ),
                        ),
                    )
                },
            },
        }
    }
}

/// The modules after the first `k` of them took in what they import.
pub open spec fn imports_applied(all: Seq<CoreModule>, state: Seq<ModuleSpec>, k: nat) -> Result<
    Seq<ModuleSpec>,
    ErrorKind,
>
    decreases k,
{
    if k == 0 {
        Ok(state)
    } else {
        match imports_applied(all, state, (k - 1) as nat) {
            Err(e) => Err(e),
            Ok(s) => if k - 1 >= s.len() || k - 1 >= all.len() {
                Err(ErrorKind::Resolution)
            } else {
                match import_lists(all, s, all[k - 1].imports@) {
                    Err(e) => Err(e),
                    Ok((ss, ff)) => Ok(
                        s.update(
                            k - 1,
                            ModuleSpec {
                                structs: s[k - 1].structs + ss,
                                functions: s[k - 1].functions + ff,
                                ..s[k - 1]
                            },
                        ),
                    ),
                }
            },
        }
    }
}

pub proof fn lemma_import_lists_fails(
    all: Seq<CoreModule>,
    state: Seq<ModuleSpec>,
    imports: Seq<Import>,
    k: int,
)
    requires
        0 <= k <= imports.len(),
        import_lists(all, state, imports.take(k)) is Err,
    ensures
        import_lists(all, state, imports) == import_lists(all, state, imports.take(k)),
    decreases imports.len(),
{
    if k == imports.len() {
        assert(imports.take(k) =~= imports);
    } else {
        assert(imports.drop_last().take(k) =~= imports.take(k));
        lemma_import_lists_fails(all, state, imports.drop_last(), k);
    }
}

pub proof fn lemma_imports_applied_fails(
    all: Seq<CoreModule>,
    state: Seq<ModuleSpec>,
    k: nat,
    n: nat,
)
    requires
        k <= n,
        imports_applied(all, state, k) is Err,
    ensures
        imports_applied(all, state, n) == imports_applied(all, state, k),
    decreases n,
{
    if k < n {
        lemma_imports_applied_fails(all, state, k, (n - 1) as nat);
    }
}

fn import_names(names: &Vec<String>, list: &Vec<usize>, out: &mut Vec<usize>, structs: Option<
    &Vec<CoreStruct>,
>, functions: Option<&Vec<CoreFunction>>)
    requires
        structs is Some != functions is Some,
    ensures
        final(out)@ == old(out)@ + imported(
            names@,
            match structs {
                Some(s) => struct_names(s@),
                None => function_names(functions.unwrap()@),
            },
            list@,
        ),
{
    let ghost own = match structs {
        Some(s) => struct_names(s@),
        None => function_names(functions.unwrap()@),
    };
    let mut i: usize = 0;
    assert(names@.take(0) =~= Seq::<String>::empty());
    assert(out@ =~= old(out)@ + imported(names@.take(0), own, list@));
    while i < names.len()
        invariant
            i <= names@.len(),
            structs is Some != functions is Some,
            own == match structs {
                Some(s) => struct_names(s@),
                None => function_names(functions.unwrap()@),
            },
            out@ == old(out)@ + imported(names@.take(i as int), own, list@),
        decreases names@.len() - i,
    {
        proof {
            assert(names@.take(i + 1).drop_last() =~= names@.take(i as int));
            assert(names@.take(i + 1).last() == names@[i as int]);
        }
        let ghost before = imported(names@.take(i as int), own, list@);
        let found = match structs {
            Some(s) => struct_position(s, names[i].as_str()),
            None => function_position(functions.unwrap(), names[i].as_str()),
        };
        match found {
            Some(k) => {
                if k < list.len() {
                    out.push(list[k]);
                    assert(out@ =~= old(out)@ + before.push(list@[k as int]));
                }
            },
            None => {},
        }
        i = i + 1;
    }
    assert(names@.take(i as int) =~= names@);
}

fn import_lists_of(program: &CoreProgram, modules: &Vec<Module>, imports: &Vec<Import>) -> (r:
    SimpleResult<(Vec<usize>, Vec<usize>)>)
    ensures
        match import_lists(program.modules@, specs(modules@), imports@) {
            Ok((ss, ff)) => r matches Ok(x) && x.0@ == ss && x.1@ == ff,
            Err(kind) => r matches Err(e) && e.kind == kind,
        },
{
    let ghost all = program.modules@;
    let ghost state = specs(modules@);
    let mut ss: Vec<usize> = Vec::new();
    let mut ff: Vec<usize> = Vec::new();
    let mut i: usize = 0;
    assert(imports@.take(0) =~= Seq::<Import>::empty());
    while i < imports.len()
        invariant
            i <= imports@.len(),
            all == program.modules@,
            state == specs(modules@),
            import_lists(all, state, imports@.take(i as int)) == Ok::<
                (Seq<usize>, Seq<usize>),
                ErrorKind,
            >((ss@, ff@)),
        decreases imports@.len() - i,
    {
        proof {
            assert(imports@.take(i + 1).drop_last() =~= imports@.take(i as int));
            assert(imports@.take(i + 1).last() == imports@[i as int]);
        }
        let import = &imports[i];
        let mi = match module_position(&program.modules, import.module.as_str()) {
            Some(mi) => mi,
            None => {
                proof {
                    assert(import_lists(all, state, imports@.take(i + 1)) is Err);
                    lemma_import_lists_fails(all, state, imports@, i + 1);
                }
                return fail(ErrorKind::Resolution, "a module imports from a module that is not there");
            },
        };
        if mi >= modules.len() {
            proof {
                assert(import_lists(all, state, imports@.take(i + 1)) is Err);
                lemma_import_lists_fails(all, state, imports@, i + 1);
            }
            return fail(ErrorKind::Resolution, "a module imports from a module that is not there");
        }
        assert(state[mi as int] == modules@[mi as int]@);
        import_names(
            &import.names,
            &modules[mi].structs,
            &mut ss,
            Some(&program.modules[mi].structs),
            None,
        );
        import_names(
            &import.names,
            &modules[mi].functions,
            &mut ff,
            None,
            Some(&program.modules[mi].functions),
        );
        i = i + 1;
    }
    assert(imports@.take(i as int) =~= imports@);
    Ok((ss, ff))
}

/// Lets every module take in what it imports.
pub(crate) fn link_imports(program: &CoreProgram, modules: &mut Vec<Module>) -> (r: SimpleResult<()>)
    ensures
        match imports_applied(program.modules@, specs(old(modules)@), program.modules@.len()) {
            Ok(s) => r is Ok && specs(final(modules)@) == s,
            Err(kind) => r matches Err(e) && e.kind == kind,
        },
{
    let ghost all = program.modules@;
    let ghost first = specs(modules@);
    let n = program.modules.len();
    let mut i: usize = 0;
    while i < n
        invariant
            i <= n,
            n == all.len(),
            all == program.modules@,
            first == specs(old(modules)@),
            imports_applied(all, first, i as nat) == Ok::<Seq<ModuleSpec>, ErrorKind>(
                specs(modules@),
            ),
        decreases n - i,
    {
        if i >= modules.len() {
            proof {
                assert(imports_applied(all, first, (i + 1) as nat) is Err);
                lemma_imports_applied_fails(all, first, (i + 1) as nat, n as nat);
            }
            return fail(ErrorKind::Resolution, "a module of the program has no place");
        }
        let (mut ss, mut ff) = match import_lists_of(program, modules, &program.modules[i].imports) {
            Ok(x) => x,
            Err(e) => {
                proof {
                    assert(imports_applied(all, first, (i + 1) as nat) is Err);
                    lemma_imports_applied_fails(all, first, (i + 1) as nat, n as nat);
                }
                return Err(e);
            },
        };
        let ghost before = specs(modules@);
        assert(before[i as int] == modules@[i as int]@);
        let mut m = modules.remove(i);
        m.structs.append(&mut ss);
        m.functions.append(&mut ff);
        modules.insert(i, m);
        assert(specs(modules@) =~= before.update(i as int, m@));
        i = i + 1;
    }
    Ok(())
}

// ---------------------------------------------------------------------------
// External functions
// ---------------------------------------------------------------------------

/// `list` with a function for each of `externs` whose name is not yet in
/// the list; its index is its place behind the `count` functions of the
/// modules.
pub open spec fn externs_added(
    all: Seq<CoreModule>,
    count: nat,
    list: Seq<FunctionSpec>,
    externs: Seq<CoreExtern>,
) -> Result<Seq<FunctionSpec>, ErrorKind>
    decreases externs.len(),
{
    if externs.len() == 0 {
        Ok(list)
    } else {
        match externs_added(all, count, list, externs.drop_last()) {
            Err(e) => Err(e),
            Ok(done) => if name_position(spec_names(done), externs.last().item.id@) is Some {
                Ok(done)
            } else if count + done.len() > usize::MAX {
                Err(ErrorKind::Resolution)
            } else {
                match extern_built(all, (count + done.len()) as usize, externs.last()) {
                    Err(e) => Err(e),
                    Ok(f) => Ok(done.push(f)),
                }
            },
        }
    }
}

/// The external functions of the modules `modules`, one for each name,
/// in the order in which the names appear.
pub open spec fn externs_gathered(all: Seq<CoreModule>, count: nat, modules: Seq<CoreModule>) -> Result<
    Seq<FunctionSpec>,
    ErrorKind,
>
    decreases modules.len(),
{
    if modules.len() == 0 {
        Ok(Seq::empty())
    } else {
        match externs_gathered(all, count, modules.drop_last()) {
            Err(e) => Err(e),
            Ok(done) => externs_added(all, count, done, modules.last().externs@),
        }
    }
}

/// The indices of the external functions `externs` of a module.
pub open spec fn extern_indices(count: nat, list: Seq<FunctionSpec>, externs: Seq<CoreExtern>) -> Seq<
    usize,
>
    decreases externs.len(),
{
    if externs.len() == 0 {
        Seq::empty()
    } else {
        let before = extern_indices(count, list, externs.drop_last());
        match name_position(spec_names(list), externs.last().item.id@) {
            Some(p) => if count + p <= usize::MAX {
                before.push((count + p) as usize)
            } else {
                before
            },
            None => before,
        }
    }
}

/// The modules after the first `k` of them took in the indices of their
/// external functions.
pub open spec fn externs_linked(
    all: Seq<CoreModule>,
    count: nat,
    list: Seq<FunctionSpec>,
    state: Seq<ModuleSpec>,
    k: nat,
) -> Seq<ModuleSpec>
    decreases k,
{
    if k == 0 {
        state
    } else {
        let s = externs_linked(all, count, list, state, (k - 1) as nat);
        if k - 1 < s.len() && k - 1 < all.len() {
            s.update(
                k - 1,
                ModuleSpec {
                    functions: s[k - 1].functions + extern_indices(count, list, all[k - 1].externs@),
                    ..s[k - 1]
                },
            )
        } else {
            s
        }
    }
}

pub proof fn lemma_externs_added_fails(
    all: Seq<CoreModule>,
    count: nat,
    list: Seq<FunctionSpec>,
    externs: Seq<CoreExtern>,
    k: int,
)
    requires
        0 <= k <= externs.len(),
        externs_added(all, count, list, externs.take(k)) is Err,
    ensures
        externs_added(all, count, list, externs) == externs_added(all, count, list, externs.take(k)),
    decreases externs.len(),
{
    if k == externs.len() {
        assert(externs.take(k) =~= externs);
    } else {
        assert(externs.drop_last().take(k) =~= externs.take(k));
        lemma_externs_added_fails(all, count, list, externs.drop_last(), k);
    }
}

pub proof fn lemma_externs_gathered_fails(
    all: Seq<CoreModule>,
    count: nat,
    modules: Seq<CoreModule>,
    k: int,
)
    requires
        0 <= k <= modules.len(),
        externs_gathered(all, count, modules.take(k)) is Err,
    ensures
        externs_gathered(all, count, modules) == externs_gathered(all, count, modules.take(k)),
    decreases modules.len(),
{
    if k == modules.len() {
        assert(modules.take(k) =~= modules);
    } else {
        assert(modules.drop_last().take(k) =~= modules.take(k));
        lemma_externs_gathered_fails(all, count, modules.drop_last(), k);
    }
}

fn add_externs<'a>(
    list: &mut Vec<Function<'a>>,
    count: usize,
    externs: &Vec<CoreExtern>,
    program: &CoreProgram,
) -> (r: SimpleResult<()>)
    ensures
        match externs_added(program.modules@, count as nat, specs(old(list)@), externs@) {
            Ok(done) => r is Ok && specs(final(list)@) == done,
            Err(kind) => r matches Err(e) && e.kind == kind,
        },
{
    let ghost all = program.modules@;
    let ghost first = specs(list@);
    let mut i: usize = 0;
    assert(externs@.take(0) =~= Seq::<CoreExtern>::empty());
    while i < externs.len()
        invariant
            i <= externs@.len(),
            all == program.modules@,
            first == specs(old(list)@),
            externs_added(all, count as nat, first, externs@.take(i as int)) == Ok::<
                Seq<FunctionSpec>,
                ErrorKind,
            >(specs(list@)),
        decreases externs@.len() - i,
    {
        proof {
            assert(externs@.take(i + 1).drop_last() =~= externs@.take(i as int));
            assert(externs@.take(i + 1).last() == externs@[i as int]);
        }
        if extern_position(list, externs[i].item.id.as_str()).is_none() {
            let index = match count.checked_add(list.len()) {
                Some(n) => n,
                None => {
                    proof {
                        assert(externs_added(all, count as nat, first, externs@.take(i + 1)) is Err);
                        lemma_externs_added_fails(all, count as nat, first, externs@, i + 1);
                    }
                    return fail(ErrorKind::Resolution, "the functions exceed what the host can count");
                },
            };
            let f = match Function::from_core_extern(index, &externs[i], program) {
                Ok(f) => f,
                Err(e) => {
                    proof {
                        assert(externs_added(all, count as nat, first, externs@.take(i + 1)) is Err);
                        lemma_externs_added_fails(all, count as nat, first, externs@, i + 1);
                    }
                    return Err(e);
                },
            };
            proof {
                lemma_specs_push(list@, f);
            }
            list.push(f);
        }
        i = i + 1;
    }
    assert(externs@.take(i as int) =~= externs@);
    Ok(())
}

/// Gathers the external functions of the program, one for each name.
pub(crate) fn gather_externs<'a>(program: &CoreProgram, count: usize) -> (r: SimpleResult<
    Vec<Function<'a>>,
>)
    ensures
        match externs_gathered(program.modules@, count as nat, program.modules@) {
            Ok(done) => r matches Ok(x) && specs(x@) == done,
            Err(kind) => r matches Err(e) && e.kind == kind,
        },
{
    let ghost all = program.modules@;
    let mut list: Vec<Function<'a>> = Vec::new();
    let mut i: usize = 0;
    proof {
        lemma_specs_empty::<Function<'a>>();
        assert(all.take(0) =~= Seq::<CoreModule>::empty());
    }
    while i < program.modules.len()
        invariant
            i <= all.len(),
            all == program.modules@,
            externs_gathered(all, count as nat, all.take(i as int)) == Ok::<
                Seq<FunctionSpec>,
                ErrorKind,
            >(specs(list@)),
        decreases all.len() - i,
    {
        proof {
            assert(all.take(i + 1).drop_last() =~= all.take(i as int));
            assert(all.take(i + 1).last() == all[i as int]);
        }
        match add_externs(&mut list, count, &program.modules[i].externs, program) {
            Ok(_) => {},
            Err(e) => {
                proof {
                    lemma_externs_gathered_fails(all, count as nat, all, i + 1);
                }
                return Err(e);
            },
        }
        i = i + 1;
    }
    assert(all.take(i as int) =~= all);
    Ok(list)
}

fn extern_indices_of(count: usize, list: &Vec<Function>, externs: &Vec<CoreExtern>) -> (r: Vec<usize>)
    ensures
        r@ == extern_indices(count as nat, specs(list@), externs@),
{
    let ghost names = specs(list@);
    let mut out: Vec<usize> = Vec::new();
    let mut i: usize = 0;
    assert(externs@.take(0) =~= Seq::<CoreExtern>::empty());
    while i < externs.len()
        invariant
            i <= externs@.len(),
            names == specs(list@),
            out@ == extern_indices(count as nat, names, externs@.take(i as int)),
        decreases externs@.len() - i,
    {
        proof {
            assert(externs@.take(i + 1).drop_last() =~= externs@.take(i as int));
            assert(externs@.take(i + 1).last() == externs@[i as int]);
        }
        match extern_position(list, externs[i].item.id.as_str()) {
            Some(p) => match count.checked_add(p) {
                Some(index) => {
                    out.push(index);
                },
                None => {},
            },
            None => {},
        }
        i = i + 1;
    }
    assert(externs@.take(i as int) =~= externs@);
    out
}

/// Gives every module the indices of its external functions.
pub(crate) fn link_externs(
    program: &CoreProgram,
    count: usize,
    list: &Vec<Function>,
    modules: &mut Vec<Module>,
)
    ensures
        specs(final(modules)@) == externs_linked(
            program.modules@,
            count as nat,
            specs(list@),
            specs(old(modules)@),
            program.modules@.len(),
        ),
{
    let ghost all = program.modules@;
    let ghost first = specs(modules@);
    let ghost names = specs(list@);
    let n = program.modules.len();
    let mut i: usize = 0;
    while i < n
        invariant
            i <= n,
            n == all.len(),
            all == program.modules@,
            names == specs(list@),
            first == specs(old(modules)@),
            specs(modules@) == externs_linked(all, count as nat, names, first, i as nat),
        decreases n - i,
    {
        if i < modules.len() {
            let mut more = extern_indices_of(count, list, &program.modules[i].externs);
            let ghost before = specs(modules@);
            assert(before[i as int] == modules@[i as int]@);
            let mut m = modules.remove(i);
            m.functions.append(&mut more);
            modules.insert(i, m);
            assert(specs(modules@) =~= before.update(i as int, m@));
        }
        i = i + 1;
    }
}

// ---------------------------------------------------------------------------
// The assembly
// ---------------------------------------------------------------------------

/// The indices of the structs that are exported.
pub open spec fn exported_structs(s: Seq<StructSpec>) -> Seq<usize>
    decreases s.len(),
{
    if s.len() == 0 {
        Seq::empty()
    } else if s.last().export {
        exported_structs(s.drop_last()).push(s.last().index)
    } else {
        exported_structs(s.drop_last())
    }
}

/// The indices of the functions that are exported.
pub open spec fn exported_functions(s: Seq<FunctionSpec>) -> Seq<usize>
    decreases s.len(),
{
    if s.len() == 0 {
        Seq::empty()
    } else if s.last().export {
        exported_functions(s.drop_last()).push(s.last().index)
    } else {
        exported_functions(s.drop_last())
    }
}

fn exported_structs_of(list: &Vec<Struct>) -> (r: Vec<usize>)
    ensures
        r@ == exported_structs(specs(list@)),
{
    let ghost all = specs(list@);
    let mut out: Vec<usize> = Vec::new();
    let mut i: usize = 0;
    assert(all.take(0) =~= Seq::<StructSpec>::empty());
    while i < list.len()
        invariant
            i <= list@.len(),
            all == specs(list@),
            out@ == exported_structs(all.take(i as int)),
        decreases list@.len() - i,
    {
        proof {
            assert(all.take(i + 1).drop_last() =~= all.take(i as int));
            assert(all.take(i + 1).last() == list@[i as int]@);
        }
        if list[i].export() {
            out.push(list[i].index());
        }
        i = i + 1;
    }
    assert(all.take(i as int) =~= all);
    out
}

fn exported_functions_of(list: &Vec<Function>) -> (r: Vec<usize>)
    ensures
        r@ == exported_functions(specs(list@)),
{
    let ghost all = specs(list@);
    let mut out: Vec<usize> = Vec::new();
    let mut i: usize = 0;
    assert(all.take(0) =~= Seq::<FunctionSpec>::empty());
    while i < list.len()
        invariant
            i <= list@.len(),
            all == specs(list@),
            out@ == exported_functions(all.take(i as int)),
        decreases list@.len() - i,
    {
        proof {
            assert(all.take(i + 1).drop_last() =~= all.take(i as int));
            assert(all.take(i + 1).last() == list@[i as int]@);
        }
        if list[i].export() {
            out.push(list[i].index());
        }
        i = i + 1;
    }
    assert(all.take(i as int) =~= all);
    out
}

/// The assembly of a program.
#[derive(Debug)]
pub struct Assembly<'a> {
    magic: [u8; 4],
    structs: Vec<Struct>,
    globals: Vec<Variable>,
    functions: Vec<Function<'a>>,
    modules: Vec<Module>,
    export_structs: Vec<usize>,
    export_functions: Vec<usize>,
}

/// The model of `Assembly`.
pub struct AssemblyModel {
    pub magic: Seq<u8>,
    pub structs: Seq<StructSpec>,
    pub globals: Seq<VariableSpec>,
    pub functions: Seq<FunctionSpec>,
    pub modules: Seq<ModuleSpec>,
    pub export_structs: Seq<usize>,
    pub export_functions: Seq<usize>,
}

impl<'a> View for Assembly<'a> {
    type V = AssemblyModel;

    closed spec fn view(&self) -> AssemblyModel {
        AssemblyModel {
            magic: self.magic@,
            structs: specs(self.structs@),
            globals: specs(self.globals@),
            functions: specs(self.functions@),
            modules: specs(self.modules@),
            export_structs: self.export_structs@,
            export_functions: self.export_functions@,
        }
    }
}

/// The assembly of a program: the atoms and the structs, the globals and
/// the functions of the modules, each with its place in its list as
/// index; behind the functions of the modules one function for each
/// name of an external function; and for each module the indices of its
/// own items, of what it imports, and of its external functions. Fails
/// with `TypeError` where a type has no size and with `Resolution`
/// where an import names a module that is not there.
pub open spec fn assembled(program: CoreProgram) -> Result<AssemblyModel, ErrorKind> {
    let all = program.modules@;
    match gathered(all, all) {
        Err(e) => Err(e),
        Ok(g) => match imports_applied(all, g.modules, all.len()) {
            Err(e) => Err(e),
            Ok(modules) => match externs_gathered(all, g.functions.len(), all) {
                Err(e) => Err(e),
                Ok(externs) => Ok(
                    AssemblyModel {
                        magic: program.magic@,
                        structs: g.structs,
                        globals: g.globals,
                        functions: g.functions + externs,
                        modules: externs_linked(all, g.functions.len(), externs, modules, all.len()),
                        export_structs: exported_structs(g.structs),
                        export_functions: exported_functions(g.functions + externs),
                    },
                ),
            },
        },
    }
}

impl<'a> Assembly<'a> {
    /// The assembly of the program: what `assembled` says.
    pub fn from_core(program: &'a CoreProgram) -> (r: SimpleResult<Assembly<'a>>)
        ensures
            built(r, assembled(*program)),
    {
        let (structs, globals, mut functions, mut modules) = gather(program)?;
        link_imports(program, &mut modules)?;
        let count = functions.len();
        let mut externs = gather_externs(program, count)?;
        link_externs(program, count, &externs, &mut modules);
        let ghost own = specs(functions@);
        let ghost more = specs(externs@);
        functions.append(&mut externs);
        assert(specs(functions@) =~= own + more);
        let export_structs = exported_structs_of(&structs);
        let export_functions = exported_functions_of(&functions);
        Ok(
            Assembly {
                magic: program.magic,
                structs,
                globals,
                functions,
                modules,
                export_structs,
                export_functions,
            },
        )
    }

    pub fn magic(&self) -> (r: &[u8; 4])
        ensures
            r@ == self@.magic,
    {
        &self.magic
    }

    pub fn structs(&self) -> (r: &[Struct])
        ensures
            specs(r@) == self@.structs,
    {
        self.structs.as_slice()
    }

    pub fn globals(&self) -> (r: &[Variable])
        ensures
            specs(r@) == self@.globals,
    {
        self.globals.as_slice()
    }

    pub fn functions(&self) -> (r: &[Function<'a>])
        ensures
            specs(r@) == self@.functions,
    {
        self.functions.as_slice()
    }

    pub fn modules(&self) -> (r: &[Module])
        ensures
            specs(r@) == self@.modules,
    {
        self.modules.as_slice()
    }

    pub fn export_structs(&self) -> (r: &[usize])
        ensures
            r@ == self@.export_structs,
    {
        self.export_structs.as_slice()
    }

    pub fn export_functions(&self) -> (r: &[usize])
        ensures
            r@ == self@.export_functions,
    {
        self.export_functions.as_slice()
    }
}

} // verus!
