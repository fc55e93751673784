//! The names that a module and a function can use: the types and the
//! functions of a module with what it imports, and the variables of a
//! function.

use crate::assembly::tree_of;
use crate::error::{ErrorKind, SimpleError, SimpleResult};
use crate::link::{
    function_names, function_position, module_paths, module_position, name_position,
    struct_names, struct_position,
};
use crate::names::{lookup, NameTable};
use crate::program::{Function, Import, Module, Program, Struct, Type, TypeTree, Variable};
use vstd::prelude::*;

verus! {

fn taken<T>(message: &str) -> (r: SimpleResult<T>)
    ensures
        r matches Err(e) && e.kind == ErrorKind::Resolution,
{
    Err(SimpleError::of(ErrorKind::Resolution, message))
}

/// The table with `value` entered under `name`; nothing where the name
/// is taken.
pub open spec fn entered<V>(t: Seq<(Seq<char>, V)>, name: Seq<char>, value: V) -> Option<
    Seq<(Seq<char>, V)>,
> {
    if lookup(t, name) is Some {
        None
    } else {
        Some(t.push((name, value)))
    }
}

/// The model of a table of types.
pub open spec fn typed(t: Seq<(Seq<char>, Type)>) -> Seq<(Seq<char>, TypeTree)> {
    Seq::new(t.len(), |i: int| (t[i].0, t[i].1@))
}

/// The model of a table of the types of results.
pub open spec fn maybe_typed(t: Seq<(Seq<char>, Option<Type>)>) -> Seq<
    (Seq<char>, Option<TypeTree>),
> {
    Seq::new(t.len(), |i: int| (t[i].0, tree_of(t[i].1)))
}

/// What the model of a table of types holds under a name is the model
/// of what the table holds.
pub proof fn lemma_typed_lookup(t: Seq<(Seq<char>, Type)>, name: Seq<char>)
    ensures
        lookup(typed(t), name) == match lookup(t, name) {
            Some(v) => Some(v@),
            None => None,
        },
    decreases t.len(),
{
    if t.len() > 0 {
        assert(typed(t).drop_last() =~= typed(t.drop_last()));
        lemma_typed_lookup(t.drop_last(), name);
    }
}

/// What the model of a table of results holds under a name is the model
/// of what the table holds.
pub proof fn lemma_maybe_typed_lookup(t: Seq<(Seq<char>, Option<Type>)>, name: Seq<char>)
    ensures
        lookup(maybe_typed(t), name) == match lookup(t, name) {
            Some(v) => Some(tree_of(v)),
            None => None,
        },
    decreases t.len(),
{
    if t.len() > 0 {
        assert(maybe_typed(t).drop_last() =~= maybe_typed(t.drop_last()));
        lemma_maybe_typed_lookup(t.drop_last(), name);
    }
}

// ---------------------------------------------------------------------------
// Types
// ---------------------------------------------------------------------------

/// The atoms: types that no module declares.
pub open spec fn atom_ids() -> Seq<(Seq<char>, Option<usize>)> {
    seq![
        ("i8"@, None),
        ("i16"@, None),
        ("i32"@, None),
        ("i64"@, None),
        ("u8"@, None),
        ("u16"@, None),
        ("u32"@, None),
        ("u64"@, None),
        ("f32"@, None),
        ("f64"@, None),
        ("isize"@, None),
        ("usize"@, None),
    ]
}

/// The table after the structs joined it, each under its name with the
/// module `home`; nothing where a name is taken.
pub open spec fn structs_entered(
    structs: Seq<Struct>,
    home: Option<usize>,
    t: Seq<(Seq<char>, Option<usize>)>,
) -> Option<Seq<(Seq<char>, Option<usize>)>>
    decreases structs.len(),
{
    if structs.len() == 0 {
        Some(t)
    } else {
        match entered(t, structs[0].id@, home) {
            None => None,
            Some(u) => structs_entered(structs.drop_first(), home, u),
        }
    }
}

/// The table after those of the names `names` that are structs of the
/// module `m` joined it, with the module `home`.
pub open spec fn struct_names_entered(
    names: Seq<String>,
    m: Module,
    home: usize,
    t: Seq<(Seq<char>, Option<usize>)>,
) -> Option<Seq<(Seq<char>, Option<usize>)>>
    decreases names.len(),
{
    if names.len() == 0 {
        Some(t)
    } else if name_position(struct_names(m.structs@), names[0]@) is Some {
        match entered(t, names[0]@, Some(home)) {
            None => None,
            Some(u) => struct_names_entered(names.drop_first(), m, home, u),
        }
    } else {
        struct_names_entered(names.drop_first(), m, home, t)
    }
}

/// The table after the structs that the imports name joined it; nothing
/// where a name is taken or no module has the path of an import.
pub open spec fn struct_imports_entered(
    imports: Seq<Import>,
    modules: Seq<Module>,
    t: Seq<(Seq<char>, Option<usize>)>,
) -> Option<Seq<(Seq<char>, Option<usize>)>>
    decreases imports.len(),
{
    if imports.len() == 0 {
        Some(t)
    } else {
        match name_position(module_paths(modules), imports[0].module@) {
            None => None,
            Some(k) => match struct_names_entered(
                imports[0].names@,
                modules[k],
                k as usize,
                t,
            ) {
                None => None,
                Some(u) => struct_imports_entered(imports.drop_first(), modules, u),
            },
        }
    }
}

/// The place in the program of the first module of the path `path`.
pub open spec fn home_of(modules: Seq<Module>, path: Seq<char>) -> Option<usize> {
    match name_position(module_paths(modules), path) {
        Some(k) => Some(k as usize),
        None => None,
    }
}

/// The types that the module can name: the atoms, its structs and the
/// structs that it imports, each with the place of its module in the
/// program. Nothing where two of them have one name or no module has
/// the path of an import.
pub open spec fn module_types(module: Module, program: Program) -> Option<
    Seq<(Seq<char>, Option<usize>)>,
> {
    match structs_entered(
        module.structs@,
        home_of(program.modules@, module.path@),
        atom_ids(),
    ) {
        None => None,
        Some(t) => struct_imports_entered(module.imports@, program.modules@, t),
    }
}

fn atom_table() -> (t: NameTable<Option<usize>>)
    ensures
        t@ == atom_ids(),
{
    let mut t: NameTable<Option<usize>> = NameTable::new();
    t.insert("i8".to_owned(), None);
    t.insert("i16".to_owned(), None);
    t.insert("i32".to_owned(), None);
    t.insert("i64".to_owned(), None);
    t.insert("u8".to_owned(), None);
    t.insert("u16".to_owned(), None);
    t.insert("u32".to_owned(), None);
    t.insert("u64".to_owned(), None);
    t.insert("f32".to_owned(), None);
    t.insert("f64".to_owned(), None);
    t.insert("isize".to_owned(), None);
    t.insert("usize".to_owned(), None);
    assert(t@ =~= atom_ids());
    t
}

/// The types that the module can name. `Resolution` where two of them
/// have one name or no module has the path of an import.
pub fn resolve_module_types(module: &Module, program: &Program) -> (r: SimpleResult<
    NameTable<Option<usize>>,
>)
    ensures
        match module_types(*module, *program) {
            Some(t) => r matches Ok(table) && table@ == t,
            None => r matches Err(e) && e.kind == ErrorKind::Resolution,
        },
{
    let mut table = atom_table();
    let home = module_position(&program.modules, module.path.as_str());
    let mut i: usize = 0;
    assert(module.structs@.skip(0) =~= module.structs@);
    while i < module.structs.len()
        invariant
            i <= module.structs@.len(),
            home == home_of(program.modules@, module.path@),
            structs_entered(module.structs@, home, atom_ids()) == structs_entered(
                module.structs@.skip(i as int),
                home,
                table@,
            ),
        decreases module.structs@.len() - i,
    {
        proof {
            assert(module.structs@.skip(i as int)[0] == module.structs@[i as int]);
            assert(module.structs@.skip(i as int).drop_first() =~= module.structs@.skip(i + 1));
        }
        if table.contains(module.structs[i].id.as_str()) {
            return taken("Struct name already taken");
        }
        table.insert(module.structs[i].id.clone(), home);
        i = i + 1;
    }
    let ghost own = table@;
    let mut j: usize = 0;
    assert(module.imports@.skip(0) =~= module.imports@);
    while j < module.imports.len()
        invariant
            j <= module.imports@.len(),
            module_types(*module, *program) == struct_imports_entered(
                module.imports@.skip(j as int),
                program.modules@,
                table@,
            ),
        decreases module.imports@.len() - j,
    {
        let import = &module.imports[j];
        proof {
            assert(module.imports@.skip(j as int)[0] == module.imports@[j as int]);
            assert(module.imports@.skip(j as int).drop_first() =~= module.imports@.skip(j + 1));
        }
        let k = match module_position(&program.modules, import.module.as_str()) {
            Some(k) => k,
            None => {
                return taken("There is no module");
            },
        };
        let m = &program.modules[k];
        let ghost start = table@;
        let mut n: usize = 0;
        assert(import.names@.skip(0) =~= import.names@);
        while n < import.names.len()
            invariant
                n <= import.names@.len(),
                k < program.modules@.len(),
                *m == program.modules@[k as int],
                j < module.imports@.len(),
                *import == module.imports@[j as int],
                name_position(module_paths(program.modules@), import.module@) == Some(k as int),
                module.imports@.skip(j as int)[0] == module.imports@[j as int],
                module.imports@.skip(j as int).drop_first() =~= module.imports@.skip(j + 1),
                module_types(*module, *program) == struct_imports_entered(
                    module.imports@.skip(j as int),
                    program.modules@,
                    start,
                ),
                struct_names_entered(import.names@, *m, k, start) == struct_names_entered(
                    import.names@.skip(n as int),
                    *m,
                    k,
                    table@,
                ),
            decreases import.names@.len() - n,
        {
            proof {
                assert(import.names@.skip(n as int)[0] == import.names@[n as int]);
                assert(import.names@.skip(n as int).drop_first() =~= import.names@.skip(n + 1));
            }
            if struct_position(&m.structs, import.names[n].as_str()).is_some() {
                if table.contains(import.names[n].as_str()) {
                    return taken("Struct name already taken");
                }
                table.insert(import.names[n].clone(), Some(k));
            }
            n = n + 1;
        }
        j = j + 1;
    }
    Ok(table)
}

// ---------------------------------------------------------------------------
// Functions
// ---------------------------------------------------------------------------

/// The table after the functions joined it, each under its name with
/// the type of its result; nothing where a name is taken.
pub open spec fn functions_entered(fs: Seq<Function>, t: Seq<(Seq<char>, Option<TypeTree>)>) -> Option<
    Seq<(Seq<char>, Option<TypeTree>)>,
>
    decreases fs.len(),
{
    if fs.len() == 0 {
        Some(t)
    } else {
        match entered(t, fs[0].header.id@, tree_of(fs[0].header.typeid)) {
            None => None,
            Some(u) => functions_entered(fs.drop_first(), u),
        }
    }
}

/// The table after those of the names `names` that are functions of the
/// module `m` joined it.
pub open spec fn function_names_entered(
    names: Seq<String>,
    m: Module,
    t: Seq<(Seq<char>, Option<TypeTree>)>,
) -> Option<Seq<(Seq<char>, Option<TypeTree>)>>
    decreases names.len(),
{
    if names.len() == 0 {
        Some(t)
    } else {
        match name_position(function_names(m.functions@), names[0]@) {
            Some(k) => match entered(t, names[0]@, tree_of(m.functions@[k].header.typeid)) {
                None => None,
                Some(u) => function_names_entered(names.drop_first(), m, u),
            },
            None => function_names_entered(names.drop_first(), m, t),
        }
    }
}

/// The table after the functions that the imports name joined it;
/// nothing where a name is taken or no module has the path of an
/// import.
pub open spec fn function_imports_entered(
    imports: Seq<Import>,
    modules: Seq<Module>,
    t: Seq<(Seq<char>, Option<TypeTree>)>,
) -> Option<Seq<(Seq<char>, Option<TypeTree>)>>
    decreases imports.len(),
{
    if imports.len() == 0 {
        Some(t)
    } else {
        match name_position(module_paths(modules), imports[0].module@) {
            None => None,
            Some(k) => match function_names_entered(imports[0].names@, modules[k], t) {
                None => None,
                Some(u) => function_imports_entered(imports.drop_first(), modules, u),
            },
        }
    }
}

/// The functions that the module can call: its own and those that it
/// imports, each with the type of its result. Nothing where two of
/// them have one name or no module has the path of an import.
pub open spec fn module_functions(module: Module, program: Program) -> Option<
    Seq<(Seq<char>, Option<TypeTree>)>,
> {
    match functions_entered(module.functions@, Seq::empty()) {
        None => None,
        Some(t) => function_imports_entered(module.imports@, program.modules@, t),
    }
}

fn copy_of(t: &Option<Type>) -> (r: Option<Type>)
    ensures
        tree_of(r) == tree_of(*t),
{
    match t {
        Some(x) => Some(x.duplicate()),
        None => None,
    }
}

/// The functions that the module can call. `Resolution` where two of
/// them have one name or no module has the path of an import.
pub fn resolve_module_functions(module: &Module, program: &Program) -> (r: SimpleResult<
    NameTable<Option<Type>>,
>)
    ensures
        match module_functions(*module, *program) {
            Some(t) => r matches Ok(table) && maybe_typed(table@) == t,
            None => r matches Err(e) && e.kind == ErrorKind::Resolution,
        },
{
    let mut table: NameTable<Option<Type>> = NameTable::new();
    let mut i: usize = 0;
    assert(module.functions@.skip(0) =~= module.functions@);
    assert(maybe_typed(table@) =~= Seq::empty());
    while i < module.functions.len()
        invariant
            i <= module.functions@.len(),
            functions_entered(module.functions@, Seq::empty()) == functions_entered(
                module.functions@.skip(i as int),
                maybe_typed(table@),
            ),
        decreases module.functions@.len() - i,
    {
        let f = &module.functions[i];
        proof {
            assert(module.functions@.skip(i as int)[0] == module.functions@[i as int]);
            assert(module.functions@.skip(i as int).drop_first() =~= module.functions@.skip(i + 1));
            lemma_maybe_typed_lookup(table@, f.header.id@);
        }
        if table.contains(f.header.id.as_str()) {
            return taken("Function name already taken");
        }
        let ghost before = table@;
        let typeid = copy_of(&f.header.typeid);
        table.insert(f.header.id.clone(), typeid);
        assert(maybe_typed(table@) =~= maybe_typed(before).push(
            (f.header.id@, tree_of(f.header.typeid)),
        ));
        i = i + 1;
    }
    let mut j: usize = 0;
    assert(module.imports@.skip(0) =~= module.imports@);
    while j < module.imports.len()
        invariant
            j <= module.imports@.len(),
            module_functions(*module, *program) == function_imports_entered(
                module.imports@.skip(j as int),
                program.modules@,
                maybe_typed(table@),
            ),
        decreases module.imports@.len() - j,
    {
        let import = &module.imports[j];
        proof {
            assert(module.imports@.skip(j as int)[0] == module.imports@[j as int]);
            assert(module.imports@.skip(j as int).drop_first() =~= module.imports@.skip(j + 1));
        }
        let k = match module_position(&program.modules, import.module.as_str()) {
            Some(k) => k,
            None => {
                return taken("There is no module");
            },
        };
        let m = &program.modules[k];
        let ghost start = maybe_typed(table@);
        let mut n: usize = 0;
        assert(import.names@.skip(0) =~= import.names@);
        while n < import.names.len()
            invariant
                n <= import.names@.len(),
                k < program.modules@.len(),
                *m == program.modules@[k as int],
                j < module.imports@.len(),
                *import == module.imports@[j as int],
                name_position(module_paths(program.modules@), import.module@) == Some(k as int),
                module.imports@.skip(j as int)[0] == module.imports@[j as int],
                module.imports@.skip(j as int).drop_first() =~= module.imports@.skip(j + 1),
                module_functions(*module, *program) == function_imports_entered(
                    module.imports@.skip(j as int),
                    program.modules@,
                    start,
                ),
                function_names_entered(import.names@, *m, start) == function_names_entered(
                    import.names@.skip(n as int),
                    *m,
                    maybe_typed(table@),
                ),
            decreases import.names@.len() - n,
        {
            proof {
                assert(import.names@.skip(n as int)[0] == import.names@[n as int]);
                assert(import.names@.skip(n as int).drop_first() =~= import.names@.skip(n + 1));
                lemma_maybe_typed_lookup(table@, import.names@[n as int]@);
            }
            match function_position(&m.functions, import.names[n].as_str()) {
                Some(at) => {
                    if table.contains(import.names[n].as_str()) {
                        return taken("Function name already taken");
                    }
                    let ghost before = table@;
                    let typeid = copy_of(&m.functions[at].header.typeid);
                    table.insert(import.names[n].clone(), typeid);
                    assert(maybe_typed(table@) =~= maybe_typed(before).push(
                        (import.names@[n as int]@, tree_of(m.functions@[at as int].header.typeid)),
                    ));
                },
                None => {},
            }
            n = n + 1;
        }
        j = j + 1;
    }
    Ok(table)
}

// ---------------------------------------------------------------------------
// Variables
// ---------------------------------------------------------------------------

/// The table after the variables joined it, each under its name with
/// its type; nothing where a name is taken.
pub open spec fn variables_entered(vars: Seq<Variable>, t: Seq<(Seq<char>, TypeTree)>) -> Option<
    Seq<(Seq<char>, TypeTree)>,
>
    decreases vars.len(),
{
    if vars.len() == 0 {
        Some(t)
    } else {
        match entered(t, vars[0].id@, vars[0].typeid@) {
            None => None,
            Some(u) => variables_entered(vars.drop_first(), u),
        }
    }
}

/// The table with the result of the function under the name `_`, where
/// it has one.
pub open spec fn result_entered(function: Function, t: Seq<(Seq<char>, TypeTree)>) -> Seq<
    (Seq<char>, TypeTree),
> {
    match function.header.typeid {
        Some(r) => t.push(("_"@, r@)),
        None => t,
    }
}

/// The variables that the function can name: the globals of its module,
/// its result under the name `_`, its parameters and its locals.
/// Nothing where two of them have one name; the result may hide a
/// global.
pub open spec fn function_variables(function: Function, module: Module) -> Option<
    Seq<(Seq<char>, TypeTree)>,
> {
    match variables_entered(module.globals@, Seq::empty()) {
        None => None,
        Some(t) => match variables_entered(function.header.params@, result_entered(function, t)) {
            None => None,
            Some(u) => variables_entered(function.locals@, u),
        },
    }
}

fn enter_variables(table: &mut NameTable<Type>, vars: &Vec<Variable>) -> (ok: bool)
    ensures
        match variables_entered(vars@, typed(old(table)@)) {
            Some(t) => ok && typed(final(table)@) == t,
            None => !ok,
        },
{
    let ghost start = typed(table@);
    let mut i: usize = 0;
    assert(vars@.skip(0) =~= vars@);
    while i < vars.len()
        invariant
            i <= vars@.len(),
            start == typed(old(table)@),
            variables_entered(vars@, start) == variables_entered(
                vars@.skip(i as int),
                typed(table@),
            ),
        decreases vars@.len() - i,
    {
        proof {
            assert(vars@.skip(i as int)[0] == vars@[i as int]);
            assert(vars@.skip(i as int).drop_first() =~= vars@.skip(i + 1));
            lemma_typed_lookup(table@, vars@[i as int].id@);
        }
        if table.contains(vars[i].id.as_str()) {
            return false;
        }
        let ghost before = table@;
        table.insert(vars[i].id.clone(), vars[i].typeid.duplicate());
        assert(typed(table@) =~= typed(before).push((vars@[i as int].id@, vars@[i as int].typeid@)));
        i = i + 1;
    }
    true
}

/// The variables that the function can name. `Resolution` where two of
/// them have one name.
pub fn resolve_function_variables(function: &Function, module: &Module) -> (r: SimpleResult<
    NameTable<Type>,
>)
    ensures
        match function_variables(*function, *module) {
            Some(t) => r matches Ok(table) && typed(table@) == t,
            None => r matches Err(e) && e.kind == ErrorKind::Resolution,
        },
{
    let mut table: NameTable<Type> = NameTable::new();
    assert(typed(table@) =~= Seq::empty());
    if !enter_variables(&mut table, &module.globals) {
        return taken("Variable name already taken");
    }
    match &function.header.typeid {
        Some(t) => {
            let ghost before = table@;
            table.insert("_".to_owned(), t.duplicate());
            assert(typed(table@) =~= typed(before).push(("_"@, t@)));
        },
        None => {},
    }
    if !enter_variables(&mut table, &function.header.params) {
        return taken("Variable name already taken");
    }
    if !enter_variables(&mut table, &function.locals) {
        return taken("Local variable name already taken");
    }
    Ok(table)
}

} // verus!
