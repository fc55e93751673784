//! The passes over a program before it is encoded: what a dialect does
//! not want is left out, placeholders are settled, and what remains is
//! checked. A dialect takes part in each pass through `DeepValidator`.

use crate::auto_types::{module_settles, settled_module, transform_module_auto_types};
use crate::checks::{
    check_op, header_known, op_checked, rule_of, struct_sound, validate_function_header,
    validate_struct, validate_variables, variable_names, variables_known, Names, Rule, Tables,
};
use crate::copy::{
    metas_copy, same_header, same_metas, same_step, same_struct, same_variables, variables_copy,
};
use crate::error::{ErrorKind, SimpleError, SimpleResult};
use crate::link::{function_names, function_position, module_position, struct_names};
use crate::names::{lookup, NameTable};
use crate::program::{
    BlockOp, Entry, Extern, Function, Import, Meta, Module, OpRule, Operation, OpsDescriptor,
    Program, Struct,
};
use crate::resolve::{
    function_variables, maybe_typed, module_functions, module_types, resolve_function_variables,
    resolve_module_functions, resolve_module_types, typed,
};
use vstd::prelude::*;

verus! {

/// What a dialect adds to the passes over a program. Each method has
/// the whole program before it as it was when the pass began.
pub trait DeepValidator {
    /// True when the module stays in the program.
    fn filter_module(_module: &Module, _program: &Program, _validator: &Validator) -> bool {
        true
    }

    /// True when the struct stays in its module.
    fn filter_struct(
        _struct_: &Struct,
        _module: &Module,
        _program: &Program,
        _validator: &Validator,
    ) -> bool {
        true
    }

    /// True when the function stays in its module.
    fn filter_function(
        _function: &Function,
        _module: &Module,
        _program: &Program,
        _validator: &Validator,
    ) -> bool {
        true
    }

    /// True when the operation stays in the body of its function.
    fn filter_op(
        _op: &Operation,
        _function: &Function,
        _module: &Module,
        _program: &Program,
        _validator: &Validator,
    ) -> bool {
        true
    }

    /// The dialect's own check of the program.
    fn validate_program(_program: &Program, _validator: &Validator) -> SimpleResult<()> {
        Ok(())
    }

    /// The dialect's own check of a module.
    fn validate_module(_module: &Module, _program: &Program, _validator: &Validator) -> SimpleResult<
        (),
    > {
        Ok(())
    }

    /// The dialect's own check of an operation that meets the rule.
    fn validate_op(
        _op: &Operation,
        _function: &Function,
        _module: &Module,
        _program: &Program,
        _rule: &Rule,
        _validator: &Validator,
    ) -> SimpleResult<()> {
        Ok(())
    }

    /// The module as the dialect wants it encoded.
    fn transform_module(module: Module, _program: &Program, _validator: &Validator) -> SimpleResult<
        Module,
    > {
        Ok(module)
    }
}

/// The dialect that adds nothing but the settling of placeholders.
pub struct EmptyDeepValidator {}

impl DeepValidator for EmptyDeepValidator {
    /// The module with its placeholders settled by what its notes
    /// choose; `TypeError` where a constant cannot be settled.
    fn transform_module(module: Module, _program: &Program, _validator: &Validator) -> (r:
        SimpleResult<Module>)
        ensures
            if module_settles(module) {
                r matches Ok(out) && settled_module(out, module)
            } else {
                r matches Err(e) && e.kind == ErrorKind::TypeError
            },
    {
        transform_module_auto_types(module)
    }
}

/// Those of `all` that `keep` marks, in their order.
pub open spec fn picked<T>(all: Seq<T>, keep: Seq<bool>) -> Seq<T>
    decreases all.len(),
{
    if all.len() == 0 || keep.len() != all.len() {
        Seq::empty()
    } else if keep.last() {
        picked(all.drop_last(), keep.drop_last()).push(all.last())
    } else {
        picked(all.drop_last(), keep.drop_last())
    }
}

/// True when the rules say what the rules of a descriptor say, one for
/// one.
pub open spec fn rules_of(out: Seq<Rule>, rules: Seq<OpRule>) -> bool {
    out.len() == rules.len() && forall|i: int| 0 <= i < rules.len() ==> rule_of(#[trigger] out[i], rules[i])
}

/// True when `out` is `all` with some items left out, and what stays
/// is the same by `same`.
pub open spec fn thinned<T>(out: Seq<T>, all: Seq<T>, same: spec_fn(T, T) -> bool) -> bool
    decreases all.len(),
{
    if all.len() == 0 {
        out.len() == 0
    } else {
        thinned(out, all.drop_last(), same) || (out.len() > 0 && same(out.last(), all.last())
            && thinned(out.drop_last(), all.drop_last(), same))
    }
}

/// True when `out` is the body `all` with some operations left out:
/// every label stays.
pub open spec fn thinned_steps(out: Seq<BlockOp>, all: Seq<BlockOp>) -> bool
    decreases all.len(),
{
    if all.len() == 0 {
        out.len() == 0
    } else {
        (all.last() is Operation && thinned_steps(out, all.drop_last())) || (out.len() > 0
            && same_step(out.last(), all.last()) && thinned_steps(
            out.drop_last(),
            all.drop_last(),
        ))
    }
}

/// True when `out` is the function with some operations left out of
/// its body.
pub open spec fn thinned_function(out: Function, f: Function) -> bool {
    &&& same_metas(out.meta@, f.meta@)
    &&& out.export == f.export
    &&& same_header(out.header, f.header)
    &&& same_variables(out.locals@, f.locals@)
    &&& thinned_steps(out.body@, f.body@)
}

/// True when `out` is the module with some structs, functions and
/// operations left out.
pub open spec fn thinned_module(out: Module, m: Module) -> bool {
    &&& out.magic == m.magic
    &&& out.shebang == m.shebang
    &&& out.path == m.path
    &&& same_metas(out.meta@, m.meta@)
    &&& out.imports@.len() == m.imports@.len()
    &&& forall|k: int|
        0 <= k < m.imports@.len() ==> crate::copy::same_import(
            #[trigger] out.imports@[k],
            m.imports@[k],
        )
    &&& same_variables(out.globals@, m.globals@)
    &&& out.externs@.len() == m.externs@.len()
    &&& forall|k: int|
        0 <= k < m.externs@.len() ==> crate::copy::same_extern(
            #[trigger] out.externs@[k],
            m.externs@[k],
        )
    &&& thinned(out.structs@, m.structs@, |a: Struct, b: Struct| same_struct(a, b))
    &&& thinned(out.functions@, m.functions@, |a: Function, b: Function| thinned_function(a, b))
}

// ---------------------------------------------------------------------------
// What a valid program is
// ---------------------------------------------------------------------------

/// The texts of the names.
pub open spec fn texts(names: Seq<String>) -> Seq<Seq<char>> {
    Seq::new(names.len(), |i: int| names[i]@)
}

/// The names of the external functions.
pub open spec fn extern_names(externs: Seq<Extern>) -> Seq<Seq<char>> {
    Seq::new(externs.len(), |i: int| externs[i].item.id@)
}

/// The names that the imports bring, one import after the other.
pub open spec fn import_names(imports: Seq<Import>) -> Seq<Seq<char>>
    decreases imports.len(),
{
    if imports.len() == 0 {
        Seq::empty()
    } else {
        import_names(imports.drop_last()) + texts(imports.last().names@)
    }
}

/// The names of a module: what it imports, its globals, its external
/// functions, its structs and its functions.
pub open spec fn module_names(m: Module) -> Seq<Seq<char>> {
    import_names(m.imports@) + variable_names(m.globals@) + extern_names(m.externs@)
        + struct_names(m.structs@) + function_names(m.functions@)
}

/// True when the step is a label, or an operation that meets its rule.
pub open spec fn step_ok(step: BlockOp, names: Names, rules: Seq<Rule>, modules: Seq<Module>) -> bool {
    match step {
        BlockOp::Label(_) => true,
        BlockOp::Operation(op) => op_checked(op, names, rules, modules) is Ok,
    }
}

/// True when the types of the function are known and every operation
/// of its body meets its rule.
pub open spec fn function_ok(f: Function, names: Names, rules: Seq<Rule>, modules: Seq<Module>) -> bool {
    &&& header_known(f.header, names.types)
    &&& variables_known(f.locals@, names.types)
    &&& forall|k: int| 0 <= k < f.body@.len() ==> step_ok(#[trigger] f.body@[k], names, rules, modules)
}

/// True when the variables of the function have names of their own and
/// the function is in order among the names of its module.
pub open spec fn function_valid(
    f: Function,
    module: Module,
    types: Seq<(Seq<char>, Option<usize>)>,
    functions: Seq<(Seq<char>, Option<crate::program::TypeTree>)>,
    rules: Seq<Rule>,
    modules: Seq<Module>,
) -> bool {
    function_variables(f, module) is Some && function_ok(
        f,
        Names { types, functions, variables: function_variables(f, module).unwrap() },
        rules,
        modules,
    )
}

/// True when the module is in order: its types and functions have
/// names of their own, no struct holds itself, every type that it
/// names is known, and every function is in order.
pub open spec fn module_ok(module: Module, program: Program, rules: Seq<Rule>) -> bool {
    &&& module_types(module, program) is Some
    &&& module_functions(module, program) is Some
    &&& forall|k: int|
        0 <= k < module.structs@.len() ==> struct_sound(
            #[trigger] module.structs@[k],
            program.modules@,
        )
    &&& variables_known(module.globals@, module_types(module, program).unwrap())
    &&& forall|k: int|
        0 <= k < module.externs@.len() ==> header_known(
            (#[trigger] module.externs@[k]).item,
            module_types(module, program).unwrap(),
        )
    &&& forall|k: int|
        0 <= k < module.functions@.len() ==> function_valid(
            #[trigger] module.functions@[k],
            module,
            module_types(module, program).unwrap(),
            module_functions(module, program).unwrap(),
            rules,
            program.modules@,
        )
}

/// How far the checks get before the dialect is asked: to a failure,
/// to the first question to the dialect, or to their end without one.
pub enum Early {
    Fault(ErrorKind),
    Asked,
    Clear,
}

/// How far the checks of a body get: the first operation fails its
/// check, or the dialect is asked about it; a body without operations
/// is clear.
pub open spec fn body_early(body: Seq<BlockOp>, names: Names, rules: Seq<Rule>, modules: Seq<Module>) -> Early
    decreases body.len(),
{
    if body.len() == 0 {
        Early::Clear
    } else {
        match body[0] {
            BlockOp::Label(_) => body_early(body.drop_first(), names, rules, modules),
            BlockOp::Operation(op) => match op_checked(op, names, rules, modules) {
                Err(kind) => Early::Fault(kind),
                Ok(_) => Early::Asked,
            },
        }
    }
}

/// How far the checks of a function get: `Resolution` where a type of
/// its head or of its locals is not known, else as far as those of its
/// body.
pub open spec fn function_early(f: Function, names: Names, rules: Seq<Rule>, modules: Seq<Module>) -> Early {
    if !header_known(f.header, names.types) || !variables_known(f.locals@, names.types) {
        Early::Fault(ErrorKind::Resolution)
    } else {
        body_early(f.body@, names, rules, modules)
    }
}

/// How far the checks of the functions of a module get: as far as
/// those of the first function that is not clear, where `Resolution`
/// is the failure of a function whose variables have no names of their
/// own.
pub open spec fn functions_early(
    fs: Seq<Function>,
    module: Module,
    types: Seq<(Seq<char>, Option<usize>)>,
    functions: Seq<(Seq<char>, Option<crate::program::TypeTree>)>,
    rules: Seq<Rule>,
    modules: Seq<Module>,
) -> Early
    decreases fs.len(),
{
    if fs.len() == 0 {
        Early::Clear
    } else {
        let first = match function_variables(fs[0], module) {
            None => Early::Fault(ErrorKind::Resolution),
            Some(variables) => function_early(
                fs[0],
                Names { types, functions, variables },
                rules,
                modules,
            ),
        };
        match first {
            Early::Clear => functions_early(fs.drop_first(), module, types, functions, rules, modules),
            other => other,
        }
    }
}

/// True when no struct of the module holds itself.
pub open spec fn structs_sound(module: Module, modules: Seq<Module>) -> bool {
    forall|k: int| 0 <= k < module.structs@.len() ==> struct_sound(#[trigger] module.structs@[k], modules)
}

/// True when the types of the heads of the external functions of the
/// module are known.
pub open spec fn externs_known(module: Module, types: Seq<(Seq<char>, Option<usize>)>) -> bool {
    forall|k: int|
        0 <= k < module.externs@.len() ==> header_known((#[trigger] module.externs@[k]).item, types)
}

/// How far the checks of a module get before the dialect is asked:
/// `Resolution` where its types or its functions have no names of
/// their own, `TypeError` where a struct holds itself, `Resolution`
/// where a type of a global or of an external function is not known,
/// then as far as the checks of its functions; with all of them clear
/// the dialect is asked about the module.
pub open spec fn module_early(module: Module, program: Program, rules: Seq<Rule>) -> Early {
    match module_types(module, program) {
        None => Early::Fault(ErrorKind::Resolution),
        Some(types) => match module_functions(module, program) {
            None => Early::Fault(ErrorKind::Resolution),
            Some(functions) => if !structs_sound(module, program.modules@) {
                Early::Fault(ErrorKind::TypeError)
            } else if !variables_known(module.globals@, types) || !externs_known(module, types) {
                Early::Fault(ErrorKind::Resolution)
            } else {
                match functions_early(
                    module.functions@,
                    module,
                    types,
                    functions,
                    rules,
                    program.modules@,
                ) {
                    Early::Clear => Early::Asked,
                    other => other,
                }
            },
        },
    }
}

/// How far the checks of a program get before the dialect is asked:
/// `Resolution` where two things of the first module have one name,
/// else as far as the checks of the first module. Of a program without
/// modules the dialect is asked at once.
pub open spec fn program_early(program: Program, rules: Seq<Rule>) -> Early {
    if program.modules@.len() == 0 {
        Early::Asked
    } else if !module_names(program.modules@[0]).no_duplicates() {
        Early::Fault(ErrorKind::Resolution)
    } else {
        module_early(program.modules@[0], program, rules)
    }
}

/// True when every module of the program is in order and none has two
/// things of one name.
pub open spec fn program_ok(program: Program, rules: Seq<Rule>) -> bool {
    forall|k: int|
        0 <= k < program.modules@.len() ==> module_names(
            #[trigger] program.modules@[k],
        ).no_duplicates() && module_ok(program.modules@[k], program, rules)
}

// ---------------------------------------------------------------------------
// Names of their own
// ---------------------------------------------------------------------------

/// The names under which a table holds something.
pub open spec fn keys(t: Seq<(Seq<char>, ())>) -> Seq<Seq<char>> {
    Seq::new(t.len(), |i: int| t[i].0)
}

proof fn lemma_keys_lookup(t: Seq<(Seq<char>, ())>, name: Seq<char>)
    ensures
        lookup(t, name) is Some <==> keys(t).contains(name),
    decreases t.len(),
{
    if t.len() > 0 {
        lemma_keys_lookup(t.drop_last(), name);
        assert(keys(t).drop_last() =~= keys(t.drop_last()));
        if t.last().0 == name {
            assert(keys(t)[t.len() - 1] == name);
        } else if keys(t).contains(name) {
            let i = choose|i: int| 0 <= i < keys(t).len() && keys(t)[i] == name;
            assert(keys(t.drop_last())[i] == name);
        } else if keys(t.drop_last()).contains(name) {
            let i = choose|i: int| 0 <= i < keys(t.drop_last()).len() && keys(t.drop_last())[i] == name;
            assert(keys(t)[i] == name);
        }
    }
}

proof fn lemma_import_names_prefix(imports: Seq<Import>, j: int)
    requires
        0 <= j < imports.len(),
    ensures
        import_names(imports.take(j + 1)) == import_names(imports.take(j)) + texts(
            imports[j].names@,
        ),
        import_names(imports.take(j + 1)).len() <= import_names(imports).len(),
        import_names(imports).take(import_names(imports.take(j + 1)).len() as int)
            == import_names(imports.take(j + 1)),
    decreases imports.len(),
{
    assert(imports.take(j + 1).drop_last() =~= imports.take(j));
    assert(imports.take(j + 1).last() == imports[j]);
    if j + 1 == imports.len() {
        assert(imports.take(j + 1) =~= imports);
        assert(import_names(imports).take(import_names(imports).len() as int) =~= import_names(
            imports,
        ));
    } else {
        let shorter = imports.drop_last();
        lemma_import_names_prefix(shorter, j);
        assert(shorter.take(j + 1) =~= imports.take(j + 1));
        assert(shorter.take(j) =~= imports.take(j));
        let n = import_names(imports.take(j + 1)).len() as int;
        assert(import_names(imports).take(n) =~= import_names(shorter).take(n));
    }
}

/// Enters `name`, unless it is there.
fn claim(table: &mut NameTable<()>, name: &str) -> (ok: bool)
    requires
        keys(old(table)@).no_duplicates(),
    ensures
        ok == !keys(old(table)@).contains(name@),
        ok ==> keys(final(table)@) == keys(old(table)@).push(name@) && keys(
            final(table)@,
        ).no_duplicates(),
        !ok ==> final(table)@ == old(table)@,
{
    proof {
        lemma_keys_lookup(table@, name@);
    }
    if table.contains(name) {
        return false;
    }
    table.insert(name.to_owned(), ());
    proof {
        let before = keys(old(table)@);
        let after = keys(table@);
        assert(after =~= before.push(name@));
        assert forall|i: int, j: int| 0 <= i < after.len() && 0 <= j < after.len() && i != j implies after[i]
            != after[j] by {
            if i < before.len() && j < before.len() {
                assert(before[i] != before[j]);
            } else if i < before.len() {
                assert(before[i] != name@);
            } else {
                assert(before[j] != name@);
            }
        }
    }
    true
}

proof fn lemma_taken_twice(all: Seq<Seq<char>>, seen: Seq<Seq<char>>, name: Seq<char>)
    requires
        seen.len() < all.len(),
        all.take(seen.len() as int) == seen,
        all[seen.len() as int] == name,
        seen.contains(name),
    ensures
        !all.no_duplicates(),
{
    let i = choose|i: int| 0 <= i < seen.len() && seen[i] == name;
    assert(all.take(seen.len() as int)[i] == all[i]);
    assert(all[i] == all[seen.len() as int]);
}

/// Checks that no two things of the module have one name: the names
/// that it imports, its globals, its external functions, its structs
/// and its functions. `Resolution` where two have.
pub fn ensure_no_duplicates_module(module: &Module) -> (r: SimpleResult<()>)
    ensures
        if module_names(*module).no_duplicates() {
            r is Ok
        } else {
            r matches Err(e) && e.kind == ErrorKind::Resolution
        },
{
    let ghost all = module_names(*module);
    let ghost a = import_names(module.imports@);
    let ghost b = variable_names(module.globals@);
    let ghost c = extern_names(module.externs@);
    let ghost d = struct_names(module.structs@);
    let ghost e = function_names(module.functions@);
    let mut ids: NameTable<()> = NameTable::new();
    assert(keys(ids@) =~= Seq::empty());
    let mut j: usize = 0;
    assert(module.imports@.take(0) =~= Seq::<Import>::empty());
    while j < module.imports.len()
        invariant
            j <= module.imports@.len(),
            all == module_names(*module),
            a == import_names(module.imports@),
            keys(ids@) == import_names(module.imports@.take(j as int)),
            keys(ids@).no_duplicates(),
        decreases module.imports@.len() - j,
    {
        let names = &module.imports[j].names;
        let ghost start = keys(ids@);
        proof {
            lemma_import_names_prefix(module.imports@, j as int);
            assert(start + texts(names@).take(0) =~= start);
        }
        let mut n: usize = 0;
        while n < names.len()
            invariant
                n <= names@.len(),
                j < module.imports@.len(),
                *names == module.imports@[j as int].names,
                all == module_names(*module),
                a == import_names(module.imports@),
                start == import_names(module.imports@.take(j as int)),
                import_names(module.imports@.take(j + 1)) == start + texts(names@),
                a.take(import_names(module.imports@.take(j + 1)).len() as int) == import_names(
                    module.imports@.take(j + 1),
                ),
                import_names(module.imports@.take(j + 1)).len() <= a.len(),
                keys(ids@) == start + texts(names@).take(n as int),
                keys(ids@).no_duplicates(),
            decreases names@.len() - n,
        {
            let ghost seen = keys(ids@);
            if !claim(&mut ids, names[n].as_str()) {
                proof {
                    let whole = start + texts(names@);
                    assert(whole.take(seen.len() as int) =~= seen);
                    assert(a.take(seen.len() as int) =~= a.take(whole.len() as int).take(
                        seen.len() as int,
                    ));
                    assert(all.take(seen.len() as int) =~= a.take(seen.len() as int));
                    assert(whole[seen.len() as int] == names@[n as int]@);
                    assert(a.take(whole.len() as int)[seen.len() as int] == a[seen.len() as int]);
                    lemma_taken_twice(all, seen, names@[n as int]@);
                }
                return taken("Import name is already taken");
            }
            assert(keys(ids@) =~= start + texts(names@).take(n + 1));
            n = n + 1;
        }
        assert(texts(names@).take(n as int) =~= texts(names@));
        j = j + 1;
    }
    assert(module.imports@.take(j as int) =~= module.imports@);
    let mut i: usize = 0;
    assert(a + b.take(0) =~= a);
    while i < module.globals.len()
        invariant
            i <= module.globals@.len(),
            all == module_names(*module),
            all == a + b + c + d + e,
            b == variable_names(module.globals@),
            keys(ids@) == a + b.take(i as int),
            keys(ids@).no_duplicates(),
        decreases module.globals@.len() - i,
    {
        let ghost seen = keys(ids@);
        if !claim(&mut ids, module.globals[i].id.as_str()) {
            proof {
                assert(all.take(seen.len() as int) =~= seen);
                lemma_taken_twice(all, seen, module.globals@[i as int].id@);
            }
            return taken("Global name is already taken");
        }
        assert(keys(ids@) =~= a + b.take(i + 1));
        i = i + 1;
    }
    assert(b.take(i as int) =~= b);
    let mut i: usize = 0;
    assert(a + b + c.take(0) =~= a + b);
    while i < module.externs.len()
        invariant
            i <= module.externs@.len(),
            all == module_names(*module),
            all == a + b + c + d + e,
            c == extern_names(module.externs@),
            keys(ids@) == a + b + c.take(i as int),
            keys(ids@).no_duplicates(),
        decreases module.externs@.len() - i,
    {
        let ghost seen = keys(ids@);
        if !claim(&mut ids, module.externs[i].item.id.as_str()) {
            proof {
                assert(all.take(seen.len() as int) =~= seen);
                lemma_taken_twice(all, seen, module.externs@[i as int].item.id@);
            }
            return taken("Extern name is already taken");
        }
        assert(keys(ids@) =~= a + b + c.take(i + 1));
        i = i + 1;
    }
    assert(c.take(i as int) =~= c);
    let mut i: usize = 0;
    assert(a + b + c + d.take(0) =~= a + b + c);
    while i < module.structs.len()
        invariant
            i <= module.structs@.len(),
            all == module_names(*module),
            all == a + b + c + d + e,
            d == struct_names(module.structs@),
            keys(ids@) == a + b + c + d.take(i as int),
            keys(ids@).no_duplicates(),
        decreases module.structs@.len() - i,
    {
        let ghost seen = keys(ids@);
        if !claim(&mut ids, module.structs[i].id.as_str()) {
            proof {
                assert(all.take(seen.len() as int) =~= seen);
                lemma_taken_twice(all, seen, module.structs@[i as int].id@);
            }
            return taken("Struct name is already taken");
        }
        assert(keys(ids@) =~= a + b + c + d.take(i + 1));
        i = i + 1;
    }
    assert(d.take(i as int) =~= d);
    let mut i: usize = 0;
    assert(a + b + c + d + e.take(0) =~= a + b + c + d);
    while i < module.functions.len()
        invariant
            i <= module.functions@.len(),
            all == module_names(*module),
            all == a + b + c + d + e,
            e == function_names(module.functions@),
            keys(ids@) == a + b + c + d + e.take(i as int),
            keys(ids@).no_duplicates(),
        decreases module.functions@.len() - i,
    {
        let ghost seen = keys(ids@);
        if !claim(&mut ids, module.functions[i].header.id.as_str()) {
            proof {
                assert(all.take(seen.len() as int) =~= seen);
                lemma_taken_twice(all, seen, module.functions@[i as int].header.id@);
            }
            return taken("Function name is already taken");
        }
        assert(keys(ids@) =~= a + b + c + d + e.take(i + 1));
        i = i + 1;
    }
    assert(e.take(i as int) =~= e);
    Ok(())
}

fn taken<T>(message: &str) -> (r: SimpleResult<T>)
    ensures
        r matches Err(e) && e.kind == ErrorKind::Resolution,
{
    Err(SimpleError::of(ErrorKind::Resolution, message))
}

// ---------------------------------------------------------------------------
// The validator
// ---------------------------------------------------------------------------

/// The rules of a dialect, against which programs are checked.
pub struct Validator {
    meta: Vec<Meta>,
    rules: Vec<Rule>,
}

/// What the check of an operation gives once the dialect has answered:
/// its answer, a failure with its kind.
pub fn op_verdict(theirs: SimpleResult<()>) -> (r: SimpleResult<()>)
    ensures
        match theirs {
            Ok(_) => r is Ok,
            Err(e) => r matches Err(x) && x.kind == e.kind,
        },
{
    match theirs {
        Ok(_) => Ok(()),
        Err(e) => Err(SimpleError::of(e.kind, "Operation is refused")),
    }
}

impl Validator {
    /// The rules that the validator holds.
    pub closed spec fn held(&self) -> Seq<Rule> {
        self.rules@
    }

    /// The notes that the validator holds.
    pub closed spec fn notes(&self) -> Seq<Meta> {
        self.meta@
    }

    /// The validator of all rules of the descriptor.
    pub fn new(ops_descriptor: &OpsDescriptor) -> (v: Self)
        ensures
            same_metas(v.notes(), ops_descriptor.meta@),
            rules_of(v.held(), ops_descriptor.rules@),
    {
        let mut rules: Vec<Rule> = Vec::new();
        let mut i: usize = 0;
        while i < ops_descriptor.rules.len()
            invariant
                i <= ops_descriptor.rules@.len(),
                rules@.len() == i,
                forall|k: int| 0 <= k < i ==> rule_of(#[trigger] rules@[k], ops_descriptor.rules@[k]),
            decreases ops_descriptor.rules@.len() - i,
        {
            rules.push(Rule::from_op_rule(&ops_descriptor.rules[i]));
            i = i + 1;
        }
        Validator { meta: metas_copy(&ops_descriptor.meta), rules }
    }

    /// The validator of those rules of the descriptor that `filter`
    /// accepts.
    pub fn with_filter<F: Fn(&OpRule, &OpsDescriptor) -> bool>(
        ops_descriptor: &OpsDescriptor,
        filter: F,
    ) -> (v: Self)
        requires
            forall|i: int|
                0 <= i < ops_descriptor.rules@.len() ==> call_requires(
                    filter,
                    (&#[trigger] ops_descriptor.rules@[i], ops_descriptor),
                ),
        ensures
            same_metas(v.notes(), ops_descriptor.meta@),
            exists|keep: Seq<bool>|
                keep.len() == ops_descriptor.rules@.len() && (forall|i: int|
                    0 <= i < keep.len() ==> call_ensures(
                        filter,
                        (&ops_descriptor.rules@[i], ops_descriptor),
                        #[trigger] keep[i],
                    )) && rules_of(v.held(), picked(ops_descriptor.rules@, keep)),
    {
        let ghost all = ops_descriptor.rules@;
        let ghost mut keep: Seq<bool> = Seq::empty();
        let mut rules: Vec<Rule> = Vec::new();
        let mut i: usize = 0;
        assert(all.take(0) =~= Seq::<OpRule>::empty());
        while i < ops_descriptor.rules.len()
            invariant
                i <= all.len(),
                all == ops_descriptor.rules@,
                keep.len() == i,
                forall|k: int|
                    0 <= k < all.len() ==> call_requires(
                        filter,
                        (&#[trigger] ops_descriptor.rules@[k], ops_descriptor),
                    ),
                forall|k: int|
                    0 <= k < i ==> call_ensures(filter, (&all[k], ops_descriptor), #[trigger] keep[k]),
                rules_of(rules@, picked(all.take(i as int), keep)),
            decreases all.len() - i,
        {
            let rule = &ops_descriptor.rules[i];
            let stays = filter(rule, ops_descriptor);
            let ghost before = picked(all.take(i as int), keep);
            proof {
                assert(all.take(i + 1).drop_last() =~= all.take(i as int));
                assert(all.take(i + 1).last() == all[i as int]);
                assert(keep.push(stays).drop_last() =~= keep);
            }
            if stays {
                rules.push(Rule::from_op_rule(rule));
            }
            proof {
                keep = keep.push(stays);
            }
            i = i + 1;
        }
        assert(all.take(i as int) =~= all);
        Validator { meta: metas_copy(&ops_descriptor.meta), rules }
    }

    /// The notes of the dialect.
    pub fn meta(&self) -> (r: &[Meta])
        ensures
            r@ == self.notes(),
    {
        self.meta.as_slice()
    }

    /// The rules of the dialect.
    pub fn rules(&self) -> (r: &[Rule])
        ensures
            r@ == self.held(),
    {
        self.rules.as_slice()
    }

    /// Checks the operation against its rule, then asks the dialect. A
    /// failure of the first check is the result; otherwise the
    /// dialect's answer, with its kind of failure.
    pub fn validate_op<V: DeepValidator>(
        &self,
        op: &Operation,
        function: &Function,
        module: &Module,
        program: &Program,
        tables: &Tables,
    ) -> (r: SimpleResult<()>)
        ensures
            match op_checked(*op, tables@, self.held(), program.modules@) {
                Ok(_) => true,
                Err(kind) => r matches Err(e) && e.kind == kind,
            },
    {
        let rule = check_op(op, tables, &self.rules, program)?;
        op_verdict(V::validate_op(op, function, module, program, rule, self))
    }

    /// Checks the function among the names `tables`: the types of its
    /// head and of its locals, then each operation of its body. Where
    /// it gives `Ok`, the function is in order. Up to the first
    /// question to the dialect the result is as `function_early` says:
    /// a failure of the checks is the result, and a function whose body
    /// holds no operation passes.
    pub fn validate_function<V: DeepValidator>(
        &self,
        function: &Function,
        module: &Module,
        program: &Program,
        tables: &Tables,
    ) -> (r: SimpleResult<()>)
        ensures
            r is Ok ==> function_ok(*function, tables@, self.held(), program.modules@),
            match function_early(*function, tables@, self.held(), program.modules@) {
                Early::Fault(kind) => r matches Err(e) && e.kind == kind,
                Early::Clear => r is Ok,
                Early::Asked => true,
            },
    {
        validate_function_header(&function.header, tables.types)?;
        validate_variables(&function.locals, tables.types)?;
        let ghost whole = body_early(function.body@, tables@, self.held(), program.modules@);
        let mut i: usize = 0;
        assert(function.body@.skip(0) =~= function.body@);
        while i < function.body.len()
            invariant
                i <= function.body@.len(),
                header_known(function.header, tables@.types),
                variables_known(function.locals@, tables@.types),
                whole == body_early(function.body@, tables@, self.held(), program.modules@),
                !(whole is Asked) ==> whole == body_early(
                    function.body@.skip(i as int),
                    tables@,
                    self.held(),
                    program.modules@,
                ),
                forall|k: int|
                    0 <= k < i ==> step_ok(
                        #[trigger] function.body@[k],
                        tables@,
                        self.held(),
                        program.modules@,
                    ),
            decreases function.body@.len() - i,
        {
            proof {
                assert(function.body@.skip(i as int)[0] == function.body@[i as int]);
                assert(function.body@.skip(i as int).drop_first() =~= function.body@.skip(i + 1));
            }
            match &function.body[i] {
                BlockOp::Operation(o) => {
                    self.validate_op::<V>(o, function, module, program, tables)?;
                },
                BlockOp::Label(_) => {},
            }
            i = i + 1;
        }
        Ok(())
    }

    /// Checks the module: its names, its structs, the types that it
    /// names and its functions; then asks the dialect. Where it gives
    /// `Ok`, the module is in order. A failure of the checks that comes
    /// before the first question to the dialect is the result, as
    /// `module_early` says.
    pub fn validate_module<V: DeepValidator>(&self, module: &Module, program: &Program) -> (r:
        SimpleResult<()>)
        ensures
            r is Ok ==> module_ok(*module, *program, self.held()),
            module_early(*module, *program, self.held()) matches Early::Fault(kind) ==> (r matches Err(
                e,
            ) && e.kind == kind),
    {
        let types = resolve_module_types(module, program)?;
        let functions = resolve_module_functions(module, program)?;
        let mut i: usize = 0;
        while i < module.structs.len()
            invariant
                i <= module.structs@.len(),
                module_types(*module, *program) == Some(types@),
                module_functions(*module, *program) == Some(maybe_typed(functions@)),
                forall|k: int|
                    0 <= k < i ==> struct_sound(#[trigger] module.structs@[k], program.modules@),
            decreases module.structs@.len() - i,
        {
            match validate_struct(&module.structs[i], program) {
                Ok(_) => {},
                Err(e) => {
                    assert(!struct_sound(module.structs@[i as int], program.modules@));
                    return Err(e);
                },
            }
            i = i + 1;
        }
        validate_variables(&module.globals, &types)?;
        let mut i: usize = 0;
        while i < module.externs.len()
            invariant
                i <= module.externs@.len(),
                module_types(*module, *program) == Some(types@),
                module_functions(*module, *program) == Some(maybe_typed(functions@)),
                structs_sound(*module, program.modules@),
                variables_known(module.globals@, types@),
                forall|k: int|
                    0 <= k < i ==> header_known((#[trigger] module.externs@[k]).item, types@),
            decreases module.externs@.len() - i,
        {
            match validate_function_header(&module.externs[i].item, &types) {
                Ok(_) => {},
                Err(e) => {
                    assert(!header_known(module.externs@[i as int].item, types@));
                    return Err(e);
                },
            }
            i = i + 1;
        }
        let ghost whole = functions_early(
            module.functions@,
            *module,
            types@,
            maybe_typed(functions@),
            self.held(),
            program.modules@,
        );
        let mut i: usize = 0;
        assert(module.functions@.skip(0) =~= module.functions@);
        while i < module.functions.len()
            invariant
                i <= module.functions@.len(),
                module_types(*module, *program) == Some(types@),
                module_functions(*module, *program) == Some(maybe_typed(functions@)),
                structs_sound(*module, program.modules@),
                variables_known(module.globals@, types@),
                externs_known(*module, types@),
                whole == functions_early(
                    module.functions@,
                    *module,
                    types@,
                    maybe_typed(functions@),
                    self.held(),
                    program.modules@,
                ),
                whole is Fault ==> whole == functions_early(
                    module.functions@.skip(i as int),
                    *module,
                    types@,
                    maybe_typed(functions@),
                    self.held(),
                    program.modules@,
                ),
                forall|k: int|
                    0 <= k < i ==> function_valid(
                        #[trigger] module.functions@[k],
                        *module,
                        types@,
                        maybe_typed(functions@),
                        self.held(),
                        program.modules@,
                    ),
            decreases module.functions@.len() - i,
        {
            proof {
                assert(module.functions@.skip(i as int)[0] == module.functions@[i as int]);
                assert(module.functions@.skip(i as int).drop_first() =~= module.functions@.skip(
                    i + 1,
                ));
            }
            let f = &module.functions[i];
            let variables = resolve_function_variables(f, module)?;
            let tables = Tables { types: &types, functions: &functions, variables: &variables };
            self.validate_function::<V>(f, module, program, &tables)?;
            i = i + 1;
        }
        V::validate_module(module, program, self)
    }

    /// Checks every module of the program, then asks the dialect.
    /// Where it gives `Ok`, the program is in order. A failure of the
    /// checks that comes before the first question to the dialect is
    /// the result, as `program_early` says.
    pub fn validate_program<V: DeepValidator>(&self, program: &Program) -> (r: SimpleResult<()>)
        ensures
            r is Ok ==> program_ok(*program, self.held()),
            program_early(*program, self.held()) matches Early::Fault(kind) ==> (r matches Err(e)
                && e.kind == kind),
    {
        let mut i: usize = 0;
        while i < program.modules.len()
            invariant
                i <= program.modules@.len(),
                i > 0 ==> !(program_early(*program, self.held()) is Fault),
                forall|k: int|
                    0 <= k < i ==> module_names(#[trigger] program.modules@[k]).no_duplicates()
                        && module_ok(program.modules@[k], *program, self.held()),
            decreases program.modules@.len() - i,
        {
            ensure_no_duplicates_module(&program.modules[i])?;
            self.validate_module::<V>(&program.modules[i], program)?;
            i = i + 1;
        }
        V::validate_program(program, self)
    }

    /// Puts in the place of each module what the dialect makes of a
    /// copy of it. Where the dialect fails on a module, the program
    /// stays as it is. A program without modules asks the dialect
    /// nothing and always passes.
    pub fn transform_program<V: DeepValidator>(&self, program: &mut Program) -> (r: SimpleResult<()>)
        ensures
            old(program).modules@.len() == 0 ==> r is Ok,
            r is Err ==> *final(program) == *old(program),
            r is Ok ==> final(program).modules@.len() == old(program).modules@.len() && final(program).entry == old(program).entry && final(program).magic == old(program).magic,
    {
        let mut modules: Vec<Module> = Vec::new();
        let mut i: usize = 0;
        while i < program.modules.len()
            invariant
                i <= program.modules@.len(),
                modules@.len() == i,
                *program == *old(program),
            decreases program.modules@.len() - i,
        {
            let copy = program.modules[i].duplicate();
            let module = V::transform_module(copy, program, self)?;
            modules.push(module);
            i = i + 1;
        }
        program.modules = modules;
        Ok(())
    }

    fn filter_function<V: DeepValidator>(
        &self,
        function: &Function,
        module: &Module,
        program: &Program,
    ) -> (r: Function)
        ensures
            thinned_function(r, *function),
    {
        let mut body: Vec<BlockOp> = Vec::new();
        let mut i: usize = 0;
        assert(function.body@.take(0) =~= Seq::<BlockOp>::empty());
        while i < function.body.len()
            invariant
                i <= function.body@.len(),
                thinned_steps(body@, function.body@.take(i as int)),
            decreases function.body@.len() - i,
        {
            let stays = match &function.body[i] {
                BlockOp::Operation(o) => V::filter_op(o, function, module, program, self),
                BlockOp::Label(_) => true,
            };
            proof {
                assert(function.body@.take(i + 1).drop_last() =~= function.body@.take(i as int));
                assert(function.body@.take(i + 1).last() == function.body@[i as int]);
            }
            if stays {
                let ghost before = body@;
                body.push(function.body[i].duplicate());
                assert(body@.drop_last() =~= before);
            }
            i = i + 1;
        }
        assert(function.body@.take(i as int) =~= function.body@);
        Function {
            meta: metas_copy(&function.meta),
            export: function.export,
            header: function.header.duplicate(),
            locals: variables_copy(&function.locals),
            body,
        }
    }

    fn filter_module<V: DeepValidator>(&self, module: &Module, program: &Program) -> (r: Module)
        ensures
            thinned_module(r, *module),
    {
        let ghost same = |a: Struct, b: Struct| same_struct(a, b);
        let mut structs: Vec<Struct> = Vec::new();
        let mut i: usize = 0;
        assert(module.structs@.take(0) =~= Seq::<Struct>::empty());
        while i < module.structs.len()
            invariant
                i <= module.structs@.len(),
                same == |a: Struct, b: Struct| same_struct(a, b),
                thinned(structs@, module.structs@.take(i as int), same),
            decreases module.structs@.len() - i,
        {
            proof {
                assert(module.structs@.take(i + 1).drop_last() =~= module.structs@.take(i as int));
                assert(module.structs@.take(i + 1).last() == module.structs@[i as int]);
            }
            if V::filter_struct(&module.structs[i], module, program, self) {
                let ghost before = structs@;
                structs.push(module.structs[i].duplicate());
                assert(structs@.drop_last() =~= before);
                assert(same(structs@.last(), module.structs@[i as int]));
            }
            i = i + 1;
        }
        assert(module.structs@.take(i as int) =~= module.structs@);
        let ghost thin = |a: Function, b: Function| thinned_function(a, b);
        let mut functions: Vec<Function> = Vec::new();
        let mut i: usize = 0;
        assert(module.functions@.take(0) =~= Seq::<Function>::empty());
        while i < module.functions.len()
            invariant
                i <= module.functions@.len(),
                thin == |a: Function, b: Function| thinned_function(a, b),
                thinned(functions@, module.functions@.take(i as int), thin),
            decreases module.functions@.len() - i,
        {
            proof {
                assert(module.functions@.take(i + 1).drop_last() =~= module.functions@.take(
                    i as int,
                ));
                assert(module.functions@.take(i + 1).last() == module.functions@[i as int]);
            }
            if V::filter_function(&module.functions[i], module, program, self) {
                let ghost before = functions@;
                functions.push(self.filter_function::<V>(&module.functions[i], module, program));
                assert(functions@.drop_last() =~= before);
                assert(thin(functions@.last(), module.functions@[i as int]));
            }
            i = i + 1;
        }
        assert(module.functions@.take(i as int) =~= module.functions@);
        let whole = module.duplicate();
        let Module { magic, shebang, path, meta, imports, globals, externs, structs: _, functions: _ } =
            whole;
        Module { magic, shebang, path, meta, imports, globals, externs, structs, functions }
    }

    /// Leaves out of the program what the dialect does not want:
    /// modules, structs, functions and operations. The dialect decides
    /// on each with the program before it as it was.
    pub fn filter_program<V: DeepValidator>(&self, program: &mut Program)
        ensures
            final(program).magic == old(program).magic,
            final(program).entry == old(program).entry,
            thinned(
                final(program).modules@,
                old(program).modules@,
                |a: Module, b: Module| thinned_module(a, b),
            ),
    {
        let ghost thin = |a: Module, b: Module| thinned_module(a, b);
        let mut modules: Vec<Module> = Vec::new();
        let mut i: usize = 0;
        assert(program.modules@.take(0) =~= Seq::<Module>::empty());
        while i < program.modules.len()
            invariant
                i <= program.modules@.len(),
                *program == *old(program),
                thin == |a: Module, b: Module| thinned_module(a, b),
                thinned(modules@, program.modules@.take(i as int), thin),
            decreases program.modules@.len() - i,
        {
            proof {
                assert(program.modules@.take(i + 1).drop_last() =~= program.modules@.take(i as int));
                assert(program.modules@.take(i + 1).last() == program.modules@[i as int]);
            }
            if V::filter_module(&program.modules[i], program, self) {
                let ghost before = modules@;
                modules.push(self.filter_module::<V>(&program.modules[i], program));
                assert(modules@.drop_last() =~= before);
                assert(thin(modules@.last(), program.modules@[i as int]));
            }
            i = i + 1;
        }
        assert(program.modules@.take(i as int) =~= program.modules@);
        program.modules = modules;
    }
}

/// The program of the modules, as the dialect of the rules lets it
/// pass: what the dialect does not want is left out, the program begins
/// at `main` of the first module of the path `entry_path` where there
/// is one, each module is as the dialect makes it, and the whole is
/// checked. Where it gives a program, the program is in order.
pub fn compile_program<V: DeepValidator>(
    entry_path: &str,
    modules: Vec<Module>,
    ops_descriptor: &OpsDescriptor,
) -> (r: SimpleResult<Program>)
    ensures
        r matches Ok(p) ==> p.magic@ == seq![0x4bu8, 0x4au8, 0x50u8, 1u8] && exists|
            rules: Seq<Rule>,
        |
            rules_of(rules, ops_descriptor.rules@) && program_ok(p, rules),
{
    let validator = Validator::new(ops_descriptor);
    let mut program = Program::from_modules(None, modules)?;
    validator.filter_program::<V>(&mut program);
    match module_position(&program.modules, entry_path) {
        Some(m) => match function_position(&program.modules[m].functions, "main") {
            Some(f) => {
                program.entry = Some(Entry::new(m, f));
            },
            None => {},
        },
        None => {},
    }
    validator.transform_program::<V>(&mut program)?;
    validator.validate_program::<V>(&program)?;
    Ok(program)
}

} // verus!
