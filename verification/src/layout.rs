//! The sizes of the types of a program.

use crate::error::{ErrorKind, SimpleError, SimpleResult};
use crate::image::{host_word_size, word_size};
use crate::names::same_text;
use crate::program::{is_first_struct, no_struct, Module, Program, Struct, Type, TypeTree, Variable, lemma_tuple_tree, trees};
use vstd::prelude::*;

verus! {

fn fail<T>(kind: ErrorKind, message: &str) -> (r: SimpleResult<T>)
    ensures
        r matches Err(e) && e.kind == kind,
{
    Err(SimpleError::of(kind, message))
}

/// The size in bytes of the atom of the name `id`, if it names one.
pub open spec fn atom_size(id: Seq<char>) -> Option<nat> {
    if id == "i8"@ || id == "u8"@ {
        Some(1)
    } else if id == "i16"@ || id == "u16"@ {
        Some(2)
    } else if id == "i32"@ || id == "u32"@ || id == "f32"@ {
        Some(4)
    } else if id == "i64"@ || id == "u64"@ || id == "f64"@ {
        Some(8)
    } else if id == "isize"@ || id == "usize"@ {
        Some(word_size())
    } else {
        None
    }
}

/// The size in bytes of the atom of the name `id`, if it names one.
pub fn atom_size_of(id: &str) -> (r: Option<usize>)
    ensures
        match r {
            Some(n) => atom_size(id@) == Some(n as nat),
            None => atom_size(id@) is None,
        },
{
    if same_text(id, "i8") || same_text(id, "u8") {
        Some(1)
    } else if same_text(id, "i16") || same_text(id, "u16") {
        Some(2)
    } else if same_text(id, "i32") || same_text(id, "u32") || same_text(id, "f32") {
        Some(4)
    } else if same_text(id, "i64") || same_text(id, "u64") || same_text(id, "f64") {
        Some(8)
    } else if same_text(id, "isize") || same_text(id, "usize") {
        Some(host_word_size())
    } else {
        None
    }
}

/// The first struct of the name `id` in the modules.
pub open spec fn first_struct(modules: Seq<Module>, id: Seq<char>) -> Option<Struct> {
    if exists|m: int, k: int| is_first_struct(modules, id, m, k) {
        let (m, k) = choose|m: int, k: int| is_first_struct(modules, id, m, k);
        Some(modules[m].structs@[k])
    } else {
        None
    }
}

/// One struct at most is the first of a name.
pub proof fn lemma_first_struct_unique(modules: Seq<Module>, id: Seq<char>, m: int, k: int)
    requires
        is_first_struct(modules, id, m, k),
    ensures
        first_struct(modules, id) == Some(modules[m].structs@[k]),
{
    let (m2, k2) = choose|m2: int, k2: int| is_first_struct(modules, id, m2, k2);
    if m2 < m {
        assert(modules[m2].structs@[k2].id@ != id);
    } else if m < m2 {
        assert(modules[m].structs@[k].id@ != id);
    } else if k2 < k {
        assert(modules[m].structs@[k2].id@ != id);
    } else if k < k2 {
        assert(modules[m].structs@[k].id@ != id);
    }
}

pub proof fn lemma_no_first_struct(modules: Seq<Module>, id: Seq<char>)
    requires
        no_struct(modules, id),
    ensures
        first_struct(modules, id) is None,
{
    if exists|m: int, k: int| is_first_struct(modules, id, m, k) {
        let (m, k) = choose|m: int, k: int| is_first_struct(modules, id, m, k);
        assert(modules[m].structs@[k].id@ != id);
    }
}

/// The size in bytes of a value of type `t` in a program of the modules
/// `modules`: that of the atom for the name of an atom, the sum of the
/// sizes of the fields for the name of a struct, zero for a name that
/// the program does not know, a host word for a pointer, the sum of the
/// parts for a tuple. `depth` bounds how deep structs may lie in
/// structs; nothing where they lie deeper.
pub open spec fn size_in(modules: Seq<Module>, t: TypeTree, depth: nat) -> Option<nat>
    decreases depth, 0nat, t,
{
    match t {
        TypeTree::Identifier(id) => match atom_size(id) {
            Some(n) => Some(n),
            None => match first_struct(modules, id) {
                Some(s) => if depth == 0 {
                    None
                } else {
                    fields_size_in(modules, s.fields@, (depth - 1) as nat)
                },
                None => Some(0),
            },
        },
        TypeTree::Pointer(_) => Some(word_size()),
        TypeTree::Tuple(ts) => tuple_size_in(modules, ts, depth),
    }
}

/// The sum of the sizes of the types `ts`.
pub open spec fn tuple_size_in(modules: Seq<Module>, ts: Seq<TypeTree>, depth: nat) -> Option<nat>
    decreases depth, 0nat, ts,
{
    if ts.len() == 0 {
        Some(0)
    } else {
        match (tuple_size_in(modules, ts.drop_last(), depth), size_in(modules, ts.last(), depth)) {
            (Some(a), Some(b)) => Some(a + b),
            _ => None,
        }
    }
}

/// The sum of the sizes of the fields `fields`.
pub open spec fn fields_size_in(modules: Seq<Module>, fields: Seq<Variable>, depth: nat) -> Option<
    nat,
>
    decreases depth, 1nat, fields,
{
    if fields.len() == 0 {
        Some(0)
    } else {
        match (
            fields_size_in(modules, fields.drop_last(), depth),
            size_in(modules, fields.last().typeid@, depth),
        ) {
            (Some(a), Some(b)) => Some(a + b),
            _ => None,
        }
    }
}

/// The number of structs of the modules `modules`.
pub open spec fn struct_count(modules: Seq<Module>) -> nat
    decreases modules.len(),
{
    if modules.len() == 0 {
        0
    } else {
        struct_count(modules.drop_last()) + modules.last().structs@.len()
    }
}

/// How deep structs may lie in structs in a program: as deep as the
/// program has structs, and no deeper than the host can count.
pub open spec fn depth_of(modules: Seq<Module>) -> nat {
    if struct_count(modules) <= usize::MAX {
        struct_count(modules)
    } else {
        usize::MAX as nat
    }
}

/// The size in bytes of a value of type `t` in the program, where it has
/// one that the host can hold.
pub open spec fn type_size_in(modules: Seq<Module>, t: TypeTree) -> Option<usize> {
    match size_in(modules, t, depth_of(modules)) {
        Some(n) => if n <= usize::MAX {
            Some(n as usize)
        } else {
            None
        },
        None => None,
    }
}

pub proof fn lemma_tuple_size_in_prefix(modules: Seq<Module>, ts: Seq<TypeTree>, depth: nat, k: int)
    requires
        0 <= k <= ts.len(),
        tuple_size_in(modules, ts, depth) is Some,
    ensures
        tuple_size_in(modules, ts.take(k), depth) is Some,
        k < ts.len() ==> size_in(modules, ts[k], depth) is Some && tuple_size_in(
            modules,
            ts.take(k),
            depth,
        ).unwrap() + size_in(modules, ts[k], depth).unwrap() <= tuple_size_in(
            modules,
            ts,
            depth,
        ).unwrap(),
    decreases ts.len(),
{
    if k == ts.len() {
        assert(ts.take(k) =~= ts);
    } else {
        let shorter = ts.drop_last();
        assert(shorter.take(k) =~= ts.take(k));
        lemma_tuple_size_in_prefix(modules, shorter, depth, k);
        if k == ts.len() - 1 {
            assert(shorter.take(k) =~= shorter);
        }
    }
}

pub proof fn lemma_fields_size_in_prefix(
    modules: Seq<Module>,
    fields: Seq<Variable>,
    depth: nat,
    k: int,
)
    requires
        0 <= k <= fields.len(),
        fields_size_in(modules, fields, depth) is Some,
    ensures
        fields_size_in(modules, fields.take(k), depth) is Some,
        k < fields.len() ==> size_in(modules, fields[k].typeid@, depth) is Some && fields_size_in(
            modules,
            fields.take(k),
            depth,
        ).unwrap() + size_in(modules, fields[k].typeid@, depth).unwrap() <= fields_size_in(
            modules,
            fields,
            depth,
        ).unwrap(),
    decreases fields.len(),
{
    if k == fields.len() {
        assert(fields.take(k) =~= fields);
    } else {
        let shorter = fields.drop_last();
        assert(shorter.take(k) =~= fields.take(k));
        lemma_fields_size_in_prefix(modules, shorter, depth, k);
        if k == fields.len() - 1 {
            assert(shorter.take(k) =~= shorter);
        }
    }
}

/// The size of `typeid` with structs no deeper than `depth`; nothing
/// where it has none or the host cannot hold it.
fn size_within(typeid: &Type, program: &Program, depth: usize) -> (r: Option<usize>)
    ensures
        match r {
            Some(n) => size_in(program.modules@, typeid@, depth as nat) == Some(n as nat),
            None => size_in(program.modules@, typeid@, depth as nat) is None || size_in(
                program.modules@,
                typeid@,
                depth as nat,
            ).unwrap() > usize::MAX,
        },
    decreases depth, 0nat, typeid,
{
    match typeid {
        Type::Identifier(id) => match atom_size_of(id.as_str()) {
            Some(n) => Some(n),
            None => {
                let found = program.find_struct(id.as_str());
                proof {
                    if found is Some {
                        let (m, k) = choose|m: int, k: int|
                            is_first_struct(program.modules@, id@, m, k)
                                && program.modules@[m].structs@[k] == *found.unwrap();
                        lemma_first_struct_unique(program.modules@, id@, m, k);
                    } else {
                        lemma_no_first_struct(program.modules@, id@);
                    }
                }
                match found {
                    Some(s) => {
                        if depth == 0 {
                            return None;
                        }
                        let ghost modules = program.modules@;
                        let ghost fields = s.fields@;
                        let ghost inner = (depth - 1) as nat;
                        let mut total: usize = 0;
                        let mut i: usize = 0;
                        assert(fields.take(0) =~= Seq::<Variable>::empty());
                        while i < s.fields.len()
                            invariant
                                i <= s.fields@.len(),
                                depth > 0,
                                inner == depth - 1,
                                modules == program.modules@,
                                fields == s.fields@,
                                typeid@ == TypeTree::Identifier(id@),
                                atom_size(id@) is None,
                                first_struct(modules, id@) == Some(*s),
                                fields_size_in(modules, fields.take(i as int), inner) == Some(
                                    total as nat,
                                ),
                            decreases s.fields@.len() - i,
                        {
                            proof {
                                if fields_size_in(modules, fields, inner) is Some {
                                    lemma_fields_size_in_prefix(modules, fields, inner, i as int);
                                }
                                assert(fields.take(i + 1).drop_last() =~= fields.take(i as int));
                                assert(fields.take(i + 1).last() == fields[i as int]);
                            }
                            let part = match size_within(&s.fields[i].typeid, program, depth - 1) {
                                Some(n) => n,
                                None => { return None; },
                            };
                            total = match total.checked_add(part) {
                                Some(n) => n,
                                None => { return None; },
                            };
                            i = i + 1;
                        }
                        assert(fields.take(i as int) =~= fields);
                        Some(total)
                    },
                    None => Some(0),
                }
            },
        },
        Type::Pointer(_) => Some(host_word_size()),
        Type::Tuple(parts) => {
            let ghost modules = program.modules@;
            let ghost ts = trees(parts@);
            proof {
                lemma_tuple_tree(*parts);
                assert(ts.take(0) =~= Seq::<TypeTree>::empty());
            }
            let mut total: usize = 0;
            let mut i: usize = 0;
            while i < parts.len()
                invariant
                    i <= parts@.len(),
                    *typeid == Type::Tuple(*parts),
                    modules == program.modules@,
                    ts == trees(parts@),
                    typeid@ == TypeTree::Tuple(ts),
                    tuple_size_in(modules, ts.take(i as int), depth as nat) == Some(total as nat),
                decreases parts@.len() - i,
            {
                proof {
                    if tuple_size_in(modules, ts, depth as nat) is Some {
                        lemma_tuple_size_in_prefix(modules, ts, depth as nat, i as int);
                    }
                    assert(ts.take(i + 1).drop_last() =~= ts.take(i as int));
                    assert(ts.take(i + 1).last() == ts[i as int]);
                    assert(ts[i as int] == parts@[i as int]@);
                    assert(typeid->Tuple_0 == *parts);
                }
                let part = match size_within(&parts[i], program, depth) {
                    Some(n) => n,
                    None => { return None; },
                };
                total = match total.checked_add(part) {
                    Some(n) => n,
                    None => { return None; },
                };
                i = i + 1;
            }
            assert(ts.take(i as int) =~= ts);
            Some(total)
        },
    }
}

/// How deep structs may lie in structs in the program.
pub(crate) fn depth_limit(program: &Program) -> (r: usize)
    ensures
        r == depth_of(program.modules@),
{
    let mut total: usize = 0;
    let mut i: usize = 0;
    assert(program.modules@.take(0) =~= Seq::<Module>::empty());
    while i < program.modules.len()
        invariant
            i <= program.modules@.len(),
            total == struct_count(program.modules@.take(i as int)),
        decreases program.modules@.len() - i,
    {
        proof {
            assert(program.modules@.take(i + 1).drop_last() =~= program.modules@.take(i as int));
            assert(program.modules@.take(i + 1).last() == program.modules@[i as int]);
            lemma_struct_count_prefix(program.modules@, i + 1);
        }
        total = match total.checked_add(program.modules[i].structs.len()) {
            Some(n) => n,
            None => { return usize::MAX; },
        };
        i = i + 1;
    }
    assert(program.modules@.take(i as int) =~= program.modules@);
    total
}

pub proof fn lemma_struct_count_prefix(modules: Seq<Module>, k: int)
    requires
        0 <= k <= modules.len(),
    ensures
        struct_count(modules.take(k)) <= struct_count(modules),
    decreases modules.len(),
{
    if k == modules.len() {
        assert(modules.take(k) =~= modules);
    } else {
        assert(modules.drop_last().take(k) =~= modules.take(k));
        lemma_struct_count_prefix(modules.drop_last(), k);
    }
}

/// The size in bytes of a value of type `typeid` in the program. Fails
/// with `TypeError` where the type has no size: a struct holds itself,
/// or the size exceeds what the host can hold.
pub fn calculate_type_size(typeid: &Type, program: &Program) -> (r: SimpleResult<usize>)
    ensures
        match r {
            Ok(n) => type_size_in(program.modules@, typeid@) == Some(n),
            Err(e) => type_size_in(program.modules@, typeid@) is None && e.kind
                == ErrorKind::TypeError,
        },
{
    match size_within(typeid, program, depth_limit(program)) {
        Some(n) => Ok(n),
        None => fail(ErrorKind::TypeError, "a type of the program has no size"),
    }
}

} // verus!
