//! The checks that a program passes before it is encoded: every name
//! that it uses is known, no struct holds itself, and every operation
//! takes and gives values of the types that its rule asks for.

use crate::assembly::fail;
use crate::error::{ErrorKind, SimpleResult};
use crate::layout::{
    depth_limit, depth_of, first_struct, lemma_first_struct_unique, lemma_no_first_struct,
};
use crate::link::{
    lemma_name_position_extends, lemma_name_position_in_range, name_position, struct_names,
    struct_position,
};
use crate::names::{lookup, same_text, NameTable};
use crate::program::{
    is_first_struct, lemma_trees_push, lemma_tuple_tree, trees, type_matches, Access,
    FunctionHeader, Meta, Module, Number, OpParam, OpRule, Operation, OpsDescriptor, Program,
    Struct, Type, TypeTree, Value, Variable,
};
use crate::resolve::{lemma_maybe_typed_lookup, lemma_typed_lookup, maybe_typed, typed};
use crate::types::found_type;
use vstd::prelude::*;

verus! {

/// What a check owes.
pub open spec fn checked(r: SimpleResult<()>, expected: Result<(), ErrorKind>) -> bool {
    match expected {
        Ok(_) => r is Ok,
        Err(kind) => r matches Err(e) && e.kind == kind,
    }
}

// ---------------------------------------------------------------------------
// Rules
// ---------------------------------------------------------------------------

/// What an operation takes and gives.
#[derive(Debug)]
pub struct Rule {
    pub id: String,
    pub params: Vec<OpParam>,
    pub targets: Vec<Type>,
}

/// True when the rule says what the rule of a descriptor says.
pub open spec fn rule_of(r: Rule, rule: OpRule) -> bool {
    &&& r.id@ == rule.id@
    &&& r.params@.len() == rule.params@.len()
    &&& forall|i: int|
        0 <= i < rule.params@.len() ==> (#[trigger] r.params@[i]).id@ == rule.params@[i].id@
            && r.params@[i].typeid@ == rule.params@[i].typeid@
    &&& trees(r.targets@) == trees(rule.targets@)
}

impl Rule {
    /// What the rule of a descriptor says.
    pub fn from_op_rule(rule: &OpRule) -> (r: Self)
        ensures
            rule_of(r, *rule),
    {
        let mut params: Vec<OpParam> = Vec::new();
        let mut i: usize = 0;
        while i < rule.params.len()
            invariant
                i <= rule.params@.len(),
                params@.len() == i,
                forall|k: int|
                    0 <= k < i ==> (#[trigger] params@[k]).id@ == rule.params@[k].id@
                        && params@[k].typeid@ == rule.params@[k].typeid@,
            decreases rule.params@.len() - i,
        {
            params.push(
                OpParam { id: rule.params[i].id.clone(), typeid: rule.params[i].typeid.duplicate() },
            );
            i = i + 1;
        }
        let mut targets: Vec<Type> = Vec::new();
        let mut j: usize = 0;
        while j < rule.targets.len()
            invariant
                j <= rule.targets@.len(),
                targets@.len() == j,
                forall|k: int| 0 <= k < j ==> (#[trigger] targets@[k])@ == rule.targets@[k]@,
            decreases rule.targets@.len() - j,
        {
            targets.push(rule.targets[j].duplicate());
            j = j + 1;
        }
        assert(trees(targets@) =~= trees(rule.targets@));
        Rule { id: rule.id.clone(), params, targets }
    }
}

/// The names of the rules.
pub open spec fn rule_names(s: Seq<Rule>) -> Seq<Seq<char>> {
    Seq::new(s.len(), |i: int| s[i].id@)
}

/// The names of the variables.
pub open spec fn variable_names(s: Seq<Variable>) -> Seq<Seq<char>> {
    Seq::new(s.len(), |i: int| s[i].id@)
}

fn rule_position(s: &Vec<Rule>, name: &str) -> (r: Option<usize>)
    ensures
        match r {
            Some(k) => name_position(rule_names(s@), name@) == Some(k as int) && k < s@.len(),
            None => name_position(rule_names(s@), name@) is None,
        },
{
    let ghost names = rule_names(s@);
    let mut i: usize = 0;
    assert(names.take(0) =~= Seq::<Seq<char>>::empty());
    while i < s.len()
        invariant
            i <= s@.len(),
            names == rule_names(s@),
            name_position(names.take(i as int), name@) is None,
        decreases s@.len() - i,
    {
        proof {
            assert(names.take(i + 1).drop_last() =~= names.take(i as int));
            assert(names.take(i + 1).last() == s@[i as int].id@);
        }
        if same_text(s[i].id.as_str(), name) {
            proof {
                lemma_name_position_extends(names, name@, i + 1);
            }
            return Some(i);
        }
        i = i + 1;
    }
    assert(names.take(i as int) =~= names);
    None
}

fn variable_position(s: &Vec<Variable>, name: &str) -> (r: Option<usize>)
    ensures
        match r {
            Some(k) => name_position(variable_names(s@), name@) == Some(k as int) && k < s@.len(),
            None => name_position(variable_names(s@), name@) is None,
        },
{
    let ghost names = variable_names(s@);
    let mut i: usize = 0;
    assert(names.take(0) =~= Seq::<Seq<char>>::empty());
    while i < s.len()
        invariant
            i <= s@.len(),
            names == variable_names(s@),
            name_position(names.take(i as int), name@) is None,
        decreases s@.len() - i,
    {
        proof {
            assert(names.take(i + 1).drop_last() =~= names.take(i as int));
            assert(names.take(i + 1).last() == s@[i as int].id@);
        }
        if same_text(s[i].id.as_str(), name) {
            proof {
                lemma_name_position_extends(names, name@, i + 1);
            }
            return Some(i);
        }
        i = i + 1;
    }
    assert(names.take(i as int) =~= names);
    None
}

// ---------------------------------------------------------------------------
// Types
// ---------------------------------------------------------------------------

/// True when every name in the type is a type of the table. The empty
/// name stands for no type and is always known.
pub open spec fn type_known(t: TypeTree, types: Seq<(Seq<char>, Option<usize>)>) -> bool
    decreases t,
{
    match t {
        TypeTree::Identifier(n) => n.len() == 0 || lookup(types, n) is Some,
        TypeTree::Pointer(p) => type_known(*p, types),
        TypeTree::Tuple(ts) => forall|k: int| 0 <= k < ts.len() ==> type_known(#[trigger] ts[k], types),
    }
}

/// What the check of a type gives: `Resolution` where it names a type
/// that is not known.
pub open spec fn known(t: TypeTree, types: Seq<(Seq<char>, Option<usize>)>) -> Result<
    (),
    ErrorKind,
> {
    if type_known(t, types) {
        Ok(())
    } else {
        Err(ErrorKind::Resolution)
    }
}

/// Checks that every name in the type is a type of the table:
/// `Resolution` where one is not.
pub fn validate_type(typeid: &Type, types: &NameTable<Option<usize>>) -> (r: SimpleResult<()>)
    ensures
        checked(r, known(typeid@, types@)),
    decreases typeid,
{
    match typeid {
        Type::Identifier(t) => {
            proof {
                reveal_strlit("");
                assert((t@ == ""@) == (t@.len() == 0)) by {
                    if t@.len() == 0 {
                        assert(t@ =~= ""@);
                    }
                }
            }
            if !same_text(t.as_str(), "") && !types.contains(t.as_str()) {
                fail(ErrorKind::Resolution, "Found unknown type")
            } else {
                Ok(())
            }
        },
        Type::Pointer(t) => validate_type(t, types),
        Type::Tuple(parts) => {
            proof {
                lemma_tuple_tree(*parts);
            }
            let mut i: usize = 0;
            while i < parts.len()
                invariant
                    i <= parts@.len(),
                    *typeid == Type::Tuple(*parts),
                    typeid@ == TypeTree::Tuple(trees(parts@)),
                    forall|k: int| 0 <= k < i ==> type_known(#[trigger] trees(parts@)[k], types@),
                decreases parts@.len() - i,
            {
                proof {
                    assert(typeid->Tuple_0 == *parts);
                    assert(decreases_to!(*typeid => parts@[i as int]));
                    assert(trees(parts@)[i as int] == parts@[i as int]@);
                }
                match validate_type(&parts[i], types) {
                    Ok(_) => {},
                    Err(e) => {
                        assert(!type_known(trees(parts@)[i as int], types@));
                        assert(typeid@->Tuple_0 == trees(parts@));
                        assert(!type_known(typeid@, types@));
                        return Err(e);
                    },
                }
                i = i + 1;
            }
            Ok(())
        },
    }
}

/// True when the types of the parameters and of the result of the head
/// are known.
pub open spec fn header_known(h: FunctionHeader, types: Seq<(Seq<char>, Option<usize>)>) -> bool {
    &&& forall|k: int| 0 <= k < h.params@.len() ==> type_known((#[trigger] h.params@[k]).typeid@, types)
    &&& h.typeid matches Some(t) ==> type_known(t@, types)
}

/// True when the types of the variables are known.
pub open spec fn variables_known(vs: Seq<Variable>, types: Seq<(Seq<char>, Option<usize>)>) -> bool {
    forall|k: int| 0 <= k < vs.len() ==> type_known((#[trigger] vs[k]).typeid@, types)
}

/// Checks the types of the variables: `Resolution` where one is not
/// known.
pub fn validate_variables(vs: &Vec<Variable>, types: &NameTable<Option<usize>>) -> (r:
    SimpleResult<()>)
    ensures
        if variables_known(vs@, types@) {
            r is Ok
        } else {
            r matches Err(e) && e.kind == ErrorKind::Resolution
        },
{
    let mut i: usize = 0;
    while i < vs.len()
        invariant
            i <= vs@.len(),
            forall|k: int| 0 <= k < i ==> type_known((#[trigger] vs@[k]).typeid@, types@),
        decreases vs@.len() - i,
    {
        match validate_type(&vs[i].typeid, types) {
            Ok(_) => {},
            Err(e) => {
                return Err(e);
            },
        }
        i = i + 1;
    }
    Ok(())
}

/// Checks the types of the parameters and of the result of the head:
/// `Resolution` where one is not known.
pub fn validate_function_header(header: &FunctionHeader, types: &NameTable<Option<usize>>) -> (r:
    SimpleResult<()>)
    ensures
        if header_known(*header, types@) {
            r is Ok
        } else {
            r matches Err(e) && e.kind == ErrorKind::Resolution
        },
{
    validate_variables(&header.params, types)?;
    match &header.typeid {
        Some(t) => validate_type(t, types),
        None => Ok(()),
    }
}

// ---------------------------------------------------------------------------
// Structs
// ---------------------------------------------------------------------------

/// True when the structs that the type names lie no deeper in each
/// other than `depth`: a struct that holds itself, directly or through
/// others, lies deeper than any depth. What a pointer points to does
/// not count.
pub open spec fn lies_within(modules: Seq<Module>, t: TypeTree, depth: nat) -> bool
    decreases depth, 0nat, t,
{
    match t {
        TypeTree::Identifier(id) => match first_struct(modules, id) {
            Some(s) => depth > 0 && fields_lie_within(modules, s.fields@, (depth - 1) as nat),
            None => true,
        },
        TypeTree::Pointer(_) => true,
        TypeTree::Tuple(ts) => forall|k: int|
            0 <= k < ts.len() ==> lies_within(modules, #[trigger] ts[k], depth),
    }
}

/// True when the structs that the types of the fields name lie no
/// deeper in each other than `depth`.
pub open spec fn fields_lie_within(modules: Seq<Module>, fields: Seq<Variable>, depth: nat) -> bool
    decreases depth, 1nat, fields,
{
    forall|k: int|
        0 <= k < fields.len() ==> lies_within(modules, (#[trigger] fields[k]).typeid@, depth)
}

/// True when the struct does not hold itself.
pub open spec fn struct_sound(s: Struct, modules: Seq<Module>) -> bool {
    fields_lie_within(modules, s.fields@, depth_of(modules))
}

fn fields_within(fields: &Vec<Variable>, program: &Program, depth: usize) -> (r: bool)
    ensures
        r == fields_lie_within(program.modules@, fields@, depth as nat),
    decreases depth, 1nat, fields@,
{
    let mut i: usize = 0;
    while i < fields.len()
        invariant
            i <= fields@.len(),
            forall|k: int|
                0 <= k < i ==> lies_within(
                    program.modules@,
                    (#[trigger] fields@[k]).typeid@,
                    depth as nat,
                ),
        decreases fields@.len() - i,
    {
        if !type_within(&fields[i].typeid, program, depth) {
            return false;
        }
        i = i + 1;
    }
    true
}

fn type_within(typeid: &Type, program: &Program, depth: usize) -> (r: bool)
    ensures
        r == lies_within(program.modules@, typeid@, depth as nat),
    decreases depth, 0nat, typeid,
{
    match typeid {
        Type::Identifier(id) => {
            let found = program.find_struct(id.as_str());
            proof {
                if found is Some {
                    let (m, k) = choose|m: int, k: int|
                        is_first_struct(program.modules@, id@, m, k)
                            && program.modules@[m].structs@[k] == *found.unwrap();
                    lemma_first_struct_unique(program.modules@, id@, m, k);
                } else {
                    lemma_no_first_struct(program.modules@, id@);
                }
            }
            match found {
                Some(s) => depth > 0 && fields_within(&s.fields, program, depth - 1),
                None => true,
            }
        },
        Type::Pointer(_) => true,
        Type::Tuple(parts) => {
            proof {
                lemma_tuple_tree(*parts);
            }
            let mut i: usize = 0;
            while i < parts.len()
                invariant
                    i <= parts@.len(),
                    *typeid == Type::Tuple(*parts),
                    typeid@ == TypeTree::Tuple(trees(parts@)),
                    forall|k: int|
                        0 <= k < i ==> lies_within(
                            program.modules@,
                            #[trigger] trees(parts@)[k],
                            depth as nat,
                        ),
                decreases parts@.len() - i,
            {
                proof {
                    assert(typeid->Tuple_0 == *parts);
                    assert(decreases_to!(*typeid => parts@[i as int]));
                    assert(trees(parts@)[i as int] == parts@[i as int]@);
                }
                if !type_within(&parts[i], program, depth) {
                    assert(!lies_within(program.modules@, trees(parts@)[i as int], depth as nat));
                    assert(typeid@->Tuple_0 == trees(parts@));
                    assert(!lies_within(program.modules@, typeid@, depth as nat));
                    return false;
                }
                i = i + 1;
            }
            true
        },
    }
}

/// Checks that the struct does not hold itself, directly or through
/// other structs of the program: `TypeError` where it does.
pub fn validate_struct(struct_: &Struct, program: &Program) -> (r: SimpleResult<()>)
    ensures
        if struct_sound(*struct_, program.modules@) {
            r is Ok
        } else {
            r matches Err(e) && e.kind == ErrorKind::TypeError
        },
{
    if fields_within(&struct_.fields, program, depth_limit(program)) {
        Ok(())
    } else {
        fail(ErrorKind::TypeError, "A struct holds itself; consider a pointer to it instead")
    }
}

// ---------------------------------------------------------------------------
// Values
// ---------------------------------------------------------------------------

/// The names that the body of a function can use.
pub struct Names {
    /// The types, each with the place of its module in the program.
    pub types: Seq<(Seq<char>, Option<usize>)>,
    /// The functions, each with the type of its result.
    pub functions: Seq<(Seq<char>, Option<TypeTree>)>,
    /// The variables, each with its type.
    pub variables: Seq<(Seq<char>, TypeTree)>,
}

/// The names that the body of a function can use.
pub struct Tables<'s> {
    pub types: &'s NameTable<Option<usize>>,
    pub functions: &'s NameTable<Option<Type>>,
    pub variables: &'s NameTable<Type>,
}

impl<'s> View for Tables<'s> {
    type V = Names;

    open spec fn view(&self) -> Names {
        Names {
            types: self.types@,
            functions: maybe_typed(self.functions@),
            variables: typed(self.variables@),
        }
    }
}

/// The type of the field `field` of the struct `id` of the module at
/// `home`.
pub open spec fn field_type(modules: Seq<Module>, home: usize, id: Seq<char>, field: Seq<char>) -> Option<
    TypeTree,
> {
    if home < modules.len() {
        match name_position(struct_names(modules[home as int].structs@), id) {
            Some(k) => match name_position(
                variable_names(modules[home as int].structs@[k].fields@),
                field,
            ) {
                Some(f) => Some(modules[home as int].structs@[k].fields@[f].typeid@),
                None => None,
            },
            None => None,
        }
    } else {
        None
    }
}

/// The type of the part that the access reaches in a value of type
/// `t`. Fails with `TypeError` where a part of what is no tuple is
/// asked for, a tuple has no such part, or a field of what is no
/// struct or has no such field; and with `Resolution` where the name
/// of the type is not known.
pub open spec fn access_value_type(
    t: TypeTree,
    a: Access,
    types: Seq<(Seq<char>, Option<usize>)>,
    modules: Seq<Module>,
) -> Result<TypeTree, ErrorKind>
    decreases a,
{
    match a {
        Access::Tuple(i, next) => match t {
            TypeTree::Tuple(parts) => if 0 <= i < parts.len() {
                match next {
                    Some(n) => access_value_type(parts[i as int], *n, types, modules),
                    None => Ok(parts[i as int]),
                }
            } else {
                Err(ErrorKind::TypeError)
            },
            _ => Err(ErrorKind::TypeError),
        },
        Access::Variable(name, next) => match t {
            TypeTree::Identifier(id) => match lookup(types, id) {
                None => Err(ErrorKind::Resolution),
                Some(None) => Err(ErrorKind::TypeError),
                Some(Some(home)) => match field_type(modules, home, id, name@) {
                    Some(ft) => match next {
                        Some(n) => access_value_type(ft, *n, types, modules),
                        None => Ok(ft),
                    },
                    None => Err(ErrorKind::TypeError),
                },
            },
            _ => Err(ErrorKind::TypeError),
        },
    }
}

/// The type of the part that an optional access reaches.
pub open spec fn accessed_value_type(
    t: TypeTree,
    a: Option<Box<Access>>,
    types: Seq<(Seq<char>, Option<usize>)>,
    modules: Seq<Module>,
) -> Result<TypeTree, ErrorKind> {
    match a {
        Some(acc) => access_value_type(t, *acc, types, modules),
        None => Ok(t),
    }
}

/// The type of the part that the access reaches in a value of type
/// `typeid`.
pub fn find_access_value_type(
    typeid: &Type,
    access: &Access,
    types: &NameTable<Option<usize>>,
    program: &Program,
) -> (r: SimpleResult<Type>)
    ensures
        found_type(r, access_value_type(typeid@, *access, types@, program.modules@)),
    decreases access,
{
    match access {
        Access::Tuple(i, next) => match typeid {
            Type::Tuple(parts) => {
                proof {
                    lemma_tuple_tree(*parts);
                }
                if *i >= 0 && (*i as u64) < parts.len() as u64 {
                    let k = *i as usize;
                    assert(trees(parts@)[k as int] == parts@[k as int]@);
                    match next {
                        Some(n) => find_access_value_type(&parts[k], n, types, program),
                        None => Ok(parts[k].duplicate()),
                    }
                } else {
                    fail(ErrorKind::TypeError, "Tuple does not have such a field")
                }
            },
            _ => fail(ErrorKind::TypeError, "Only tuples can be accessed by index"),
        },
        Access::Variable(name, next) => match typeid {
            Type::Identifier(id) => {
                let home = match types.get(id.as_str()) {
                    None => {
                        return fail(ErrorKind::Resolution, "Found unknown type");
                    },
                    Some(at) => match at {
                        None => {
                            return fail(ErrorKind::TypeError, "Atomic struct does not have any fields");
                        },
                        Some(home) => *home,
                    },
                };
                if home >= program.modules.len() {
                    return fail(ErrorKind::TypeError, "Atomic struct does not have any fields");
                }
                let m = &program.modules[home];
                let k = match struct_position(&m.structs, id.as_str()) {
                    Some(k) => k,
                    None => {
                        return fail(ErrorKind::TypeError, "Atomic struct does not have any fields");
                    },
                };
                let f = match variable_position(&m.structs[k].fields, name.as_str()) {
                    Some(f) => f,
                    None => {
                        return fail(ErrorKind::TypeError, "Could not find field in type");
                    },
                };
                match next {
                    Some(n) => find_access_value_type(
                        &m.structs[k].fields[f].typeid,
                        n,
                        types,
                        program,
                    ),
                    None => Ok(m.structs[k].fields[f].typeid.duplicate()),
                }
            },
            _ => fail(ErrorKind::TypeError, "Only structs can be accessed by variable"),
        },
    }
}

fn accessed(
    typeid: &Type,
    access: &Option<Box<Access>>,
    types: &NameTable<Option<usize>>,
    program: &Program,
) -> (r: SimpleResult<Type>)
    ensures
        found_type(r, accessed_value_type(typeid@, *access, types@, program.modules@)),
{
    match access {
        Some(a) => find_access_value_type(typeid, a, types, program),
        None => Ok(typeid.duplicate()),
    }
}

/// The type that an operation gives where it stands as a value: that
/// of its one target. `Resolution` where no rule has the name,
/// `TypeError` where the rule has not one target.
pub open spec fn inline_type(rules: Seq<Rule>, id: Seq<char>) -> Result<TypeTree, ErrorKind> {
    match name_position(rule_names(rules), id) {
        None => Err(ErrorKind::Resolution),
        Some(k) => if rules[k].targets@.len() == 1 {
            Ok(rules[k].targets@[0]@)
        } else {
            Err(ErrorKind::TypeError)
        },
    }
}

/// The type of the value `v`. Fails with `TypeError` where what is
/// dereferenced is no pointer, where the result of a function without
/// one is accessed, where an operation that stands as a value has not
/// one target, or as an access fails; and with `Resolution` where a
/// function, an operation or a variable of the name is not known. A
/// call of a function without a result has the type of the empty name.
pub open spec fn value_type(v: Value, names: Names, rules: Seq<Rule>, modules: Seq<Module>) -> Result<
    TypeTree,
    ErrorKind,
>
    decreases v,
{
    match v {
        Value::Ref(inner, a) => match value_type(*inner, names, rules, modules) {
            Err(e) => Err(e),
            Ok(t) => accessed_value_type(TypeTree::Pointer(Box::new(t)), a, names.types, modules),
        },
        Value::Deref(inner, a) => match value_type(*inner, names, rules, modules) {
            Err(e) => Err(e),
            Ok(TypeTree::Pointer(t)) => accessed_value_type(*t, a, names.types, modules),
            Ok(_) => Err(ErrorKind::TypeError),
        },
        Value::FunctionCall(id, _, a) => match lookup(names.functions, id@) {
            None => Err(ErrorKind::Resolution),
            Some(Some(t)) => accessed_value_type(t, a, names.types, modules),
            Some(None) => if a is None {
                Ok(TypeTree::Identifier(Seq::empty()))
            } else {
                Err(ErrorKind::TypeError)
            },
        },
        Value::Tuple(parts, a) => match values_types(parts@, names, rules, modules) {
            Err(e) => Err(e),
            Ok(ts) => accessed_value_type(TypeTree::Tuple(ts), a, names.types, modules),
        },
        Value::String(_, t) => Ok(t@),
        Value::Number(Number::Integer(_, t)) => Ok(t@),
        Value::Number(Number::Float(_, t)) => Ok(t@),
        Value::OperationInline(id, _, a) => match inline_type(rules, id@) {
            Err(e) => Err(e),
            Ok(t) => accessed_value_type(t, a, names.types, modules),
        },
        Value::Variable(id, a) => match lookup(names.variables, id@) {
            None => Err(ErrorKind::Resolution),
            Some(t) => accessed_value_type(t, a, names.types, modules),
        },
    }
}

/// The types of the values `vs`.
pub open spec fn values_types(vs: Seq<Value>, names: Names, rules: Seq<Rule>, modules: Seq<Module>) -> Result<
    Seq<TypeTree>,
    ErrorKind,
>
    decreases vs,
{
    if vs.len() == 0 {
        Ok(Seq::empty())
    } else {
        match values_types(vs.drop_last(), names, rules, modules) {
            Err(e) => Err(e),
            Ok(ts) => match value_type(vs.last(), names, rules, modules) {
                Err(e) => Err(e),
                Ok(t) => Ok(ts.push(t)),
            },
        }
    }
}

/// Where the first values have no types, the values have none, and fail
/// in the same way.
pub proof fn lemma_values_types_fail(
    vs: Seq<Value>,
    names: Names,
    rules: Seq<Rule>,
    modules: Seq<Module>,
    k: int,
)
    requires
        0 <= k <= vs.len(),
        values_types(vs.take(k), names, rules, modules) is Err,
    ensures
        values_types(vs, names, rules, modules) == values_types(vs.take(k), names, rules, modules),
    decreases vs.len(),
{
    if k == vs.len() {
        assert(vs.take(k) =~= vs);
    } else {
        assert(vs.drop_last().take(k) =~= vs.take(k));
        lemma_values_types_fail(vs.drop_last(), names, rules, modules, k);
    }
}

/// What the check of one value against the type that a rule asks for
/// gives: the failure of its type, `Resolution` where its type names a
/// type that is not known, `TypeError` where it is not the type asked
/// for.
pub open spec fn value_fits(
    v: Value,
    expected: TypeTree,
    names: Names,
    rules: Seq<Rule>,
    modules: Seq<Module>,
) -> Result<(), ErrorKind> {
    match value_type(v, names, rules, modules) {
        Err(e) => Err(e),
        Ok(t) => if !type_known(t, names.types) {
            Err(ErrorKind::Resolution)
        } else if type_matches(t, expected) {
            Ok(())
        } else {
            Err(ErrorKind::TypeError)
        },
    }
}

/// What the check of the values against the types gives: the first
/// failure.
pub open spec fn values_fit(
    vs: Seq<Value>,
    expected: Seq<TypeTree>,
    names: Names,
    rules: Seq<Rule>,
    modules: Seq<Module>,
) -> Result<(), ErrorKind>
    decreases vs.len(),
{
    if vs.len() == 0 || expected.len() == 0 {
        Ok(())
    } else {
        match value_fits(vs[0], expected[0], names, rules, modules) {
            Err(e) => Err(e),
            Ok(_) => values_fit(vs.drop_first(), expected.drop_first(), names, rules, modules),
        }
    }
}

/// The types of the parameters of a rule.
pub open spec fn param_types(ps: Seq<OpParam>) -> Seq<TypeTree> {
    Seq::new(ps.len(), |i: int| ps[i].typeid@)
}

/// The place of the rule that the operation meets. Fails with
/// `Resolution` where no rule has its name, with `TypeError` where it
/// has not as many parameters or targets as the rule, and as the first
/// of its values fails that does not fit: the parameters first.
pub open spec fn op_checked(op: Operation, names: Names, rules: Seq<Rule>, modules: Seq<Module>) -> Result<
    int,
    ErrorKind,
> {
    match name_position(rule_names(rules), op.id@) {
        None => Err(ErrorKind::Resolution),
        Some(k) => if rules[k].params@.len() != op.params@.len() || rules[k].targets@.len()
            != op.targets@.len() {
            Err(ErrorKind::TypeError)
        } else {
            match values_fit(op.params@, param_types(rules[k].params@), names, rules, modules) {
                Err(e) => Err(e),
                Ok(_) => match values_fit(
                    op.targets@,
                    trees(rules[k].targets@),
                    names,
                    rules,
                    modules,
                ) {
                    Err(e) => Err(e),
                    Ok(_) => Ok(k),
                },
            }
        },
    }
}

/// The type of the value `value`.
pub fn find_value_type(value: &Value, tables: &Tables, rules: &Vec<Rule>, program: &Program) -> (r:
    SimpleResult<Type>)
    ensures
        found_type(r, value_type(*value, tables@, rules@, program.modules@)),
    decreases value, 1nat,
{
    match value {
        Value::Ref(v, a) => {
            let t = Type::Pointer(Box::new(find_value_type(v, tables, rules, program)?));
            accessed(&t, a, tables.types, program)
        },
        Value::Deref(v, a) => {
            let t = find_value_type(v, tables, rules, program)?;
            match t {
                Type::Pointer(inner) => accessed(&inner, a, tables.types, program),
                _ => fail(ErrorKind::TypeError, "Trying to dereference non-pointer type"),
            }
        },
        Value::FunctionCall(id, _, a) => {
            proof {
                lemma_maybe_typed_lookup(tables.functions@, id@);
            }
            match tables.functions.get(id.as_str()) {
                None => fail(ErrorKind::Resolution, "Trying to call unknown function"),
                Some(result) => match result {
                    Some(t) => accessed(t, a, tables.types, program),
                    None => if a.is_none() {
                        Ok(Type::Identifier(String::new()))
                    } else {
                        fail(ErrorKind::TypeError, "Trying to access empty type")
                    },
                },
            }
        },
        Value::Tuple(v, a) => {
            assert(value->Tuple_0 == *v);
            let ts = find_values_types(v, tables, rules, program)?;
            proof {
                lemma_tuple_tree(ts);
            }
            let t = Type::Tuple(ts);
            accessed(&t, a, tables.types, program)
        },
        Value::String(_, t) => Ok(t.duplicate()),
        Value::Number(n) => match n {
            Number::Integer(_, t) => Ok(t.duplicate()),
            Number::Float(_, t) => Ok(t.duplicate()),
        },
        Value::OperationInline(id, _, a) => match rule_position(rules, id.as_str()) {
            None => fail(ErrorKind::Resolution, "Trying to inline unknown operation"),
            Some(k) => if rules[k].targets.len() == 1 {
                accessed(&rules[k].targets[0], a, tables.types, program)
            } else {
                fail(ErrorKind::TypeError, "Trying to inline operation of not one target")
            },
        },
        Value::Variable(id, a) => {
            proof {
                lemma_typed_lookup(tables.variables@, id@);
            }
            match tables.variables.get(id.as_str()) {
                None => fail(ErrorKind::Resolution, "Could not find variable in scope"),
                Some(t) => accessed(t, a, tables.types, program),
            }
        },
    }
}

/// The types of the values `vs`.
pub fn find_values_types(vs: &Vec<Value>, tables: &Tables, rules: &Vec<Rule>, program: &Program) -> (r:
    SimpleResult<Vec<Type>>)
    ensures
        match values_types(vs@, tables@, rules@, program.modules@) {
            Ok(ts) => r matches Ok(x) && trees(x@) == ts,
            Err(kind) => r matches Err(e) && e.kind == kind,
        },
    decreases vs, 0nat,
{
    let mut out: Vec<Type> = Vec::new();
    let mut i: usize = 0;
    proof {
        assert(vs@.take(0) =~= Seq::<Value>::empty());
        assert(trees(out@) =~= Seq::<TypeTree>::empty());
    }
    while i < vs.len()
        invariant
            i <= vs@.len(),
            values_types(vs@.take(i as int), tables@, rules@, program.modules@) == Ok::<
                Seq<TypeTree>,
                ErrorKind,
            >(trees(out@)),
        decreases vs@.len() - i,
    {
        proof {
            assert(vs@.take(i + 1).drop_last() =~= vs@.take(i as int));
            assert(vs@.take(i + 1).last() == vs@[i as int]);
            assert(decreases_to!(vs => vs@[i as int]));
        }
        let t = match find_value_type(&vs[i], tables, rules, program) {
            Ok(t) => t,
            Err(e) => {
                proof {
                    assert(values_types(vs@.take(i + 1), tables@, rules@, program.modules@) is Err);
                    lemma_values_types_fail(vs@, tables@, rules@, program.modules@, i + 1);
                }
                return Err(e);
            },
        };
        proof {
            lemma_trees_push(out@, t);
        }
        out.push(t);
        i = i + 1;
    }
    assert(vs@.take(i as int) =~= vs@);
    Ok(out)
}

fn fits(value: &Value, expected: &Type, tables: &Tables, rules: &Vec<Rule>, program: &Program) -> (r:
    SimpleResult<()>)
    ensures
        checked(r, value_fits(*value, expected@, tables@, rules@, program.modules@)),
{
    let t = find_value_type(value, tables, rules, program)?;
    validate_type(&t, tables.types)?;
    if t.matches(expected) {
        Ok(())
    } else {
        fail(ErrorKind::TypeError, "A value of an operation is not of the type of its rule")
    }
}

/// The rule that the operation meets.
pub fn check_op<'r>(op: &Operation, tables: &Tables, rules: &'r Vec<Rule>, program: &Program) -> (r:
    SimpleResult<&'r Rule>)
    ensures
        match op_checked(*op, tables@, rules@, program.modules@) {
            Ok(k) => r matches Ok(rule) && 0 <= k < rules@.len() && *rule == rules@[k],
            Err(kind) => r matches Err(e) && e.kind == kind,
        },
{
    let k = match rule_position(rules, op.id.as_str()) {
        Some(k) => k,
        None => {
            return fail(ErrorKind::Resolution, "Operation is not supported");
        },
    };
    let rule = &rules[k];
    if rule.params.len() != op.params.len() {
        return fail(ErrorKind::TypeError, "Operation expects another number of parameters");
    }
    if rule.targets.len() != op.targets.len() {
        return fail(ErrorKind::TypeError, "Operation expects another number of targets");
    }
    let ghost wanted = param_types(rule.params@);
    let mut i: usize = 0;
    proof {
        assert(op.params@.skip(0) =~= op.params@);
        assert(wanted.skip(0) =~= wanted);
    }
    while i < op.params.len()
        invariant
            i <= op.params@.len(),
            k < rules@.len(),
            *rule == rules@[k as int],
            name_position(rule_names(rules@), op.id@) == Some(k as int),
            rule.params@.len() == op.params@.len(),
            rule.targets@.len() == op.targets@.len(),
            wanted == param_types(rule.params@),
            values_fit(op.params@, wanted, tables@, rules@, program.modules@) == values_fit(
                op.params@.skip(i as int),
                wanted.skip(i as int),
                tables@,
                rules@,
                program.modules@,
            ),
        decreases op.params@.len() - i,
    {
        proof {
            assert(op.params@.skip(i as int)[0] == op.params@[i as int]);
            assert(op.params@.skip(i as int).drop_first() =~= op.params@.skip(i + 1));
            assert(wanted.skip(i as int)[0] == rule.params@[i as int].typeid@);
            assert(wanted.skip(i as int).drop_first() =~= wanted.skip(i + 1));
        }
        match fits(&op.params[i], &rule.params[i].typeid, tables, rules, program) {
            Ok(_) => {},
            Err(e) => {
                return Err(e);
            },
        }
        i = i + 1;
    }
    let ghost given = trees(rule.targets@);
    let mut j: usize = 0;
    proof {
        assert(op.targets@.skip(0) =~= op.targets@);
        assert(given.skip(0) =~= given);
    }
    while j < op.targets.len()
        invariant
            j <= op.targets@.len(),
            k < rules@.len(),
            *rule == rules@[k as int],
            name_position(rule_names(rules@), op.id@) == Some(k as int),
            rule.params@.len() == op.params@.len(),
            rule.targets@.len() == op.targets@.len(),
            values_fit(
                op.params@,
                param_types(rule.params@),
                tables@,
                rules@,
                program.modules@,
            ) is Ok,
            given == trees(rule.targets@),
            values_fit(op.targets@, given, tables@, rules@, program.modules@) == values_fit(
                op.targets@.skip(j as int),
                given.skip(j as int),
                tables@,
                rules@,
                program.modules@,
            ),
        decreases op.targets@.len() - j,
    {
        proof {
            assert(op.targets@.skip(j as int)[0] == op.targets@[j as int]);
            assert(op.targets@.skip(j as int).drop_first() =~= op.targets@.skip(j + 1));
            assert(given.skip(j as int)[0] == rule.targets@[j as int]@);
            assert(given.skip(j as int).drop_first() =~= given.skip(j + 1));
        }
        match fits(&op.targets[j], &rule.targets[j], tables, rules, program) {
            Ok(_) => {},
            Err(e) => {
                return Err(e);
            },
        }
        j = j + 1;
    }
    Ok(rule)
}

} // verus!
