//! A program as the compiler's front end hands it to the encoder: modules
//! with their structs, globals, functions and the operations of each
//! function.

use crate::error::{ErrorKind, SimpleError, SimpleResult};
use crate::names::same_text;
use vstd::prelude::*;
use vstd::std_specs::cmp::PartialEqSpecImpl;
use vstd::string::StringExecFns;

verus! {

/// The version of the formats.
pub const VERSION: u8 = 1;

/// The magic of a program and of its image: `KJP` and the version.
pub fn magic_program() -> (m: [u8; 4])
    ensures
        m@ == seq![0x4bu8, 0x4au8, 0x50u8, 1u8],
{
    let m = [0x4b, 0x4a, 0x50, VERSION];
    assert(m@ =~= seq![0x4bu8, 0x4au8, 0x50u8, 1u8]);
    m
}

/// The magic of a module: `KJM` and the version.
pub fn magic_module() -> (m: [u8; 4])
    ensures
        m@ == seq![0x4bu8, 0x4au8, 0x4du8, 1u8],
{
    let m = [0x4b, 0x4a, 0x4d, VERSION];
    assert(m@ =~= seq![0x4bu8, 0x4au8, 0x4du8, 1u8]);
    m
}

fn fail<T>(kind: ErrorKind, message: &str) -> (r: SimpleResult<T>)
    ensures
        r matches Err(e) && e.kind == kind,
{
    Err(SimpleError::of(kind, message))
}

// ---------------------------------------------------------------------------
// Types
// ---------------------------------------------------------------------------

/// A type of the language: a struct or an atom by its name, a pointer,
/// or a tuple. The name `?` stands for any type.
#[derive(Debug)]
pub enum Type {
    Identifier(String),
    Pointer(Box<Type>),
    Tuple(Vec<Type>),
}

/// The model of `Type`.
pub enum TypeTree {
    Identifier(Seq<char>),
    Pointer(Box<TypeTree>),
    Tuple(Seq<TypeTree>),
}

/// The model of a type: the same tree over mathematical sequences.
pub open spec fn type_tree(t: Type) -> TypeTree
    decreases t,
{
    match t {
        Type::Identifier(id) => TypeTree::Identifier(id@),
        Type::Pointer(inner) => TypeTree::Pointer(Box::new(type_tree(*inner))),
        Type::Tuple(v) => TypeTree::Tuple(
            Seq::new(
                v@.len(),
                |i: int|
                    if 0 <= i < v@.len() {
                        type_tree(v@[i])
                    } else {
                        TypeTree::Tuple(Seq::empty())
                    },
            ),
        ),
    }
}

impl View for Type {
    type V = TypeTree;

    open spec fn view(&self) -> TypeTree {
        type_tree(*self)
    }
}

/// The views of a list of types.
pub open spec fn trees(s: Seq<Type>) -> Seq<TypeTree> {
    Seq::new(s.len(), |i: int| s[i]@)
}

pub proof fn lemma_tuple_tree(v: Vec<Type>)
    ensures
        Type::Tuple(v)@ == TypeTree::Tuple(trees(v@)),
{
    assert(Type::Tuple(v)@->Tuple_0 =~= trees(v@));
}

pub proof fn lemma_trees_push(s: Seq<Type>, t: Type)
    ensures
        trees(s.push(t)) == trees(s).push(t@),
{
    assert(trees(s.push(t)) =~= trees(s).push(t@));
}

/// The text of a type: the name, `*` before the pointee, or the parts in
/// brackets with `, ` between them.
pub open spec fn type_text(t: TypeTree) -> Seq<char>
    decreases t,
{
    match t {
        TypeTree::Identifier(id) => id,
        TypeTree::Pointer(inner) => "*"@ + type_text(*inner),
        TypeTree::Tuple(parts) => "("@ + joined_texts(parts) + ")"@,
    }
}

/// The texts of the types `parts` with `, ` between them.
pub open spec fn joined_texts(parts: Seq<TypeTree>) -> Seq<char>
    decreases parts,
{
    if parts.len() == 0 {
        Seq::empty()
    } else if parts.len() == 1 {
        type_text(parts[0])
    } else {
        joined_texts(parts.drop_last()) + ", "@ + type_text(parts.last())
    }
}

/// True when one type stands for the other: the name `?` stands for any
/// type on either side, and at the top only on the left; otherwise the
/// two are of one shape, pointees and parts standing for each other.
pub open spec fn type_matches(a: TypeTree, b: TypeTree) -> bool
    decreases a,
{
    match a {
        TypeTree::Identifier(x) => x == "?"@ || match b {
            TypeTree::Identifier(y) => y == "?"@ || x == y,
            _ => false,
        },
        TypeTree::Pointer(p) => match b {
            TypeTree::Identifier(y) => y == "?"@,
            TypeTree::Pointer(q) => type_matches(*p, *q),
            _ => false,
        },
        TypeTree::Tuple(ps) => match b {
            TypeTree::Identifier(y) => y == "?"@,
            TypeTree::Tuple(qs) => ps.len() == qs.len() && forall|i: int|
                0 <= i < ps.len() ==> type_matches(#[trigger] ps[i], qs[i]),
            _ => false,
        },
    }
}

impl Default for Type {
    /// The type of the empty name, which stands for no type.
    fn default() -> (r: Self)
        ensures
            r@ == TypeTree::Identifier(Seq::empty()),
    {
        Type::Identifier(String::new())
    }
}

impl PartialEq for Type {
    /// True when this type stands for the other: see `type_matches`.
    fn eq(&self, other: &Self) -> (r: bool) {
        self.matches(other)
    }
}

impl PartialEqSpecImpl for Type {
    open spec fn obeys_eq_spec() -> bool {
        true
    }

    open spec fn eq_spec(&self, other: &Self) -> bool {
        type_matches(self@, other@)
    }
}

impl Type {
    pub fn as_identifier(&self) -> (r: Option<&str>)
        ensures
            match r {
                Some(id) => self@ == TypeTree::Identifier(id@),
                None => !(self@ is Identifier),
            },
    {
        match self {
            Type::Identifier(i) => Some(i.as_str()),
            _ => None,
        }
    }

    pub fn as_pointer(&self) -> (r: Option<&Type>)
        ensures
            match r {
                Some(t) => self@ == TypeTree::Pointer(Box::new(t@)),
                None => !(self@ is Pointer),
            },
    {
        match self {
            Type::Pointer(t) => Some(&**t),
            _ => None,
        }
    }

    pub fn as_tuple(&self) -> (r: Option<&[Type]>)
        ensures
            match r {
                Some(ts) => self@ == TypeTree::Tuple(trees(ts@)),
                None => !(self@ is Tuple),
            },
    {
        match self {
            Type::Tuple(t) => {
                proof {
                    lemma_tuple_tree(*t);
                }
                Some(t.as_slice())
            },
            _ => None,
        }
    }

    /// A copy of the type.
    pub fn duplicate(&self) -> (r: Type)
        ensures
            r@ == self@,
        decreases self,
    {
        match self {
            Type::Identifier(id) => Type::Identifier(id.clone()),
            Type::Pointer(inner) => Type::Pointer(Box::new(inner.duplicate())),
            Type::Tuple(parts) => {
                let mut out: Vec<Type> = Vec::new();
                let mut i: usize = 0;
                while i < parts.len()
                    invariant
                        i <= parts@.len(),
                        *self == Type::Tuple(*parts),
                        out@.len() == i,
                        forall|k: int| 0 <= k < i ==> out@[k]@ == parts@[k]@,
                    decreases parts@.len() - i,
                {
                    assert(self->Tuple_0 == *parts);
                    assert(decreases_to!(*self => parts@[i as int]));
                    let copy = parts[i].duplicate();
                    out.push(copy);
                    i = i + 1;
                }
                proof {
                    lemma_tuple_tree(out);
                    lemma_tuple_tree(*parts);
                    assert(trees(out@) =~= trees(parts@));
                }
                Type::Tuple(out)
            },
        }
    }

    /// The text of the type.
    pub fn to_string(&self) -> (r: String)
        ensures
            r@ == type_text(self@),
        decreases self,
    {
        match self {
            Type::Identifier(id) => id.clone(),
            Type::Pointer(inner) => {
                let rest = inner.to_string();
                String::from_str("*").concat(rest.as_str())
            },
            Type::Tuple(parts) => {
                let mut out = String::from_str("(");
                let ghost all = trees(parts@);
                let mut i: usize = 0;
                proof {
                    lemma_tuple_tree(*parts);
                    assert(all.take(0) =~= Seq::<TypeTree>::empty());
                    assert(out@ =~= "("@ + joined_texts(all.take(0)));
                }
                while i < parts.len()
                    invariant
                        i <= parts@.len(),
                        *self == Type::Tuple(*parts),
                        all == trees(parts@),
                        out@ == "("@ + joined_texts(all.take(i as int)),
                    decreases parts@.len() - i,
                {
                    assert(self->Tuple_0 == *parts);
                    assert(decreases_to!(*self => parts@[i as int]));
                    let part = parts[i].to_string();
                    proof {
                        let next = all.take(i + 1);
                        assert(next.drop_last() =~= all.take(i as int));
                        assert(next.last() == parts@[i as int]@);
                        if i == 0 {
                            assert(next[0] == parts@[0]@);
                            assert("("@ + joined_texts(next) =~= out@ + part@);
                        } else {
                            assert("("@ + joined_texts(next) =~= out@ + ", "@ + part@);
                        }
                    }
                    if i > 0 {
                        out.append(", ");
                    }
                    out.append(part.as_str());
                    i = i + 1;
                }
                assert(all.take(i as int) =~= all);
                out.concat(")")
            },
        }
    }

    /// True when this type stands for the other.
    pub fn matches(&self, other: &Type) -> (r: bool)
        ensures
            r == type_matches(self@, other@),
        decreases self,
    {
        match self {
            Type::Identifier(ts) => {
                same_text(ts.as_str(), "?") || match other {
                    Type::Identifier(to) => same_text(to.as_str(), "?") || same_text(
                        ts.as_str(),
                        to.as_str(),
                    ),
                    _ => false,
                }
            },
            Type::Pointer(ts) => match other {
                Type::Identifier(to) => same_text(to.as_str(), "?"),
                Type::Pointer(to) => ts.matches(to),
                _ => false,
            },
            Type::Tuple(ts) => match other {
                Type::Identifier(to) => same_text(to.as_str(), "?"),
                Type::Tuple(to) => {
                    proof {
                        lemma_tuple_tree(*ts);
                        lemma_tuple_tree(*to);
                    }
                    if ts.len() != to.len() {
                        return false;
                    }
                    let mut i: usize = 0;
                    while i < ts.len()
                        invariant
                            i <= ts@.len(),
                            ts@.len() == to@.len(),
                            *self == Type::Tuple(*ts),
                            self@ == TypeTree::Tuple(trees(ts@)),
                            other@ == TypeTree::Tuple(trees(to@)),
                            forall|k: int|
                                0 <= k < i ==> type_matches(
                                    (#[trigger] trees(ts@)[k]),
                                    trees(to@)[k],
                                ),
                        decreases ts@.len() - i,
                    {
                        assert(decreases_to!(*self => ts@[i as int]));
                        if !ts[i].matches(&to[i]) {
                            assert(!type_matches(trees(ts@)[i as int], trees(to@)[i as int]));
                            return false;
                        }
                        i = i + 1;
                    }
                    true
                },
                _ => false,
            },
        }
    }
}

// ---------------------------------------------------------------------------
// Values
// ---------------------------------------------------------------------------

/// A floating-point constant: its text, by which equal constants are
/// found, and its bit patterns in single and in double precision.
#[derive(Debug, Clone)]
pub struct FloatConstant {
    pub text: String,
    pub single: u32,
    pub double: u64,
}

/// A number with its type.
#[derive(Debug)]
pub enum Number {
    Integer(i64, Type),
    Float(FloatConstant, Type),
}

/// The way from a value to a part of it: a field of a struct by its
/// name, or a part of a tuple by its place; then on from there.
#[derive(Debug)]
pub enum Access {
    Tuple(i64, Option<Box<Access>>),
    Variable(String, Option<Box<Access>>),
}

/// A value that an operation takes or gives.
#[derive(Debug)]
pub enum Value {
    Ref(Box<Value>, Option<Box<Access>>),
    Deref(Box<Value>, Option<Box<Access>>),
    FunctionCall(String, Vec<Value>, Option<Box<Access>>),
    Tuple(Vec<Value>, Option<Box<Access>>),
    String(String, Type),
    Number(Number),
    OperationInline(String, Vec<Value>, Option<Box<Access>>),
    Variable(String, Option<Box<Access>>),
}

/// A note on an item of the source.
#[derive(Debug)]
pub struct Meta {
    pub id: String,
    pub args: Vec<MetaValue>,
}

/// An argument of a note.
#[derive(Debug)]
pub enum MetaValue {
    Named(String, Box<MetaValue>),
    Field(Meta),
    String(String),
    Number(Number),
}

/// An operation: its name, the values it takes and the values it gives.
#[derive(Debug)]
pub struct Operation {
    pub meta: Vec<Meta>,
    pub id: String,
    pub params: Vec<Value>,
    pub targets: Vec<Value>,
}

/// A step of a function's body: a label or an operation.
#[derive(Debug)]
pub enum BlockOp {
    Label(String),
    Operation(Operation),
}

impl BlockOp {
    pub fn is_operation(&self) -> (r: bool)
        ensures
            r == (self is Operation),
    {
        match self {
            BlockOp::Operation(_) => true,
            _ => false,
        }
    }

    pub fn as_label(&self) -> (r: Option<&String>)
        ensures
            match r {
                Some(name) => *self == BlockOp::Label(*name),
                None => !(self is Label),
            },
    {
        match self {
            BlockOp::Label(v) => Some(v),
            _ => None,
        }
    }

    pub fn as_operation(&self) -> (r: Option<&Operation>)
        ensures
            match r {
                Some(op) => *self == BlockOp::Operation(*op),
                None => !(self is Operation),
            },
    {
        match self {
            BlockOp::Operation(v) => Some(v),
            _ => None,
        }
    }
}

// ---------------------------------------------------------------------------
// Items
// ---------------------------------------------------------------------------

/// A variable: its name and its type.
#[derive(Debug)]
pub struct Variable {
    pub id: String,
    pub typeid: Type,
}

impl Variable {
    /// The text of the variable: its name, a colon, its type.
    pub fn to_string(&self) -> (r: String)
        ensures
            r@ == self.id@ + ":"@ + type_text(self.typeid@),
    {
        let t = self.typeid.to_string();
        self.id.clone().concat(":").concat(t.as_str())
    }
}

/// A struct: its name and its fields.
#[derive(Debug)]
pub struct Struct {
    pub meta: Vec<Meta>,
    pub export: bool,
    pub id: String,
    pub fields: Vec<Variable>,
}

/// The head of a function: its name, its parameters and the type of its
/// result.
#[derive(Debug)]
pub struct FunctionHeader {
    pub id: String,
    pub params: Vec<Variable>,
    pub typeid: Option<Type>,
}

/// The texts of the variables with `, ` between them.
pub open spec fn joined_variables(vars: Seq<Variable>) -> Seq<char>
    decreases vars.len(),
{
    if vars.len() == 0 {
        Seq::empty()
    } else if vars.len() == 1 {
        vars[0].id@ + ":"@ + type_text(vars[0].typeid@)
    } else {
        joined_variables(vars.drop_last()) + ", "@ + (vars.last().id@ + ":"@ + type_text(
            vars.last().typeid@,
        ))
    }
}

/// The text of the head of a function: `fn`, its name, its parameters
/// in brackets, and the type of its result where it has one.
pub open spec fn header_text(h: FunctionHeader) -> Seq<char> {
    "fn "@ + h.id@ + "("@ + joined_variables(h.params@) + ")"@ + match h.typeid {
        Some(t) => type_text(t@),
        None => Seq::empty(),
    }
}

impl FunctionHeader {
    /// The text of the head.
    pub fn to_string(&self) -> (r: String)
        ensures
            r@ == header_text(*self),
    {
        let mut out = String::from_str("fn ").concat(self.id.as_str()).concat("(");
        let ghost start = out@;
        let mut i: usize = 0;
        proof {
            assert(self.params@.take(0) =~= Seq::<Variable>::empty());
            assert(out@ =~= start + joined_variables(self.params@.take(0)));
        }
        while i < self.params.len()
            invariant
                i <= self.params@.len(),
                start == "fn "@ + self.id@ + "("@,
                out@ == start + joined_variables(self.params@.take(i as int)),
            decreases self.params@.len() - i,
        {
            let part = self.params[i].to_string();
            proof {
                let next = self.params@.take(i + 1);
                assert(next.drop_last() =~= self.params@.take(i as int));
                assert(next.last() == self.params@[i as int]);
                if i == 0 {
                    assert(next[0] == self.params@[0]);
                    assert(start + joined_variables(next) =~= out@ + part@);
                } else {
                    assert(start + joined_variables(next) =~= out@ + ", "@ + part@);
                }
            }
            if i > 0 {
                out.append(", ");
            }
            out.append(part.as_str());
            i = i + 1;
        }
        assert(self.params@.take(i as int) =~= self.params@);
        let out = out.concat(")");
        match &self.typeid {
            Some(t) => {
                let text = t.to_string();
                out.concat(text.as_str())
            },
            None => {
                assert(out@ + Seq::<char>::empty() =~= out@);
                out
            },
        }
    }
}

/// A function: its head, its locals and its body.
#[derive(Debug)]
pub struct Function {
    pub meta: Vec<Meta>,
    pub export: bool,
    pub header: FunctionHeader,
    pub locals: Vec<Variable>,
    pub body: Vec<BlockOp>,
}

/// A function that lives outside of the program: its head, and the
/// module and the name under which the host finds it.
#[derive(Debug)]
pub struct Extern {
    pub meta: Vec<Meta>,
    pub item: FunctionHeader,
    pub location_module: String,
    pub location_function: String,
}

/// The names that a module takes from another module.
#[derive(Debug)]
pub struct Import {
    pub meta: Vec<Meta>,
    pub names: Vec<String>,
    pub module: String,
}

/// A module of a program.
#[derive(Debug)]
pub struct Module {
    pub magic: [u8; 4],
    pub shebang: Option<String>,
    pub path: String,
    pub meta: Vec<Meta>,
    pub imports: Vec<Import>,
    pub globals: Vec<Variable>,
    pub externs: Vec<Extern>,
    pub structs: Vec<Struct>,
    pub functions: Vec<Function>,
}

/// The function at which a program begins: the index of its module and
/// its index in the module.
#[derive(Debug, Clone, Copy, PartialEq, Eq, Structural)]
pub struct Entry {
    pub module: usize,
    pub function: usize,
}

impl Entry {
    pub fn new(module: usize, function: usize) -> (e: Self)
        ensures
            e.module == module,
            e.function == function,
    {
        Entry { module, function }
    }
}

/// A program: its modules and the function at which it begins.
#[derive(Debug)]
pub struct Program {
    pub magic: [u8; 4],
    pub entry: Option<Entry>,
    pub modules: Vec<Module>,
}

/// A parameter of a rule of an operation.
#[derive(Debug)]
pub struct OpParam {
    pub id: String,
    pub typeid: Type,
}

/// A rule of an operation: its name, what it takes and what it gives.
#[derive(Debug)]
pub struct OpRule {
    pub meta: Vec<Meta>,
    pub id: String,
    pub params: Vec<OpParam>,
    pub targets: Vec<Type>,
    pub definition: Vec<(String, Vec<(String, String)>)>,
}

/// The rules of the operations of a dialect.
#[derive(Debug)]
pub struct OpsDescriptor {
    pub meta: Vec<Meta>,
    pub rules: Vec<OpRule>,
}

impl OpsDescriptor {
    /// The descriptor without rules.
    pub fn empty() -> (r: Self)
        ensures
            r.rules@.len() == 0,
            r.meta@.len() == 0,
    {
        OpsDescriptor { meta: Vec::new(), rules: Vec::new() }
    }

    /// One descriptor with the notes and the rules of all of
    /// `descriptors`, in their order.
    pub fn merge(descriptors: Vec<OpsDescriptor>) -> (r: Self)
        ensures
            r.rules@ == all_rules(descriptors@),
    {
        let mut meta: Vec<Meta> = Vec::new();
        let mut rules: Vec<OpRule> = Vec::new();
        let mut rest = descriptors;
        let ghost all = descriptors@;
        let mut done: Ghost<int> = Ghost(0);
        assert(all.take(0) =~= Seq::<OpsDescriptor>::empty());
        assert(all.skip(0) =~= all);
        while rest.len() > 0
            invariant
                0 <= done@ <= all.len(),
                rest@ == all.skip(done@),
                rules@ == all_rules(all.take(done@)),
            decreases rest@.len(),
        {
            let ghost k = done@;
            let mut d = rest.remove(0);
            proof {
                assert(d == all[k]);
                assert(all.take(k + 1).drop_last() =~= all.take(k));
                assert(all.take(k + 1).last() == all[k]);
                assert(rest@ =~= all.skip(k + 1));
                done@ = k + 1;
            }
            meta.append(&mut d.meta);
            rules.append(&mut d.rules);
        }
        assert(all.take(done@) =~= all);
        OpsDescriptor { meta, rules }
    }
}

/// The rules of the descriptors `s`, one descriptor after the other.
pub open spec fn all_rules(s: Seq<OpsDescriptor>) -> Seq<OpRule>
    decreases s.len(),
{
    if s.len() == 0 {
        Seq::empty()
    } else {
        all_rules(s.drop_last()) + s.last().rules@
    }
}

/// True when the struct at `k` of the module at `m` is the first struct
/// of the name `id` in the modules.
pub open spec fn is_first_struct(modules: Seq<Module>, id: Seq<char>, m: int, k: int) -> bool {
    &&& 0 <= m < modules.len()
    &&& 0 <= k < modules[m].structs@.len()
    &&& modules[m].structs@[k].id@ == id
    &&& forall|j: int| 0 <= j < k ==> (#[trigger] modules[m].structs@[j]).id@ != id
    &&& forall|i: int, j: int|
        0 <= i < m && 0 <= j < modules[i].structs@.len() ==> (#[trigger] modules[i].structs@[j]).id@
            != id
}

/// True when the module at `m` is the first of the path `path`, and the
/// struct at `k` the first of the name `id` in it.
pub open spec fn is_module_struct(
    modules: Seq<Module>,
    path: Seq<char>,
    id: Seq<char>,
    m: int,
    k: int,
) -> bool {
    &&& 0 <= m < modules.len()
    &&& modules[m].path@ == path
    &&& forall|i: int| 0 <= i < m ==> (#[trigger] modules[i]).path@ != path
    &&& 0 <= k < modules[m].structs@.len()
    &&& modules[m].structs@[k].id@ == id
    &&& forall|j: int| 0 <= j < k ==> (#[trigger] modules[m].structs@[j]).id@ != id
}

/// True when no module has a struct of the name `id`.
pub open spec fn no_struct(modules: Seq<Module>, id: Seq<char>) -> bool {
    forall|i: int, j: int|
        0 <= i < modules.len() && 0 <= j < modules[i].structs@.len() ==> (
        #[trigger] modules[i].structs@[j]).id@ != id
}

/// What is wrong with the entry of a program: `Resolution` where the
/// module or the function is not there.
pub open spec fn entry_fault(entry: Option<Entry>, modules: Seq<Module>) -> bool {
    match entry {
        Some(e) => e.module >= modules.len() || e.function >= modules[e.module as int].functions@.len(),
        None => false,
    }
}

impl Module {
    /// The struct of the name `id`: the first in the module.
    pub fn find_struct(&self, id: &str) -> (r: Option<&Struct>)
        ensures
            match r {
                Some(s) => exists|k: int|
                    0 <= k < self.structs@.len() && self.structs@[k] == *s && s.id@ == id@
                        && forall|j: int| 0 <= j < k ==> (#[trigger] self.structs@[j]).id@ != id@,
                None => forall|j: int|
                    0 <= j < self.structs@.len() ==> (#[trigger] self.structs@[j]).id@ != id@,
            },
    {
        let mut i: usize = 0;
        while i < self.structs.len()
            invariant
                i <= self.structs@.len(),
                forall|j: int| 0 <= j < i ==> (#[trigger] self.structs@[j]).id@ != id@,
            decreases self.structs@.len() - i,
        {
            if same_text(self.structs[i].id.as_str(), id) {
                return Some(&self.structs[i]);
            }
            i = i + 1;
        }
        None
    }

    /// The function of the name `id`: the first in the module.
    pub fn find_function(&self, id: &str) -> (r: Option<&Function>)
        ensures
            match r {
                Some(f) => exists|k: int|
                    0 <= k < self.functions@.len() && self.functions@[k] == *f && f.header.id@
                        == id@ && forall|j: int|
                        0 <= j < k ==> (#[trigger] self.functions@[j]).header.id@ != id@,
                None => forall|j: int|
                    0 <= j < self.functions@.len() ==> (#[trigger] self.functions@[j]).header.id@
                        != id@,
            },
    {
        let mut i: usize = 0;
        while i < self.functions.len()
            invariant
                i <= self.functions@.len(),
                forall|j: int| 0 <= j < i ==> (#[trigger] self.functions@[j]).header.id@ != id@,
            decreases self.functions@.len() - i,
        {
            if same_text(self.functions[i].header.id.as_str(), id) {
                return Some(&self.functions[i]);
            }
            i = i + 1;
        }
        None
    }

    /// The names of the structs of the module, each with its index.
    pub fn structs_map(&self) -> (r: Vec<(usize, String)>)
        ensures
            r@.len() == self.structs@.len(),
            forall|i: int|
                0 <= i < r@.len() ==> (#[trigger] r@[i]).0 == i && r@[i].1@ == self.structs@[i].id@,
    {
        let mut out: Vec<(usize, String)> = Vec::new();
        let mut i: usize = 0;
        while i < self.structs.len()
            invariant
                i <= self.structs@.len(),
                out@.len() == i,
                forall|k: int|
                    0 <= k < i ==> (#[trigger] out@[k]).0 == k && out@[k].1@ == self.structs@[k].id@,
            decreases self.structs@.len() - i,
        {
            out.push((i, self.structs[i].id.clone()));
            i = i + 1;
        }
        out
    }

    /// The names of the functions of the module, each with its index.
    pub fn functions_map(&self) -> (r: Vec<(usize, String)>)
        ensures
            r@.len() == self.functions@.len(),
            forall|i: int|
                0 <= i < r@.len() ==> (#[trigger] r@[i]).0 == i && r@[i].1@
                    == self.functions@[i].header.id@,
    {
        let mut out: Vec<(usize, String)> = Vec::new();
        let mut i: usize = 0;
        while i < self.functions.len()
            invariant
                i <= self.functions@.len(),
                out@.len() == i,
                forall|k: int|
                    0 <= k < i ==> (#[trigger] out@[k]).0 == k && out@[k].1@
                        == self.functions@[k].header.id@,
            decreases self.functions@.len() - i,
        {
            out.push((i, self.functions[i].header.id.clone()));
            i = i + 1;
        }
        out
    }

    /// The names of the external functions of the module, each with its
    /// index.
    pub fn externs_map(&self) -> (r: Vec<(usize, String)>)
        ensures
            r@.len() == self.externs@.len(),
            forall|i: int|
                0 <= i < r@.len() ==> (#[trigger] r@[i]).0 == i && r@[i].1@
                    == self.externs@[i].item.id@,
    {
        let mut out: Vec<(usize, String)> = Vec::new();
        let mut i: usize = 0;
        while i < self.externs.len()
            invariant
                i <= self.externs@.len(),
                out@.len() == i,
                forall|k: int|
                    0 <= k < i ==> (#[trigger] out@[k]).0 == k && out@[k].1@
                        == self.externs@[k].item.id@,
            decreases self.externs@.len() - i,
        {
            out.push((i, self.externs[i].item.id.clone()));
            i = i + 1;
        }
        out
    }

    /// The names of the globals of the module, each with its index.
    pub fn globals_map(&self) -> (r: Vec<(usize, String)>)
        ensures
            r@.len() == self.globals@.len(),
            forall|i: int|
                0 <= i < r@.len() ==> (#[trigger] r@[i]).0 == i && r@[i].1@ == self.globals@[i].id@,
    {
        let mut out: Vec<(usize, String)> = Vec::new();
        let mut i: usize = 0;
        while i < self.globals.len()
            invariant
                i <= self.globals@.len(),
                out@.len() == i,
                forall|k: int|
                    0 <= k < i ==> (#[trigger] out@[k]).0 == k && out@[k].1@ == self.globals@[k].id@,
            decreases self.globals@.len() - i,
        {
            out.push((i, self.globals[i].id.clone()));
            i = i + 1;
        }
        out
    }
}

impl Program {
    /// A program of the modules `modules` that begins at `entry`. Fails
    /// with `Resolution` where the entry names a module or a function
    /// that is not there.
    pub fn from_modules(entry: Option<Entry>, modules: Vec<Module>) -> (r: SimpleResult<Self>)
        ensures
            match r {
                Ok(p) => !entry_fault(entry, modules@) && p.entry == entry && p.modules == modules
                    && p.magic@ == seq![0x4bu8, 0x4au8, 0x50u8, 1u8],
                Err(e) => entry_fault(entry, modules@) && e.kind == ErrorKind::Resolution,
            },
    {
        match entry {
            Some(e) => {
                if e.module >= modules.len() {
                    return fail(ErrorKind::Resolution, "the entry names a module that is not there");
                }
                if e.function >= modules[e.module].functions.len() {
                    return fail(
                        ErrorKind::Resolution,
                        "the entry names a function that is not there",
                    );
                }
            },
            None => {},
        }
        Ok(Program { magic: magic_program(), modules, entry })
    }

    /// The paths of the modules, each with its index.
    pub fn modules_map(&self) -> (r: Vec<(usize, String)>)
        ensures
            r@.len() == self.modules@.len(),
            forall|i: int|
                0 <= i < r@.len() ==> (#[trigger] r@[i]).0 == i && r@[i].1@ == self.modules@[i].path@,
    {
        let mut out: Vec<(usize, String)> = Vec::new();
        let mut i: usize = 0;
        while i < self.modules.len()
            invariant
                i <= self.modules@.len(),
                out@.len() == i,
                forall|k: int|
                    0 <= k < i ==> (#[trigger] out@[k]).0 == k && out@[k].1@ == self.modules@[k].path@,
            decreases self.modules@.len() - i,
        {
            out.push((i, self.modules[i].path.clone()));
            i = i + 1;
        }
        out
    }

    /// The index of the module of the path `path`: the first.
    pub fn module_index(&self, path: &str) -> (r: Option<usize>)
        ensures
            match r {
                Some(k) => k < self.modules@.len() && self.modules@[k as int].path@ == path@
                    && forall|j: int| 0 <= j < k ==> (#[trigger] self.modules@[j]).path@ != path@,
                None => forall|j: int|
                    0 <= j < self.modules@.len() ==> (#[trigger] self.modules@[j]).path@ != path@,
            },
    {
        let mut i: usize = 0;
        while i < self.modules.len()
            invariant
                i <= self.modules@.len(),
                forall|j: int| 0 <= j < i ==> (#[trigger] self.modules@[j]).path@ != path@,
            decreases self.modules@.len() - i,
        {
            if same_text(self.modules[i].path.as_str(), path) {
                return Some(i);
            }
            i = i + 1;
        }
        None
    }

    /// The module of the path `path`: the first.
    pub fn find_module(&self, path: &str) -> (r: Option<&Module>)
        ensures
            match r {
                Some(m) => exists|k: int|
                    0 <= k < self.modules@.len() && self.modules@[k] == *m && m.path@ == path@
                        && forall|j: int| 0 <= j < k ==> (#[trigger] self.modules@[j]).path@ != path@,
                None => forall|j: int|
                    0 <= j < self.modules@.len() ==> (#[trigger] self.modules@[j]).path@ != path@,
            },
    {
        match self.module_index(path) {
            Some(k) => Some(&self.modules[k]),
            None => None,
        }
    }

    /// The struct of the name `id` in the first module of the path
    /// `path`.
    pub fn find_module_struct(&self, path: &str, id: &str) -> (r: Option<&Struct>)
        ensures
            match r {
                Some(s) => exists|m: int, k: int|
                    is_module_struct(self.modules@, path@, id@, m, k)
                        && self.modules@[m].structs@[k] == *s,
                None => forall|m: int, k: int| !is_module_struct(self.modules@, path@, id@, m, k),
            },
    {
        match self.module_index(path) {
            Some(m) => {
                let r = self.modules[m].find_struct(id);
                proof {
                    match r {
                        Some(s) => {
                            let k = choose|k: int|
                                0 <= k < self.modules@[m as int].structs@.len()
                                    && self.modules@[m as int].structs@[k] == *s && s.id@ == id@
                                    && forall|j: int|
                                    0 <= j < k ==> (
                                    #[trigger] self.modules@[m as int].structs@[j]).id@ != id@;
                            assert(is_module_struct(self.modules@, path@, id@, m as int, k));
                        },
                        None => {
                            assert forall|a: int, b: int|
                                !is_module_struct(self.modules@, path@, id@, a, b) by {
                                if is_module_struct(self.modules@, path@, id@, a, b) {
                                    if a < m {
                                        assert(self.modules@[a].path@ != path@);
                                    } else if a > m {
                                        assert(self.modules@[m as int].path@ != path@);
                                    }
                                    assert(self.modules@[m as int].structs@[b].id@ != id@);
                                }
                            }
                        },
                    }
                }
                r
            },
            None => {
                assert forall|a: int, b: int|
                    !is_module_struct(self.modules@, path@, id@, a, b) by {
                    if is_module_struct(self.modules@, path@, id@, a, b) {
                        assert(self.modules@[a].path@ != path@);
                    }
                }
                None
            },
        }
    }

    /// The struct of the name `id`: the first in the first module that
    /// has one.
    pub fn find_struct(&self, id: &str) -> (r: Option<&Struct>)
        ensures
            match r {
                Some(s) => exists|m: int, k: int|
                    is_first_struct(self.modules@, id@, m, k) && self.modules@[m].structs@[k] == *s,
                None => no_struct(self.modules@, id@),
            },
    {
        let mut i: usize = 0;
        while i < self.modules.len()
            invariant
                i <= self.modules@.len(),
                forall|a: int, b: int|
                    0 <= a < i && 0 <= b < self.modules@[a].structs@.len() ==> (
                    #[trigger] self.modules@[a].structs@[b]).id@ != id@,
            decreases self.modules@.len() - i,
        {
            let mut j: usize = 0;
            while j < self.modules[i].structs.len()
                invariant
                    i < self.modules@.len(),
                    j <= self.modules@[i as int].structs@.len(),
                    forall|a: int, b: int|
                        0 <= a < i && 0 <= b < self.modules@[a].structs@.len() ==> (
                        #[trigger] self.modules@[a].structs@[b]).id@ != id@,
                    forall|b: int|
                        0 <= b < j ==> (#[trigger] self.modules@[i as int].structs@[b]).id@ != id@,
                decreases self.modules@[i as int].structs@.len() - j,
            {
                if same_text(self.modules[i].structs[j].id.as_str(), id) {
                    assert(is_first_struct(self.modules@, id@, i as int, j as int));
                    return Some(&self.modules[i].structs[j]);
                }
                j = j + 1;
            }
            i = i + 1;
        }
        None
    }
}

} // verus!
