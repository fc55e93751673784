//! The syntax tree of a module and of the rules of a dialect, as the
//! parser of the source text hands it on.

use crate::program::{FloatConstant, TypeTree};
use vstd::prelude::*;

verus! {

/// A name.
#[derive(Debug)]
pub struct AstIdentifier(pub String);

/// A text with its type.
#[derive(Debug)]
pub struct AstString(pub String, pub AstType);

/// A floating-point number with its type.
#[derive(Debug)]
pub struct AstFloat(pub FloatConstant, pub AstType);

/// An integer with its type.
#[derive(Debug)]
pub struct AstInteger(pub i64, pub AstType);

/// A number.
#[derive(Debug)]
pub enum AstNumber {
    Float(AstFloat),
    Integer(AstInteger),
}

/// A value that an operation takes or gives.
#[derive(Debug)]
pub enum AstValue {
    Ref(Box<AstValue>, Option<Box<AstAccess>>),
    Deref(Box<AstValue>, Option<Box<AstAccess>>),
    FunctionCall(AstIdentifier, Vec<AstValue>, Option<Box<AstAccess>>),
    Tuple(Vec<AstValue>, Option<Box<AstAccess>>),
    String(AstString),
    Number(AstNumber),
    OperationInline(AstIdentifier, Vec<AstValue>, Option<Box<AstAccess>>),
    Variable(AstIdentifier, Option<Box<AstAccess>>),
}

/// The way from a value to a part of it.
#[derive(Debug)]
pub enum AstAccess {
    Tuple(AstInteger, Option<Box<AstAccess>>),
    Variable(AstIdentifier, Option<Box<AstAccess>>),
}

/// A variable: its name and its type.
#[derive(Debug)]
pub struct AstVariable {
    pub id: AstIdentifier,
    pub typeid: AstType,
}

/// A type: a tuple, a pointer or a name.
#[derive(Debug)]
pub enum AstType {
    Tuple(Vec<AstType>),
    Pointer(Box<AstType>),
    Identifier(AstIdentifier),
}

/// An instruction of a module.
#[derive(Debug)]
pub enum AstInstruction {
    Meta(AstMeta),
    Import(AstImport),
    Globals(Vec<AstVariable>),
    Extern(AstExtern),
    Struct(AstStruct),
    Function(AstFunction),
}

/// A group of notes.
#[derive(Debug)]
pub struct AstMeta(pub Vec<AstMetaField>);

/// A note: its name and its arguments.
#[derive(Debug)]
pub struct AstMetaField {
    pub id: AstIdentifier,
    pub args: Vec<AstMetaValue>,
}

/// An argument of a note.
#[derive(Debug)]
pub enum AstMetaValue {
    Named(AstIdentifier, Box<AstMetaValue>),
    Field(AstMetaField),
    String(AstString),
    Number(AstNumber),
}

/// The names that a module takes from another module.
#[derive(Debug)]
pub struct AstImport {
    pub meta: Vec<AstMeta>,
    pub names: Vec<AstIdentifier>,
    pub module: AstString,
}

/// A function that lives outside of the program.
#[derive(Debug)]
pub struct AstExtern {
    pub meta: Vec<AstMeta>,
    pub item: AstFunctionHeader,
    pub location_module: AstIdentifier,
    pub location_function: AstIdentifier,
}

/// A struct: its name and its fields.
#[derive(Debug)]
pub struct AstStruct {
    pub meta: Vec<AstMeta>,
    pub export: bool,
    pub id: AstIdentifier,
    pub fields: Vec<AstVariable>,
}

/// A function: its head, its locals and its body.
#[derive(Debug)]
pub struct AstFunction {
    pub meta: Vec<AstMeta>,
    pub export: bool,
    pub header: AstFunctionHeader,
    pub locals: Vec<AstVariable>,
    pub ops: Vec<AstBlockOp>,
}

/// The head of a function.
#[derive(Debug)]
pub struct AstFunctionHeader {
    pub id: AstIdentifier,
    pub params: Vec<AstVariable>,
    pub typeid: Option<AstType>,
}

/// A step of a body: a label or an operation.
#[derive(Debug)]
pub enum AstBlockOp {
    Label(AstIdentifier),
    Operation(AstOperation),
}

/// An operation: its name, what it takes and what it gives.
#[derive(Debug)]
pub struct AstOperation {
    pub meta: Vec<AstMeta>,
    pub id: AstIdentifier,
    pub params: Vec<AstValue>,
    pub targets: Vec<AstValue>,
}

/// A module: its first line, if it names an interpreter, and its
/// instructions.
#[derive(Debug)]
pub struct AstModule {
    pub shebang: Option<String>,
    pub instructions: Vec<AstInstruction>,
}

/// The rules of the operations of a dialect.
#[derive(Debug)]
pub struct AstOpsDescriptor {
    pub meta: Vec<AstMeta>,
    pub rules: Vec<AstOpRule>,
}

/// A rule of an operation.
#[derive(Debug)]
pub struct AstOpRule {
    pub meta: Vec<AstMeta>,
    pub id: AstIdentifier,
    pub params: Vec<AstOpParam>,
    pub targets: Vec<AstType>,
    pub definition: Vec<AstOpRuleDef>,
}

/// A parameter of a rule.
#[derive(Debug)]
pub struct AstOpParam {
    pub id: AstIdentifier,
    pub typeid: AstType,
}

/// A part of the definition of a rule.
#[derive(Debug)]
pub struct AstOpRuleDef {
    pub id: AstIdentifier,
    pub description: Vec<AstOpRuleDefDesc>,
}

/// An entry of a part of a definition: a name and a text.
#[derive(Debug)]
pub struct AstOpRuleDefDesc {
    pub id: AstIdentifier,
    pub value: AstString,
}

impl Default for AstIdentifier {
    fn default() -> (r: Self)
        ensures
            r.0@ == Seq::<char>::empty(),
    {
        AstIdentifier(String::new())
    }
}

impl Default for AstType {
    fn default() -> (r: Self)
        ensures
            ast_tree(r) == TypeTree::Identifier(Seq::empty()),
    {
        AstType::Identifier(AstIdentifier(String::new()))
    }
}

impl Default for AstString {
    fn default() -> (r: Self)
        ensures
            r.0@ == Seq::<char>::empty(),
            ast_tree(r.1) == TypeTree::Identifier(Seq::empty()),
    {
        AstString(String::new(), AstType::Identifier(AstIdentifier(String::new())))
    }
}

/// The type that a type of the syntax tree stands for.
pub open spec fn ast_tree(t: AstType) -> TypeTree
    decreases t,
{
    match t {
        AstType::Identifier(id) => TypeTree::Identifier(id.0@),
        AstType::Pointer(inner) => TypeTree::Pointer(Box::new(ast_tree(*inner))),
        AstType::Tuple(parts) => TypeTree::Tuple(
            Seq::new(
                parts@.len(),
                |i: int|
                    if 0 <= i < parts@.len() {
                        ast_tree(parts@[i])
                    } else {
                        TypeTree::Tuple(Seq::empty())
                    },
            ),
        ),
    }
}

/// The types that the types `parts` of the syntax tree stand for.
pub open spec fn ast_trees(parts: Seq<AstType>) -> Seq<TypeTree> {
    Seq::new(parts.len(), |i: int| ast_tree(parts[i]))
}

/// The tree of a tuple is the tuple of the trees of its parts.
pub proof fn lemma_ast_tuple_tree(parts: Vec<AstType>)
    ensures
        ast_tree(AstType::Tuple(parts)) == TypeTree::Tuple(ast_trees(parts@)),
{
    assert(ast_tree(AstType::Tuple(parts))->Tuple_0 =~= ast_trees(parts@));
}

} // verus!
