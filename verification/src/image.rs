//! The assembly image as the machine sees it: the tables of an image, decoded
//! from its bytes.
//!
//! Every field of an image is read by a pair of functions: a `parse_*`
//! specification that says what the bytes at a position mean, and a `read_*`
//! function that computes it.

use crate::error::{ErrorKind, SimpleError, SimpleResult};
use crate::names::{lookup, NameTable};
use crate::wire::be_value;
use vstd::prelude::*;
use vstd::slice::{slice_subrange, slice_to_vec};
use vstd::utf8::{decode_utf8, encode_utf8, valid_utf8};

verus! {

/// The views of the items of a sequence.
pub open spec fn views<T: View>(s: Seq<T>) -> Seq<T::V> {
    Seq::new(s.len(), |i: int| s[i]@)
}

pub proof fn lemma_views_push<T: View>(s: Seq<T>, x: T)
    ensures
        views(s.push(x)) == views(s).push(x@),
{
    assert(views(s.push(x)) =~= views(s).push(x@));
}

pub proof fn lemma_views_empty<T: View>()
    ensures
        views(Seq::<T>::empty()) == Seq::<T::V>::empty(),
{
    assert(views(Seq::<T>::empty()) =~= Seq::<T::V>::empty());
}

/// What a decoder owes: on success the value and the position that the
/// specification gives, and a `BadAssembly` failure exactly where the
/// specification gives nothing.
pub open spec fn decoded<T: View>(
    r: SimpleResult<(T, usize)>,
    expected: Option<(T::V, int)>,
) -> bool {
    match r {
        Ok((v, p)) => expected == Some((v@, p as int)),
        Err(e) => expected is None && e.kind == ErrorKind::BadAssembly,
    }
}

/// As `decoded`, for a list of items.
pub open spec fn decoded_list<T: View>(
    r: SimpleResult<(Vec<T>, usize)>,
    expected: Option<(Seq<T::V>, int)>,
) -> bool {
    match r {
        Ok((v, p)) => expected == Some((views(v@), p as int)),
        Err(e) => expected is None && e.kind == ErrorKind::BadAssembly,
    }
}

fn bad<T>(message: &str) -> (r: SimpleResult<T>)
    ensures
        r matches Err(e) && e.kind == ErrorKind::BadAssembly,
{
    Err(SimpleError::of(ErrorKind::BadAssembly, message))
}

/// `String::from_utf8`: the text whose UTF-8 encoding is `bytes`, where
/// `bytes` is one.
#[verifier::external_body]
pub(crate) fn utf8_string(bytes: Vec<u8>) -> (r: Option<String>)
    ensures
        r is Some <==> valid_utf8(bytes@),
        r matches Some(s) ==> encode_utf8(s@) == bytes@,
{
    String::from_utf8(bytes).ok()
}

// ---------------------------------------------------------------------------
// Plain fields
// ---------------------------------------------------------------------------

/// One byte.
pub open spec fn parse_u8(b: Seq<u8>, pos: int) -> Option<(u8, int)> {
    if 0 <= pos < b.len() {
        Some((b[pos], pos + 1))
    } else {
        None
    }
}

/// A flag: one byte, set when it is not zero.
pub open spec fn parse_flag(b: Seq<u8>, pos: int) -> Option<(bool, int)> {
    match parse_u8(b, pos) {
        Some((v, p)) => Some((v > 0, p)),
        None => None,
    }
}

/// Two bytes, big-endian.
pub open spec fn parse_u16(b: Seq<u8>, pos: int) -> Option<(u16, int)> {
    if 0 <= pos && pos + 2 <= b.len() {
        Some((be_value(b.subrange(pos, pos + 2)) as u16, pos + 2))
    } else {
        None
    }
}

/// Four bytes, big-endian.
pub open spec fn parse_u32(b: Seq<u8>, pos: int) -> Option<(u32, int)> {
    if 0 <= pos && pos + 4 <= b.len() {
        Some((be_value(b.subrange(pos, pos + 4)) as u32, pos + 4))
    } else {
        None
    }
}

/// Eight bytes, big-endian.
pub open spec fn parse_u64(b: Seq<u8>, pos: int) -> Option<(u64, int)> {
    if 0 <= pos && pos + 8 <= b.len() {
        Some((be_value(b.subrange(pos, pos + 8)) as u64, pos + 8))
    } else {
        None
    }
}

/// An index, a size or an offset: eight bytes that must fit the host's
/// address range.
pub open spec fn parse_size(b: Seq<u8>, pos: int) -> Option<(usize, int)> {
    match parse_u64(b, pos) {
        Some((n, p)) => if n <= usize::MAX {
            Some((n as usize, p))
        } else {
            None
        },
        None => None,
    }
}

/// A text: its length in bytes, then its UTF-8 encoding.
pub open spec fn parse_string(b: Seq<u8>, pos: int) -> Option<(Seq<char>, int)> {
    match parse_size(b, pos) {
        Some((n, p)) => if p + n <= b.len() && valid_utf8(b.subrange(p, p + n)) {
            Some((decode_utf8(b.subrange(p, p + n)), p + n))
        } else {
            None
        },
        None => None,
    }
}

pub fn read_u8(b: &[u8], pos: usize) -> (r: SimpleResult<(u8, usize)>)
    ensures
        decoded(r, parse_u8(b@, pos as int)),
{
    if pos < b.len() {
        Ok((b[pos], pos + 1))
    } else {
        bad("the image ends inside a byte field")
    }
}

pub fn read_flag(b: &[u8], pos: usize) -> (r: SimpleResult<(bool, usize)>)
    ensures
        decoded(r, parse_flag(b@, pos as int)),
{
    match read_u8(b, pos) {
        Ok((v, p)) => Ok((v > 0, p)),
        Err(e) => Err(e),
    }
}

pub fn read_u16(b: &[u8], pos: usize) -> (r: SimpleResult<(u16, usize)>)
    ensures
        decoded(r, parse_u16(b@, pos as int)),
{
    if pos <= b.len() && b.len() - pos >= 2 {
        let window = slice_subrange(b, pos, pos + 2);
        assert(window@.subrange(0, 2) =~= window@);
        Ok((crate::wire::read_u16(window), pos + 2))
    } else {
        bad("the image ends inside a two-byte field")
    }
}

pub fn read_u32(b: &[u8], pos: usize) -> (r: SimpleResult<(u32, usize)>)
    ensures
        decoded(r, parse_u32(b@, pos as int)),
{
    if pos <= b.len() && b.len() - pos >= 4 {
        let window = slice_subrange(b, pos, pos + 4);
        assert(window@.subrange(0, 4) =~= window@);
        Ok((crate::wire::read_u32(window), pos + 4))
    } else {
        bad("the image ends inside a four-byte field")
    }
}

pub fn read_u64(b: &[u8], pos: usize) -> (r: SimpleResult<(u64, usize)>)
    ensures
        decoded(r, parse_u64(b@, pos as int)),
{
    if pos <= b.len() && b.len() - pos >= 8 {
        let window = slice_subrange(b, pos, pos + 8);
        assert(window@.subrange(0, 8) =~= window@);
        Ok((crate::wire::read_u64(window), pos + 8))
    } else {
        bad("the image ends inside an eight-byte field")
    }
}

pub fn read_size(b: &[u8], pos: usize) -> (r: SimpleResult<(usize, usize)>)
    ensures
        decoded(r, parse_size(b@, pos as int)),
{
    match read_u64(b, pos) {
        Ok((n, p)) => {
            if n <= usize::MAX as u64 {
                Ok((n as usize, p))
            } else {
                bad("a size in the image exceeds the host's address range")
            }
        },
        Err(e) => Err(e),
    }
}

pub fn read_string(b: &[u8], pos: usize) -> (r: SimpleResult<(String, usize)>)
    ensures
        decoded(r, parse_string(b@, pos as int)),
{
    match read_size(b, pos) {
        Ok((n, p)) => {
            if n <= b.len() - p {
                let raw = slice_to_vec(slice_subrange(b, p, p + n));
                match utf8_string(raw) {
                    Some(s) => {
                        proof {
                            vstd::utf8::encode_utf8_decode_utf8(s@);
                        }
                        Ok((s, p + n))
                    },
                    None => bad("a text in the image is not UTF-8"),
                }
            } else {
                bad("the image ends inside a text")
            }
        },
        Err(e) => Err(e),
    }
}

// ---------------------------------------------------------------------------
// Types
// ---------------------------------------------------------------------------

/// A type of the image: a struct by its index, a pointer, or a tuple.
#[derive(Debug)]
pub enum Type {
    Identifier(usize),
    Pointer(Box<Type>),
    Tuple(Vec<Type>),
}

/// The model of `Type`.
pub enum TypeModel {
    Identifier(usize),
    Pointer(Box<TypeModel>),
    Tuple(Seq<TypeModel>),
}

/// The model of a type: the same tree over mathematical sequences.
pub open spec fn type_model(t: Type) -> TypeModel
    decreases t,
{
    match t {
        Type::Identifier(i) => TypeModel::Identifier(i),
        Type::Pointer(inner) => TypeModel::Pointer(Box::new(type_model(*inner))),
        Type::Tuple(v) => TypeModel::Tuple(
            Seq::new(
                v@.len(),
                |i: int|
                    if 0 <= i < v@.len() {
                        type_model(v@[i])
                    } else {
                        TypeModel::Identifier(0)
                    },
            ),
        ),
    }
}

impl View for Type {
    type V = TypeModel;

    open spec fn view(&self) -> TypeModel {
        type_model(*self)
    }
}

pub proof fn lemma_tuple_view(v: Vec<Type>)
    ensures
        Type::Tuple(v)@ == TypeModel::Tuple(views(v@)),
{
    assert(Type::Tuple(v)@->Tuple_0 =~= views(v@));
}

/// A type: a mode byte, then the struct's index (mode 0), the pointee (mode
/// 1), or a count and that many types (mode 2).
pub open spec fn parse_type(b: Seq<u8>, pos: int) -> Option<(TypeModel, int)>
    decreases b.len() - pos, 0nat,
{
    match parse_u8(b, pos) {
        Some((mode, p)) => if mode == 0 {
            match parse_size(b, p) {
                Some((i, q)) => Some((TypeModel::Identifier(i), q)),
                None => None,
            }
        } else if mode == 1 {
            match parse_type(b, p) {
                Some((t, q)) => Some((TypeModel::Pointer(Box::new(t)), q)),
                None => None,
            }
        } else if mode == 2 {
            match parse_u64(b, p) {
                Some((n, q)) => match parse_types(b, q, n as nat) {
                    Some((ts, r)) => Some((TypeModel::Tuple(ts), r)),
                    None => None,
                },
                None => None,
            }
        } else {
            None
        },
        None => None,
    }
}

/// `count` types, one after the other.
pub open spec fn parse_types(b: Seq<u8>, pos: int, count: nat) -> Option<(Seq<TypeModel>, int)>
    decreases b.len() - pos, count,
{
    if count == 0 {
        Some((Seq::empty(), pos))
    } else {
        match parse_types(b, pos, (count - 1) as nat) {
            Some((ts, p)) => if pos <= p <= b.len() {
                match parse_type(b, p) {
                    Some((t, q)) => Some((ts.push(t), q)),
                    None => None,
                }
            } else {
                None
            },
            None => None,
        }
    }
}

/// Where a shorter list of types cannot be read, a longer one cannot either.
pub proof fn lemma_parse_types_fails(b: Seq<u8>, pos: int, k: nat, count: nat)
    requires
        k <= count,
        parse_types(b, pos, k) is None,
    ensures
        parse_types(b, pos, count) is None,
    decreases count,
{
    if k < count {
        lemma_parse_types_fails(b, pos, k, (count - 1) as nat);
    }
}

/// A type that was read ends inside the image, after where it began.
pub proof fn lemma_parse_type_advances(b: Seq<u8>, pos: int)
    requires
        parse_type(b, pos) is Some,
    ensures
        pos < parse_type(b, pos).unwrap().1 <= b.len(),
    decreases b.len() - pos, 0nat,
{
    let (mode, p) = parse_u8(b, pos)->0;
    if mode == 1 {
        lemma_parse_type_advances(b, p);
    } else if mode == 2 {
        let (n, q) = parse_u64(b, p)->0;
        lemma_parse_types_advances(b, q, n as nat);
    }
}

pub proof fn lemma_parse_types_advances(b: Seq<u8>, pos: int, count: nat)
    requires
        parse_types(b, pos, count) is Some,
        pos <= b.len(),
    ensures
        pos <= parse_types(b, pos, count).unwrap().1 <= b.len(),
    decreases b.len() - pos, count,
{
    if count > 0 {
        lemma_parse_types_advances(b, pos, (count - 1) as nat);
        let (ts, p) = parse_types(b, pos, (count - 1) as nat)->0;
        lemma_parse_type_advances(b, p);
    }
}

pub fn read_type(b: &[u8], pos: usize) -> (r: SimpleResult<(Type, usize)>)
    ensures
        decoded(r, parse_type(b@, pos as int)),
    decreases b@.len() - pos,
{
    let (mode, p) = match read_u8(b, pos) {
        Ok(x) => x,
        Err(e) => { return Err(e); },
    };
    if mode == 0 {
        match read_size(b, p) {
            Ok((i, q)) => Ok((Type::Identifier(i), q)),
            Err(e) => Err(e),
        }
    } else if mode == 1 {
        match read_type(b, p) {
            Ok((t, q)) => Ok((Type::Pointer(Box::new(t)), q)),
            Err(e) => Err(e),
        }
    } else if mode == 2 {
        let (count, start) = match read_u64(b, p) {
            Ok(x) => x,
            Err(e) => { return Err(e); },
        };
        let mut items: Vec<Type> = Vec::new();
        let mut at: usize = start;
        let mut i: u64 = 0;
        proof {
            lemma_views_empty::<Type>();
        }
        while i < count
            invariant
                i <= count,
                pos < start <= at <= b@.len(),
                parse_u8(b@, pos as int) == Some((2u8, p as int)),
                parse_u64(b@, p as int) == Some((count, start as int)),
                parse_types(b@, start as int, i as nat) == Some((views(items@), at as int)),
            decreases count - i,
        {
            match read_type(b, at) {
                Ok((t, q)) => {
                    proof {
                        lemma_views_push(items@, t);
                        lemma_parse_type_advances(b@, at as int);
                    }
                    items.push(t);
                    at = q;
                },
                Err(e) => {
                    proof {
                        assert(parse_types(b@, start as int, (i + 1) as nat) is None);
                        lemma_parse_types_fails(b@, start as int, (i + 1) as nat, count as nat);
                    }
                    return Err(e);
                },
            }
            i = i + 1;
        }
        proof {
            lemma_tuple_view(items);
        }
        Ok((Type::Tuple(items), at))
    } else {
        bad("a type in the image has an unknown mode")
    }
}

// ---------------------------------------------------------------------------
// Lists
// ---------------------------------------------------------------------------

/// `count` items, one after the other, each read by `one`.
pub open spec fn parse_seq<T>(
    one: spec_fn(Seq<u8>, int) -> Option<(T, int)>,
    b: Seq<u8>,
    pos: int,
    count: nat,
) -> Option<(Seq<T>, int)>
    decreases count,
{
    if count == 0 {
        Some((Seq::empty(), pos))
    } else {
        match parse_seq(one, b, pos, (count - 1) as nat) {
            Some((items, p)) => match one(b, p) {
                Some((x, q)) => Some((items.push(x), q)),
                None => None,
            },
            None => None,
        }
    }
}

/// Where a shorter list cannot be read, a longer one cannot either.
pub proof fn lemma_parse_seq_fails<T>(
    one: spec_fn(Seq<u8>, int) -> Option<(T, int)>,
    b: Seq<u8>,
    pos: int,
    k: nat,
    count: nat,
)
    requires
        k <= count,
        parse_seq(one, b, pos, k) is None,
    ensures
        parse_seq(one, b, pos, count) is None,
    decreases count,
{
    if k < count {
        lemma_parse_seq_fails(one, b, pos, k, (count - 1) as nat);
    }
}

// ---------------------------------------------------------------------------
// Variables
// ---------------------------------------------------------------------------

/// A parameter or a local of a function.
#[derive(Debug)]
pub struct Variable {
    index: usize,
    typeid: Type,
    size: usize,
    offset: Option<usize>,
}

/// The model of `Variable`.
pub struct VariableModel {
    pub index: usize,
    pub typeid: TypeModel,
    pub size: usize,
    pub offset: Option<usize>,
}

impl View for Variable {
    type V = VariableModel;

    closed spec fn view(&self) -> VariableModel {
        VariableModel { index: self.index, typeid: self.typeid@, size: self.size, offset: self.offset }
    }
}

impl Variable {
    pub fn index(&self) -> (r: usize)
        ensures
            r == self@.index,
    {
        self.index
    }

    pub fn typeid(&self) -> (r: &Type)
        ensures
            r@ == self@.typeid,
    {
        &self.typeid
    }

    pub fn size(&self) -> (r: usize)
        ensures
            r == self@.size,
    {
        self.size
    }

    pub fn offset(&self) -> (r: &Option<usize>)
        ensures
            *r == self@.offset,
    {
        &self.offset
    }
}

/// A variable: index, type, size, and an offset behind a flag.
pub open spec fn parse_variable(b: Seq<u8>, pos: int) -> Option<(VariableModel, int)> {
    match parse_size(b, pos) {
        Some((index, p1)) => match parse_type(b, p1) {
            Some((typeid, p2)) => match parse_size(b, p2) {
                Some((size, p3)) => match parse_flag(b, p3) {
                    Some((has, p4)) => if has {
                        match parse_size(b, p4) {
                            Some((o, p5)) => Some(
                                (VariableModel { index, typeid, size, offset: Some(o) }, p5),
                            ),
                            None => None,
                        }
                    } else {
                        Some((VariableModel { index, typeid, size, offset: None }, p4))
                    },
                    None => None,
                },
                None => None,
            },
            None => None,
        },
        None => None,
    }
}

pub open spec fn variable_parser() -> spec_fn(Seq<u8>, int) -> Option<(VariableModel, int)> {
    |b: Seq<u8>, p: int| parse_variable(b, p)
}

pub fn read_variable(b: &[u8], pos: usize) -> (r: SimpleResult<(Variable, usize)>)
    ensures
        decoded(r, parse_variable(b@, pos as int)),
{
    let (index, p1) = read_size(b, pos)?;
    let (typeid, p2) = read_type(b, p1)?;
    let (size, p3) = read_size(b, p2)?;
    let (has, p4) = read_flag(b, p3)?;
    if has {
        let (o, p5) = read_size(b, p4)?;
        Ok((Variable { index, typeid, size, offset: Some(o) }, p5))
    } else {
        Ok((Variable { index, typeid, size, offset: None }, p4))
    }
}

/// `count` variables from `start` on.
pub fn read_variables(b: &[u8], start: usize, count: u64) -> (r: SimpleResult<(Vec<Variable>, usize)>)
    ensures
        decoded_list(r, parse_seq(variable_parser(), b@, start as int, count as nat)),
{
    let mut items: Vec<Variable> = Vec::new();
    let mut at: usize = start;
    let mut i: u64 = 0;
    proof {
        lemma_views_empty::<Variable>();
    }
    while i < count
        invariant
            i <= count,
            parse_seq(variable_parser(), b@, start as int, i as nat) == Some(
                (views(items@), at as int),
            ),
        decreases count - i,
    {
        match read_variable(b, at) {
            Ok((x, q)) => {
                proof {
                    lemma_views_push(items@, x);
                }
                items.push(x);
                at = q;
            },
            Err(e) => {
                proof {
                    assert(parse_seq(variable_parser(), b@, start as int, (i + 1) as nat) is None);
                    lemma_parse_seq_fails(variable_parser(), b@, start as int, (i + 1) as nat, count as nat);
                }
                return Err(e);
            },
        }
        i = i + 1;
    }
    Ok((items, at))
}

// ---------------------------------------------------------------------------
// Structs
// ---------------------------------------------------------------------------

/// A field of a struct: its type, its offset in the struct, its size.
#[derive(Debug)]
pub struct StructField {
    typeid: Type,
    offset: usize,
    size: usize,
}

/// The model of `StructField`.
pub struct FieldModel {
    pub typeid: TypeModel,
    pub offset: usize,
    pub size: usize,
}

impl View for StructField {
    type V = FieldModel;

    closed spec fn view(&self) -> FieldModel {
        FieldModel { typeid: self.typeid@, offset: self.offset, size: self.size }
    }
}

impl StructField {
    pub fn typeid(&self) -> (r: &Type)
        ensures
            r@ == self@.typeid,
    {
        &self.typeid
    }

    pub fn offset(&self) -> (r: usize)
        ensures
            r == self@.offset,
    {
        self.offset
    }

    pub fn size(&self) -> (r: usize)
        ensures
            r == self@.size,
    {
        self.size
    }
}

/// A field: type, offset, size.
pub open spec fn parse_field(b: Seq<u8>, pos: int) -> Option<(FieldModel, int)> {
    match parse_type(b, pos) {
        Some((typeid, p1)) => match parse_size(b, p1) {
            Some((offset, p2)) => match parse_size(b, p2) {
                Some((size, p3)) => Some((FieldModel { typeid, offset, size }, p3)),
                None => None,
            },
            None => None,
        },
        None => None,
    }
}

pub open spec fn field_parser() -> spec_fn(Seq<u8>, int) -> Option<(FieldModel, int)> {
    |b: Seq<u8>, p: int| parse_field(b, p)
}

pub fn read_field(b: &[u8], pos: usize) -> (r: SimpleResult<(StructField, usize)>)
    ensures
        decoded(r, parse_field(b@, pos as int)),
{
    let (typeid, p1) = read_type(b, pos)?;
    let (offset, p2) = read_size(b, p1)?;
    let (size, p3) = read_size(b, p2)?;
    Ok((StructField { typeid, offset, size }, p3))
}

/// A struct of the image: its index, its fields, its size, and whether it
/// is exported.
#[derive(Debug)]
pub struct Struct {
    index: usize,
    fields: Vec<StructField>,
    size: usize,
    export: bool,
}

/// The model of `Struct`.
pub struct StructModel {
    pub index: usize,
    pub fields: Seq<FieldModel>,
    pub size: usize,
    pub export: bool,
}

impl View for Struct {
    type V = StructModel;

    closed spec fn view(&self) -> StructModel {
        StructModel {
            index: self.index,
            fields: views(self.fields@),
            size: self.size,
            export: self.export,
        }
    }
}

impl Struct {
    pub fn index(&self) -> (r: usize)
        ensures
            r == self@.index,
    {
        self.index
    }

    pub fn fields(&self) -> (r: &[StructField])
        ensures
            views(r@) == self@.fields,
    {
        self.fields.as_slice()
    }

    pub fn size(&self) -> (r: usize)
        ensures
            r == self@.size,
    {
        self.size
    }

    pub fn export(&self) -> (r: bool)
        ensures
            r == self@.export,
    {
        self.export
    }
}

/// A struct: index, the number of fields, the fields, size, export flag.
pub open spec fn parse_struct(b: Seq<u8>, pos: int) -> Option<(StructModel, int)> {
    match parse_size(b, pos) {
        Some((index, p1)) => match parse_u64(b, p1) {
            Some((n, p2)) => match parse_seq(field_parser(), b, p2, n as nat) {
                Some((fields, p3)) => match parse_size(b, p3) {
                    Some((size, p4)) => match parse_flag(b, p4) {
                        Some((export, p5)) => Some(
                            (StructModel { index, fields, size, export }, p5),
                        ),
                        None => None,
                    },
                    None => None,
                },
                None => None,
            },
            None => None,
        },
        None => None,
    }
}

pub open spec fn struct_parser() -> spec_fn(Seq<u8>, int) -> Option<(StructModel, int)> {
    |b: Seq<u8>, p: int| parse_struct(b, p)
}

pub fn read_struct(b: &[u8], pos: usize) -> (r: SimpleResult<(Struct, usize)>)
    ensures
        decoded(r, parse_struct(b@, pos as int)),
{
    let (index, p1) = read_size(b, pos)?;
    let (count, start) = read_u64(b, p1)?;
    let mut fields: Vec<StructField> = Vec::new();
    let mut at: usize = start;
    let mut i: u64 = 0;
    proof {
        lemma_views_empty::<StructField>();
    }
    while i < count
        invariant
            i <= count,
            parse_size(b@, pos as int) == Some((index, p1 as int)),
            parse_u64(b@, p1 as int) == Some((count, start as int)),
            parse_seq(field_parser(), b@, start as int, i as nat) == Some(
                (views(fields@), at as int),
            ),
        decreases count - i,
    {
        match read_field(b, at) {
            Ok((x, q)) => {
                proof {
                    lemma_views_push(fields@, x);
                }
                fields.push(x);
                at = q;
            },
            Err(e) => {
                proof {
                    assert(parse_seq(field_parser(), b@, start as int, (i + 1) as nat) is None);
                    lemma_parse_seq_fails(field_parser(), b@, start as int, (i + 1) as nat, count as nat);
                }
                return Err(e);
            },
        }
        i = i + 1;
    }
    let (size, p4) = read_size(b, at)?;
    let (export, p5) = read_flag(b, p4)?;
    Ok((Struct { index, fields, size, export }, p5))
}

// ---------------------------------------------------------------------------
// Functions
// ---------------------------------------------------------------------------

/// The header of a function: its index, parameters, return type, locals,
/// where it lives if it is external, and whether it is exported.
#[derive(Debug)]
pub struct Function {
    index: usize,
    params: Vec<Variable>,
    typeid: Option<Type>,
    locals: Vec<Variable>,
    external: Option<(String, String)>,
    export: bool,
}

/// The model of `Function`.
pub struct FunctionModel {
    pub index: usize,
    pub params: Seq<VariableModel>,
    pub typeid: Option<TypeModel>,
    pub locals: Seq<VariableModel>,
    pub external: Option<(Seq<char>, Seq<char>)>,
    pub export: bool,
}

impl View for Function {
    type V = FunctionModel;

    closed spec fn view(&self) -> FunctionModel {
        FunctionModel {
            index: self.index,
            params: views(self.params@),
            typeid: match self.typeid {
                Some(t) => Some(t@),
                None => None,
            },
            locals: views(self.locals@),
            external: match self.external {
                Some((m, f)) => Some((m@, f@)),
                None => None,
            },
            export: self.export,
        }
    }
}

impl Function {
    pub fn index(&self) -> (r: usize)
        ensures
            r == self@.index,
    {
        self.index
    }

    pub fn params(&self) -> (r: &[Variable])
        ensures
            views(r@) == self@.params,
    {
        self.params.as_slice()
    }

    pub fn typeid(&self) -> (r: &Option<Type>)
        ensures
            r is Some <==> self@.typeid is Some,
            r matches Some(t) ==> self@.typeid == Some(t@),
    {
        &self.typeid
    }

    pub fn locals(&self) -> (r: &[Variable])
        ensures
            views(r@) == self@.locals,
    {
        self.locals.as_slice()
    }

    pub fn external(&self) -> (r: &Option<(String, String)>)
        ensures
            r is Some <==> self@.external is Some,
            r matches Some(x) ==> self@.external == Some((x.0@, x.1@)),
    {
        &self.external
    }

    pub fn export(&self) -> (r: bool)
        ensures
            r == self@.export,
    {
        self.export
    }
}

/// The optional return type of a function: a flag, then the type.
pub open spec fn parse_return_type(b: Seq<u8>, pos: int) -> Option<(Option<TypeModel>, int)> {
    match parse_flag(b, pos) {
        Some((has, p)) => if has {
            match parse_type(b, p) {
                Some((t, q)) => Some((Some(t), q)),
                None => None,
            }
        } else {
            Some((None, p))
        },
        None => None,
    }
}

/// The optional place of an external function: a flag, then the module's
/// and the function's name.
pub open spec fn parse_external(b: Seq<u8>, pos: int) -> Option<
    (Option<(Seq<char>, Seq<char>)>, int),
> {
    match parse_flag(b, pos) {
        Some((has, p)) => if has {
            match parse_string(b, p) {
                Some((m, q)) => match parse_string(b, q) {
                    Some((f, r)) => Some((Some((m, f)), r)),
                    None => None,
                },
                None => None,
            }
        } else {
            Some((None, p))
        },
        None => None,
    }
}

/// A function header: index, parameters, return type, locals, external
/// place, export flag.
pub open spec fn parse_function(b: Seq<u8>, pos: int) -> Option<(FunctionModel, int)> {
    match parse_size(b, pos) {
        Some((index, p1)) => match parse_u64(b, p1) {
            Some((np, p2)) => match parse_seq(variable_parser(), b, p2, np as nat) {
                Some((params, p3)) => match parse_return_type(b, p3) {
                    Some((typeid, p4)) => match parse_u64(b, p4) {
                        Some((nl, p5)) => match parse_seq(variable_parser(), b, p5, nl as nat) {
                            Some((locals, p6)) => match parse_external(b, p6) {
                                Some((external, p7)) => match parse_flag(b, p7) {
                                    Some((export, p8)) => Some(
                                        (
                                            FunctionModel {
                                                index,
                                                params,
                                                typeid,
                                                locals,
                                                external,
                                                export,
                                            },
                                            p8,
                                        ),
                                    ),
                                    None => None,
                                },
                                None => None,
                            },
                            None => None,
                        },
                        None => None,
                    },
                    None => None,
                },
                None => None,
            },
            None => None,
        },
        None => None,
    }
}

pub open spec fn function_parser() -> spec_fn(Seq<u8>, int) -> Option<(FunctionModel, int)> {
    |b: Seq<u8>, p: int| parse_function(b, p)
}

pub fn read_function(b: &[u8], pos: usize) -> (r: SimpleResult<(Function, usize)>)
    ensures
        decoded(r, parse_function(b@, pos as int)),
{
    let (index, p1) = read_size(b, pos)?;
    let (np, p2) = read_u64(b, p1)?;
    let (params, p3) = read_variables(b, p2, np)?;
    let (has_type, p3a) = read_flag(b, p3)?;
    let (typeid, p4) = if has_type {
        let (t, q) = read_type(b, p3a)?;
        (Some(t), q)
    } else {
        (None, p3a)
    };
    let (nl, p5) = read_u64(b, p4)?;
    let (locals, p6) = read_variables(b, p5, nl)?;
    let (is_external, p6a) = read_flag(b, p6)?;
    let (external, p7) = if is_external {
        let (m, q) = read_string(b, p6a)?;
        let (f, r) = read_string(b, q)?;
        (Some((m, f)), r)
    } else {
        (None, p6a)
    };
    let (export, p8) = read_flag(b, p7)?;
    Ok((Function { index, params, typeid, locals, external, export }, p8))
}

// ---------------------------------------------------------------------------
// Constant data
// ---------------------------------------------------------------------------

/// The tag of a constant in the data pool.
#[derive(Debug, Clone, Copy, PartialEq, Eq, Structural)]
pub enum DataType {
    Unknown,
    I8,
    U8,
    I16,
    U16,
    I32,
    U32,
    I64,
    U64,
    F32,
    F64,
    Isize,
    Usize,
    StringU8,
}

/// The tag that a byte stands for, if it stands for one.
pub open spec fn data_type_of(v: u8) -> Option<DataType> {
    if v == 0 {
        Some(DataType::Unknown)
    } else if v == 1 {
        Some(DataType::I8)
    } else if v == 2 {
        Some(DataType::U8)
    } else if v == 3 {
        Some(DataType::I16)
    } else if v == 4 {
        Some(DataType::U16)
    } else if v == 5 {
        Some(DataType::I32)
    } else if v == 6 {
        Some(DataType::U32)
    } else if v == 7 {
        Some(DataType::I64)
    } else if v == 8 {
        Some(DataType::U64)
    } else if v == 9 {
        Some(DataType::F32)
    } else if v == 10 {
        Some(DataType::F64)
    } else if v == 11 {
        Some(DataType::Isize)
    } else if v == 12 {
        Some(DataType::Usize)
    } else if v == 13 {
        Some(DataType::StringU8)
    } else {
        None
    }
}

impl DataType {
    /// The byte that stands for the tag.
    pub open spec fn code(self) -> u8 {
        match self {
            DataType::Unknown => 0,
            DataType::I8 => 1,
            DataType::U8 => 2,
            DataType::I16 => 3,
            DataType::U16 => 4,
            DataType::I32 => 5,
            DataType::U32 => 6,
            DataType::I64 => 7,
            DataType::U64 => 8,
            DataType::F32 => 9,
            DataType::F64 => 10,
            DataType::Isize => 11,
            DataType::Usize => 12,
            DataType::StringU8 => 13,
        }
    }

    /// The tag that `v` stands for; none above 13.
    pub fn from_byte(v: u8) -> (r: Option<DataType>)
        ensures
            r == data_type_of(v),
            r matches Some(t) ==> t.code() == v,
    {
        match v {
            0 => Some(DataType::Unknown),
            1 => Some(DataType::I8),
            2 => Some(DataType::U8),
            3 => Some(DataType::I16),
            4 => Some(DataType::U16),
            5 => Some(DataType::I32),
            6 => Some(DataType::U32),
            7 => Some(DataType::I64),
            8 => Some(DataType::U64),
            9 => Some(DataType::F32),
            10 => Some(DataType::F64),
            11 => Some(DataType::Isize),
            12 => Some(DataType::Usize),
            13 => Some(DataType::StringU8),
            _ => None,
        }
    }

    /// The byte that stands for the tag.
    pub fn to_byte(self) -> (v: u8)
        ensures
            v == self.code(),
            data_type_of(v) == Some(self),
    {
        match self {
            DataType::Unknown => 0,
            DataType::I8 => 1,
            DataType::U8 => 2,
            DataType::I16 => 3,
            DataType::U16 => 4,
            DataType::I32 => 5,
            DataType::U32 => 6,
            DataType::I64 => 7,
            DataType::U64 => 8,
            DataType::F32 => 9,
            DataType::F64 => 10,
            DataType::Isize => 11,
            DataType::Usize => 12,
            DataType::StringU8 => 13,
        }
    }
}

/// A constant of the data pool. A floating-point constant is held by its
/// IEEE 754 bit pattern.
#[derive(Debug, Clone)]
pub enum Data {
    I8(i8),
    U8(u8),
    I16(i16),
    U16(u16),
    I32(i32),
    U32(u32),
    I64(i64),
    U64(u64),
    F32(u32),
    F64(u64),
    Isize(isize),
    Usize(usize),
    String(String),
}

/// The model of `Data`.
pub enum DataModel {
    I8(i8),
    U8(u8),
    I16(i16),
    U16(u16),
    I32(i32),
    U32(u32),
    I64(i64),
    U64(u64),
    F32(u32),
    F64(u64),
    Isize(isize),
    Usize(usize),
    String(Seq<char>),
}

impl View for Data {
    type V = DataModel;

    open spec fn view(&self) -> DataModel {
        match self {
            Data::I8(v) => DataModel::I8(*v),
            Data::U8(v) => DataModel::U8(*v),
            Data::I16(v) => DataModel::I16(*v),
            Data::U16(v) => DataModel::U16(*v),
            Data::I32(v) => DataModel::I32(*v),
            Data::U32(v) => DataModel::U32(*v),
            Data::I64(v) => DataModel::I64(*v),
            Data::U64(v) => DataModel::U64(*v),
            Data::F32(v) => DataModel::F32(*v),
            Data::F64(v) => DataModel::F64(*v),
            Data::Isize(v) => DataModel::Isize(*v),
            Data::Usize(v) => DataModel::Usize(*v),
            Data::String(v) => DataModel::String(v@),
        }
    }
}

/// The number of bytes of a host word: four or eight.
pub open spec fn word_size() -> nat {
    vstd::layout::size_of::<usize>()
}

/// The number of bytes of a host word.
pub fn host_word_size() -> (w: usize)
    ensures
        w == word_size(),
        w == 4 || w == 8,
{
    broadcast use vstd::layout::layout_of_primitives;

    core::mem::size_of::<usize>()
}

/// A host-width unsigned constant: four or eight bytes, by the host's word.
pub open spec fn parse_word(b: Seq<u8>, pos: int) -> Option<(u64, int)> {
    if word_size() == 8 {
        parse_u64(b, pos)
    } else {
        match parse_u32(b, pos) {
            Some((v, p)) => Some((v as u64, p)),
            None => None,
        }
    }
}

/// A constant: a tag from 1 to 13, then the value in the tag's width.
pub open spec fn parse_data(b: Seq<u8>, pos: int) -> Option<(DataModel, int)> {
    match parse_u8(b, pos) {
        Some((tag, p)) => if tag == 1 {
            match parse_u8(b, p) {
                Some((v, q)) => Some((DataModel::I8(v as i8), q)),
                None => None,
            }
        } else if tag == 2 {
            match parse_u8(b, p) {
                Some((v, q)) => Some((DataModel::U8(v), q)),
                None => None,
            }
        } else if tag == 3 {
            match parse_u16(b, p) {
                Some((v, q)) => Some((DataModel::I16(v as i16), q)),
                None => None,
            }
        } else if tag == 4 {
            match parse_u16(b, p) {
                Some((v, q)) => Some((DataModel::U16(v), q)),
                None => None,
            }
        } else if tag == 5 {
            match parse_u32(b, p) {
                Some((v, q)) => Some((DataModel::I32(v as i32), q)),
                None => None,
            }
        } else if tag == 6 {
            match parse_u32(b, p) {
                Some((v, q)) => Some((DataModel::U32(v), q)),
                None => None,
            }
        } else if tag == 7 {
            match parse_u64(b, p) {
                Some((v, q)) => Some((DataModel::I64(v as i64), q)),
                None => None,
            }
        } else if tag == 8 {
            match parse_u64(b, p) {
                Some((v, q)) => Some((DataModel::U64(v), q)),
                None => None,
            }
        } else if tag == 9 {
            match parse_u32(b, p) {
                Some((v, q)) => Some((DataModel::F32(v), q)),
                None => None,
            }
        } else if tag == 10 {
            match parse_u64(b, p) {
                Some((v, q)) => Some((DataModel::F64(v), q)),
                None => None,
            }
        } else if tag == 11 {
            match parse_word(b, p) {
                Some((v, q)) => if word_size() == 8 {
                    Some((DataModel::Isize((v as i64) as isize), q))
                } else {
                    Some((DataModel::Isize(((v as u32) as i32) as isize), q))
                },
                None => None,
            }
        } else if tag == 12 {
            match parse_word(b, p) {
                Some((v, q)) => Some((DataModel::Usize(v as usize), q)),
                None => None,
            }
        } else if tag == 13 {
            match parse_string(b, p) {
                Some((v, q)) => Some((DataModel::String(v), q)),
                None => None,
            }
        } else {
            None
        },
        None => None,
    }
}

pub open spec fn data_parser() -> spec_fn(Seq<u8>, int) -> Option<(DataModel, int)> {
    |b: Seq<u8>, p: int| parse_data(b, p)
}

fn read_word(b: &[u8], pos: usize) -> (r: SimpleResult<(u64, usize)>)
    ensures
        decoded(r, parse_word(b@, pos as int)),
{
    if host_word_size() == 8 {
        read_u64(b, pos)
    } else {
        let (v, p) = read_u32(b, pos)?;
        Ok((v as u64, p))
    }
}

pub fn read_data(b: &[u8], pos: usize) -> (r: SimpleResult<(Data, usize)>)
    ensures
        decoded(r, parse_data(b@, pos as int)),
{
    let (tag, p) = read_u8(b, pos)?;
    match DataType::from_byte(tag) {
        Some(DataType::I8) => {
            let (v, q) = read_u8(b, p)?;
            Ok((Data::I8(v as i8), q))
        },
        Some(DataType::U8) => {
            let (v, q) = read_u8(b, p)?;
            Ok((Data::U8(v), q))
        },
        Some(DataType::I16) => {
            let (v, q) = read_u16(b, p)?;
            Ok((Data::I16(v as i16), q))
        },
        Some(DataType::U16) => {
            let (v, q) = read_u16(b, p)?;
            Ok((Data::U16(v), q))
        },
        Some(DataType::I32) => {
            let (v, q) = read_u32(b, p)?;
            Ok((Data::I32(v as i32), q))
        },
        Some(DataType::U32) => {
            let (v, q) = read_u32(b, p)?;
            Ok((Data::U32(v), q))
        },
        Some(DataType::I64) => {
            let (v, q) = read_u64(b, p)?;
            Ok((Data::I64(v as i64), q))
        },
        Some(DataType::U64) => {
            let (v, q) = read_u64(b, p)?;
            Ok((Data::U64(v), q))
        },
        Some(DataType::F32) => {
            let (v, q) = read_u32(b, p)?;
            Ok((Data::F32(v), q))
        },
        Some(DataType::F64) => {
            let (v, q) = read_u64(b, p)?;
            Ok((Data::F64(v), q))
        },
        Some(DataType::Isize) => {
            let (v, q) = read_word(b, p)?;
            if host_word_size() == 8 {
                Ok((Data::Isize((v as i64) as isize), q))
            } else {
                Ok((Data::Isize(((v as u32) as i32) as isize), q))
            }
        },
        Some(DataType::Usize) => {
            let (v, q) = read_word(b, p)?;
            Ok((Data::Usize(v as usize), q))
        },
        Some(DataType::StringU8) => {
            let (v, q) = read_string(b, p)?;
            Ok((Data::String(v), q))
        },
        _ => bad("a constant in the image has an unknown tag"),
    }
}

// ---------------------------------------------------------------------------
// Names and bodies
// ---------------------------------------------------------------------------

/// An exported name: the index of what it names, then the name.
pub open spec fn parse_export(b: Seq<u8>, pos: int) -> Option<((Seq<char>, usize), int)> {
    match parse_size(b, pos) {
        Some((index, p)) => match parse_string(b, p) {
            Some((id, q)) => Some(((id, index), q)),
            None => None,
        },
        None => None,
    }
}

pub open spec fn export_parser() -> spec_fn(Seq<u8>, int) -> Option<((Seq<char>, usize), int)> {
    |b: Seq<u8>, p: int| parse_export(b, p)
}

/// A label: its name, then its offset in the code.
pub open spec fn parse_label(b: Seq<u8>, pos: int) -> Option<((Seq<char>, usize), int)> {
    match parse_string(b, pos) {
        Some((id, p)) => match parse_size(b, p) {
            Some((address, q)) => Some(((id, address), q)),
            None => None,
        },
        None => None,
    }
}

pub open spec fn label_parser() -> spec_fn(Seq<u8>, int) -> Option<((Seq<char>, usize), int)> {
    |b: Seq<u8>, p: int| parse_label(b, p)
}

pub open spec fn string_parser() -> spec_fn(Seq<u8>, int) -> Option<(Seq<char>, int)> {
    |b: Seq<u8>, p: int| parse_string(b, p)
}

/// What a decoder of a name table owes.
pub open spec fn decoded_names(
    r: SimpleResult<(NameTable<usize>, usize)>,
    expected: Option<(Seq<(Seq<char>, usize)>, int)>,
) -> bool {
    match r {
        Ok((v, p)) => expected == Some((v@, p as int)),
        Err(e) => expected is None && e.kind == ErrorKind::BadAssembly,
    }
}

/// `count` exported names from `start` on.
pub fn read_exports(b: &[u8], start: usize, count: u64) -> (r: SimpleResult<
    (NameTable<usize>, usize),
>)
    ensures
        decoded_names(r, parse_seq(export_parser(), b@, start as int, count as nat)),
{
    let mut items: NameTable<usize> = NameTable::new();
    let mut at: usize = start;
    let mut i: u64 = 0;
    while i < count
        invariant
            i <= count,
            parse_seq(export_parser(), b@, start as int, i as nat) == Some((items@, at as int)),
        decreases count - i,
    {
        proof {
            if parse_export(b@, at as int) is None {
                assert(parse_seq(export_parser(), b@, start as int, (i + 1) as nat) is None);
                lemma_parse_seq_fails(export_parser(), b@, start as int, (i + 1) as nat, count as nat);
            }
        }
        let (index, p) = read_size(b, at)?;
        let (id, q) = read_string(b, p)?;
        items.insert(id, index);
        at = q;
        i = i + 1;
    }
    Ok((items, at))
}

/// `count` labels from `start` on.
pub fn read_labels(b: &[u8], start: usize, count: u64) -> (r: SimpleResult<
    (NameTable<usize>, usize),
>)
    ensures
        decoded_names(r, parse_seq(label_parser(), b@, start as int, count as nat)),
{
    let mut items: NameTable<usize> = NameTable::new();
    let mut at: usize = start;
    let mut i: u64 = 0;
    while i < count
        invariant
            i <= count,
            parse_seq(label_parser(), b@, start as int, i as nat) == Some((items@, at as int)),
        decreases count - i,
    {
        proof {
            if parse_label(b@, at as int) is None {
                assert(parse_seq(label_parser(), b@, start as int, (i + 1) as nat) is None);
                lemma_parse_seq_fails(label_parser(), b@, start as int, (i + 1) as nat, count as nat);
            }
        }
        let (id, p) = read_string(b, at)?;
        let (address, q) = read_size(b, p)?;
        items.insert(id, address);
        at = q;
        i = i + 1;
    }
    Ok((items, at))
}

/// `count` texts from `start` on.
pub fn read_strings(b: &[u8], start: usize, count: u64) -> (r: SimpleResult<(Vec<String>, usize)>)
    ensures
        decoded_list(r, parse_seq(string_parser(), b@, start as int, count as nat)),
{
    let mut items: Vec<String> = Vec::new();
    let mut at: usize = start;
    let mut i: u64 = 0;
    proof {
        lemma_views_empty::<String>();
    }
    while i < count
        invariant
            i <= count,
            parse_seq(string_parser(), b@, start as int, i as nat) == Some(
                (views(items@), at as int),
            ),
        decreases count - i,
    {
        proof {
            if parse_string(b@, at as int) is None {
                assert(parse_seq(string_parser(), b@, start as int, (i + 1) as nat) is None);
                lemma_parse_seq_fails(string_parser(), b@, start as int, (i + 1) as nat, count as nat);
            }
        }
        let (x, q) = read_string(b, at)?;
        proof {
            lemma_views_push(items@, x);
        }
        items.push(x);
        at = q;
        i = i + 1;
    }
    Ok((items, at))
}

/// The body of a function: its labels and its code.
#[derive(Debug)]
pub struct FunctionBody {
    labels: NameTable<usize>,
    code: Vec<u8>,
}

/// The model of `FunctionBody`.
pub struct BodyModel {
    pub labels: Seq<(Seq<char>, usize)>,
    pub code: Seq<u8>,
}

impl View for FunctionBody {
    type V = BodyModel;

    closed spec fn view(&self) -> BodyModel {
        BodyModel { labels: self.labels@, code: self.code@ }
    }
}

impl FunctionBody {
    pub fn labels(&self) -> (r: &NameTable<usize>)
        ensures
            r@ == self@.labels,
    {
        &self.labels
    }

    pub fn code(&self) -> (r: &[u8])
        ensures
            r@ == self@.code,
    {
        self.code.as_slice()
    }
}

/// A body: its length, the length of its labels, their count, the labels,
/// the length of the code, the number of operations, the code. The
/// lengths of the body and of the labels and the number of operations
/// are read and not used.
pub open spec fn parse_body(b: Seq<u8>, pos: int) -> Option<(BodyModel, int)> {
    match parse_u64(b, pos) {
        Some((_total, p1)) => match parse_u64(b, p1) {
            Some((_labels_size, p2)) => match parse_u64(b, p2) {
                Some((n, p3)) => match parse_seq(label_parser(), b, p3, n as nat) {
                    Some((labels, p4)) => match parse_size(b, p4) {
                        Some((size, p5)) => match parse_u64(b, p5) {
                            Some((_ops, p6)) => if p6 + size <= b.len() {
                                Some(
                                    (
                                        BodyModel { labels, code: b.subrange(p6, p6 + size) },
                                        p6 + size,
                                    ),
                                )
                            } else {
                                None
                            },
                            None => None,
                        },
                        None => None,
                    },
                    None => None,
                },
                None => None,
            },
            None => None,
        },
        None => None,
    }
}

pub open spec fn body_parser() -> spec_fn(Seq<u8>, int) -> Option<(BodyModel, int)> {
    |b: Seq<u8>, p: int| parse_body(b, p)
}

pub fn read_body(b: &[u8], pos: usize) -> (r: SimpleResult<(FunctionBody, usize)>)
    ensures
        decoded(r, parse_body(b@, pos as int)),
{
    let (_total, p1) = read_u64(b, pos)?;
    let (_labels_size, p2) = read_u64(b, p1)?;
    let (n, p3) = read_u64(b, p2)?;
    let (labels, p4) = read_labels(b, p3, n)?;
    let (size, p5) = read_size(b, p4)?;
    let (_ops, p6) = read_u64(b, p5)?;
    if size <= b.len() - p6 {
        let code = slice_to_vec(slice_subrange(b, p6, p6 + size));
        Ok((FunctionBody { labels, code }, p6 + size))
    } else {
        bad("the image ends inside the code of a function")
    }
}

// ---------------------------------------------------------------------------
// The image
// ---------------------------------------------------------------------------

/// The magic of an image: `KJP`, then the version, which is 1.
pub open spec fn image_magic() -> Seq<u8> {
    seq![0x4bu8, 0x4au8, 0x50u8, 1u8]
}

/// The header of a table: its size in bytes and the number of its entries.
pub open spec fn parse_table_header(b: Seq<u8>, pos: int) -> Option<((u64, u64), int)> {
    match parse_u64(b, pos) {
        Some((size, p)) => match parse_u64(b, p) {
            Some((count, q)) => Some(((size, count), q)),
            None => None,
        },
        None => None,
    }
}

/// The header of a table whose entries stand behind a table of offsets:
/// the size of the offsets, which are passed over, and the number of
/// entries. The position is that of the first entry.
pub open spec fn parse_offsets(b: Seq<u8>, pos: int) -> Option<(u64, int)> {
    match parse_table_header(b, pos) {
        Some(((size, count), p)) => if p + size <= b.len() {
            Some((count, p + size))
        } else {
            None
        },
        None => None,
    }
}

fn read_table_header(b: &[u8], pos: usize) -> (r: SimpleResult<((u64, u64), usize)>)
    ensures
        decoded(r, parse_table_header(b@, pos as int)),
{
    let (size, p) = read_u64(b, pos)?;
    let (count, q) = read_u64(b, p)?;
    Ok(((size, count), q))
}

fn read_offsets(b: &[u8], pos: usize) -> (r: SimpleResult<(u64, usize)>)
    ensures
        decoded(r, parse_offsets(b@, pos as int)),
{
    let ((size, count), p) = read_table_header(b, pos)?;
    if size <= (b.len() - p) as u64 {
        Ok((count, p + size as usize))
    } else {
        bad("the image ends inside a table of offsets")
    }
}

/// `count` structs from `start` on.
pub fn read_structs(b: &[u8], start: usize, count: u64) -> (r: SimpleResult<(Vec<Struct>, usize)>)
    ensures
        decoded_list(r, parse_seq(struct_parser(), b@, start as int, count as nat)),
{
    let mut items: Vec<Struct> = Vec::new();
    let mut at: usize = start;
    let mut i: u64 = 0;
    proof {
        lemma_views_empty::<Struct>();
    }
    while i < count
        invariant
            i <= count,
            parse_seq(struct_parser(), b@, start as int, i as nat) == Some(
                (views(items@), at as int),
            ),
        decreases count - i,
    {
        proof {
            if parse_struct(b@, at as int) is None {
                assert(parse_seq(struct_parser(), b@, start as int, (i + 1) as nat) is None);
                lemma_parse_seq_fails(struct_parser(), b@, start as int, (i + 1) as nat, count as nat);
            }
        }
        let (x, q) = read_struct(b, at)?;
        proof {
            lemma_views_push(items@, x);
        }
        items.push(x);
        at = q;
        i = i + 1;
    }
    Ok((items, at))
}

/// `count` function headers from `start` on.
pub fn read_functions(b: &[u8], start: usize, count: u64) -> (r: SimpleResult<
    (Vec<Function>, usize),
>)
    ensures
        decoded_list(r, parse_seq(function_parser(), b@, start as int, count as nat)),
{
    let mut items: Vec<Function> = Vec::new();
    let mut at: usize = start;
    let mut i: u64 = 0;
    proof {
        lemma_views_empty::<Function>();
    }
    while i < count
        invariant
            i <= count,
            parse_seq(function_parser(), b@, start as int, i as nat) == Some(
                (views(items@), at as int),
            ),
        decreases count - i,
    {
        proof {
            if parse_function(b@, at as int) is None {
                assert(parse_seq(function_parser(), b@, start as int, (i + 1) as nat) is None);
                lemma_parse_seq_fails(function_parser(), b@, start as int, (i + 1) as nat, count as nat);
            }
        }
        let (x, q) = read_function(b, at)?;
        proof {
            lemma_views_push(items@, x);
        }
        items.push(x);
        at = q;
        i = i + 1;
    }
    Ok((items, at))
}

/// `count` constants from `start` on.
pub fn read_data_pool(b: &[u8], start: usize, count: u64) -> (r: SimpleResult<(Vec<Data>, usize)>)
    ensures
        decoded_list(r, parse_seq(data_parser(), b@, start as int, count as nat)),
{
    let mut items: Vec<Data> = Vec::new();
    let mut at: usize = start;
    let mut i: u64 = 0;
    proof {
        lemma_views_empty::<Data>();
    }
    while i < count
        invariant
            i <= count,
            parse_seq(data_parser(), b@, start as int, i as nat) == Some(
                (views(items@), at as int),
            ),
        decreases count - i,
    {
        proof {
            if parse_data(b@, at as int) is None {
                assert(parse_seq(data_parser(), b@, start as int, (i + 1) as nat) is None);
                lemma_parse_seq_fails(data_parser(), b@, start as int, (i + 1) as nat, count as nat);
            }
        }
        let (x, q) = read_data(b, at)?;
        proof {
            lemma_views_push(items@, x);
        }
        items.push(x);
        at = q;
        i = i + 1;
    }
    Ok((items, at))
}

/// `count` bodies from `start` on.
pub fn read_bodies(b: &[u8], start: usize, count: u64) -> (r: SimpleResult<
    (Vec<FunctionBody>, usize),
>)
    ensures
        decoded_list(r, parse_seq(body_parser(), b@, start as int, count as nat)),
{
    let mut items: Vec<FunctionBody> = Vec::new();
    let mut at: usize = start;
    let mut i: u64 = 0;
    proof {
        lemma_views_empty::<FunctionBody>();
    }
    while i < count
        invariant
            i <= count,
            parse_seq(body_parser(), b@, start as int, i as nat) == Some(
                (views(items@), at as int),
            ),
        decreases count - i,
    {
        proof {
            if parse_body(b@, at as int) is None {
                assert(parse_seq(body_parser(), b@, start as int, (i + 1) as nat) is None);
                lemma_parse_seq_fails(body_parser(), b@, start as int, (i + 1) as nat, count as nat);
            }
        }
        let (x, q) = read_body(b, at)?;
        proof {
            lemma_views_push(items@, x);
        }
        items.push(x);
        at = q;
        i = i + 1;
    }
    Ok((items, at))
}

/// A decoded image. It does not change after it was read.
#[derive(Debug)]
pub struct VmAssembly {
    export_structs: NameTable<usize>,
    export_functions: NameTable<usize>,
    structs: Vec<Struct>,
    functions: Vec<Function>,
    data: Vec<Data>,
    globals_size: usize,
    ops: Vec<String>,
    bodies: Vec<FunctionBody>,
}

/// The model of `VmAssembly`.
pub struct ImageModel {
    pub export_structs: Seq<(Seq<char>, usize)>,
    pub export_functions: Seq<(Seq<char>, usize)>,
    pub structs: Seq<StructModel>,
    pub functions: Seq<FunctionModel>,
    pub data: Seq<DataModel>,
    pub globals_size: usize,
    pub ops: Seq<Seq<char>>,
    pub bodies: Seq<BodyModel>,
}

impl View for VmAssembly {
    type V = ImageModel;

    closed spec fn view(&self) -> ImageModel {
        ImageModel {
            export_structs: self.export_structs@,
            export_functions: self.export_functions@,
            structs: views(self.structs@),
            functions: views(self.functions@),
            data: views(self.data@),
            globals_size: self.globals_size,
            ops: views(self.ops@),
            bodies: views(self.bodies@),
        }
    }
}

/// The tables of an image, from the byte after the magic on: exported
/// structs, exported functions, structs, functions, constants, the size
/// of the globals, operation names, bodies.
pub open spec fn parse_tables(b: Seq<u8>, pos: int) -> Option<ImageModel> {
    match parse_table_header(b, pos) {
        Some(((_s1, n1), p1)) => match parse_seq(export_parser(), b, p1, n1 as nat) {
            Some((export_structs, p2)) => match parse_table_header(b, p2) {
                Some(((_s2, n2), p3)) => match parse_seq(export_parser(), b, p3, n2 as nat) {
                    Some((export_functions, p4)) => match parse_offsets(b, p4) {
                        Some((n3, p5)) => match parse_seq(struct_parser(), b, p5, n3 as nat) {
                            Some((structs, p6)) => match parse_offsets(b, p6) {
                                Some((n4, p7)) => match parse_seq(
                                    function_parser(),
                                    b,
                                    p7,
                                    n4 as nat,
                                ) {
                                    Some((functions, p8)) => parse_tables_tail(
                                        b,
                                        p8,
                                        export_structs,
                                        export_functions,
                                        structs,
                                        functions,
                                    ),
                                    None => None,
                                },
                                None => None,
                            },
                            None => None,
                        },
                        None => None,
                    },
                    None => None,
                },
                None => None,
            },
            None => None,
        },
        None => None,
    }
}

/// The tables after the function headers: constants, the size of the
/// globals, operation names, bodies.
pub open spec fn parse_tables_tail(
    b: Seq<u8>,
    pos: int,
    export_structs: Seq<(Seq<char>, usize)>,
    export_functions: Seq<(Seq<char>, usize)>,
    structs: Seq<StructModel>,
    functions: Seq<FunctionModel>,
) -> Option<ImageModel> {
    match parse_table_header(b, pos) {
        Some(((_s5, n5), p1)) => match parse_seq(data_parser(), b, p1, n5 as nat) {
            Some((data, p2)) => match parse_size(b, p2) {
                Some((globals_size, p3)) => match parse_table_header(b, p3) {
                    Some(((_s6, n6), p4)) => match parse_seq(string_parser(), b, p4, n6 as nat) {
                        Some((ops, p5)) => match parse_offsets(b, p5) {
                            Some((n7, p6)) => match parse_seq(body_parser(), b, p6, n7 as nat) {
                                Some((bodies, _end)) => Some(
                                    ImageModel {
                                        export_structs,
                                        export_functions,
                                        structs,
                                        functions,
                                        data,
                                        globals_size,
                                        ops,
                                        bodies,
                                    },
                                ),
                                None => None,
                            },
                            None => None,
                        },
                        None => None,
                    },
                    None => None,
                },
                None => None,
            },
            None => None,
        },
        None => None,
    }
}

/// What the bytes of an image mean: the magic, then the tables. Bytes
/// after the last body are not looked at.
pub open spec fn parse_image(b: Seq<u8>) -> Option<ImageModel> {
    if b.len() >= 4 && b.subrange(0, 4) == image_magic() {
        parse_tables(b, 4)
    } else {
        None
    }
}

/// True when `b` begins with the magic of an image.
fn has_magic(b: &[u8]) -> (r: bool)
    ensures
        r == (b@.len() >= 4 && b@.subrange(0, 4) == image_magic()),
{
    if b.len() >= 4 {
        let ghost m = b@.subrange(0, 4);
        assert(m[0] == b@[0] && m[1] == b@[1] && m[2] == b@[2] && m[3] == b@[3]);
        let r = b[0] == 0x4b && b[1] == 0x4a && b[2] == 0x50 && b[3] == 1;
        if r {
            assert(m =~= image_magic());
        } else {
            assert(image_magic()[0] == 0x4b && image_magic()[1] == 0x4a && image_magic()[2] == 0x50
                && image_magic()[3] == 1);
        }
        r
    } else {
        false
    }
}

impl VmAssembly {
    /// Decodes an image. It fails with `BadAssembly` exactly on the bytes
    /// that are no image.
    pub fn new(bytes: Vec<u8>) -> (r: SimpleResult<Self>)
        ensures
            match r {
                Ok(a) => parse_image(bytes@) == Some(a@),
                Err(e) => parse_image(bytes@) is None && e.kind == ErrorKind::BadAssembly,
            },
    {
        let b = bytes.as_slice();
        if has_magic(b) {
            Self::new_v1(b)
        } else {
            bad("the image has an unknown magic or version")
        }
    }

    fn new_v1(b: &[u8]) -> (r: SimpleResult<Self>)
        requires
            b@.len() >= 4,
        ensures
            match r {
                Ok(a) => parse_tables(b@, 4) == Some(a@),
                Err(e) => parse_tables(b@, 4) is None && e.kind == ErrorKind::BadAssembly,
            },
    {
        let ((_s1, n1), p1) = read_table_header(b, 4)?;
        let (export_structs, p2) = read_exports(b, p1, n1)?;
        let ((_s2, n2), p3) = read_table_header(b, p2)?;
        let (export_functions, p4) = read_exports(b, p3, n2)?;
        let (n3, p5) = read_offsets(b, p4)?;
        let (structs, p6) = read_structs(b, p5, n3)?;
        let (n4, p7) = read_offsets(b, p6)?;
        let (functions, p8) = read_functions(b, p7, n4)?;
        let ((_s5, n5), p9) = read_table_header(b, p8)?;
        let (data, p10) = read_data_pool(b, p9, n5)?;
        let (globals_size, p11) = read_size(b, p10)?;
        let ((_s6, n6), p12) = read_table_header(b, p11)?;
        let (ops, p13) = read_strings(b, p12, n6)?;
        let (n7, p14) = read_offsets(b, p13)?;
        let (bodies, _end) = read_bodies(b, p14, n7)?;
        Ok(
            VmAssembly {
                export_structs,
                export_functions,
                structs,
                functions,
                data,
                globals_size,
                ops,
                bodies,
            },
        )
    }
}

/// The item that a table of exported names gives for `id`: the one at the
/// index entered under `id`, where `items` has that index.
pub open spec fn named<T>(table: Seq<(Seq<char>, usize)>, items: Seq<T>, id: Seq<char>) -> Option<T> {
    match lookup(table, id) {
        Some(i) => if i < items.len() {
            Some(items[i as int])
        } else {
            None
        },
        None => None,
    }
}

/// The item at `i`, where `items` has that index.
pub open spec fn indexed<T>(items: Seq<T>, i: usize) -> Option<T> {
    if i < items.len() {
        Some(items[i as int])
    } else {
        None
    }
}

/// The size in bytes of a value of type `t`: that of the struct for an
/// identifier, a host word for a pointer, the sum of the parts for a
/// tuple. None where `t` names a struct that the image does not have.
pub open spec fn type_size_of(structs: Seq<StructModel>, t: TypeModel) -> Option<nat>
    decreases t,
{
    match t {
        TypeModel::Identifier(i) => if i < structs.len() {
            Some(structs[i as int].size as nat)
        } else {
            None
        },
        TypeModel::Pointer(_) => Some(word_size()),
        TypeModel::Tuple(ts) => tuple_size_of(structs, ts),
    }
}

/// The sum of the sizes of the types `ts`.
pub open spec fn tuple_size_of(structs: Seq<StructModel>, ts: Seq<TypeModel>) -> Option<nat>
    decreases ts,
{
    if ts.len() == 0 {
        Some(0)
    } else {
        match (tuple_size_of(structs, ts.drop_last()), type_size_of(structs, ts.last())) {
            (Some(a), Some(b)) => Some(a + b),
            _ => None,
        }
    }
}

/// Where a tuple has a size, each of its prefixes has one, and a prefix
/// with the part after it is no larger than the whole.
pub proof fn lemma_tuple_size_prefix(structs: Seq<StructModel>, ts: Seq<TypeModel>, k: int)
    requires
        0 <= k <= ts.len(),
        tuple_size_of(structs, ts) is Some,
    ensures
        tuple_size_of(structs, ts.take(k)) is Some,
        tuple_size_of(structs, ts.take(k)).unwrap() <= tuple_size_of(structs, ts).unwrap(),
        k < ts.len() ==> type_size_of(structs, ts[k]) is Some && tuple_size_of(
            structs,
            ts.take(k),
        ).unwrap() + type_size_of(structs, ts[k]).unwrap() <= tuple_size_of(structs, ts).unwrap(),
    decreases ts.len(),
{
    if k == ts.len() {
        assert(ts.take(k) =~= ts);
    } else {
        let shorter = ts.drop_last();
        assert(shorter.take(k) =~= ts.take(k));
        lemma_tuple_size_prefix(structs, shorter, k);
        if k == ts.len() - 1 {
            assert(shorter.take(k) =~= shorter);
        }
    }
}

impl VmAssembly {
    pub fn export_structs(&self) -> (r: &NameTable<usize>)
        ensures
            r@ == self@.export_structs,
    {
        &self.export_structs
    }

    pub fn export_functions(&self) -> (r: &NameTable<usize>)
        ensures
            r@ == self@.export_functions,
    {
        &self.export_functions
    }

    pub fn structs(&self) -> (r: &[Struct])
        ensures
            views(r@) == self@.structs,
    {
        self.structs.as_slice()
    }

    pub fn functions(&self) -> (r: &[Function])
        ensures
            views(r@) == self@.functions,
    {
        self.functions.as_slice()
    }

    pub fn data(&self) -> (r: &[Data])
        ensures
            views(r@) == self@.data,
    {
        self.data.as_slice()
    }

    pub fn globals_size(&self) -> (r: usize)
        ensures
            r == self@.globals_size,
    {
        self.globals_size
    }

    /// The names of the operations, each at the index by which the code
    /// refers to it.
    pub fn ops_map(&self) -> (r: &[String])
        ensures
            views(r@) == self@.ops,
    {
        self.ops.as_slice()
    }

    pub fn functions_code(&self) -> (r: &[FunctionBody])
        ensures
            views(r@) == self@.bodies,
    {
        self.bodies.as_slice()
    }

    /// The exported struct of the name `id`.
    pub fn struct_by_id(&self, id: &str) -> (r: Option<&Struct>)
        ensures
            match r {
                Some(s) => named(self@.export_structs, self@.structs, id@) == Some(s@),
                None => named(self@.export_structs, self@.structs, id@) is None,
            },
    {
        match self.export_structs.get(id) {
            Some(i) => self.struct_by_index(*i),
            None => None,
        }
    }

    /// The exported function of the name `id`.
    pub fn function_by_id(&self, id: &str) -> (r: Option<&Function>)
        ensures
            match r {
                Some(f) => named(self@.export_functions, self@.functions, id@) == Some(f@),
                None => named(self@.export_functions, self@.functions, id@) is None,
            },
    {
        match self.export_functions.get(id) {
            Some(i) => self.function_by_index(*i),
            None => None,
        }
    }

    /// The body of the exported function of the name `id`.
    pub fn function_body_by_id(&self, id: &str) -> (r: Option<&FunctionBody>)
        ensures
            match r {
                Some(f) => named(self@.export_functions, self@.bodies, id@) == Some(f@),
                None => named(self@.export_functions, self@.bodies, id@) is None,
            },
    {
        match self.export_functions.get(id) {
            Some(i) => self.function_body_by_index(*i),
            None => None,
        }
    }

    /// The struct at `index`.
    pub fn struct_by_index(&self, index: usize) -> (r: Option<&Struct>)
        ensures
            match r {
                Some(s) => indexed(self@.structs, index) == Some(s@),
                None => indexed(self@.structs, index) is None,
            },
    {
        if index < self.structs.len() {
            Some(&self.structs[index])
        } else {
            None
        }
    }

    /// The function at `index`.
    pub fn function_by_index(&self, index: usize) -> (r: Option<&Function>)
        ensures
            match r {
                Some(f) => indexed(self@.functions, index) == Some(f@),
                None => indexed(self@.functions, index) is None,
            },
    {
        if index < self.functions.len() {
            Some(&self.functions[index])
        } else {
            None
        }
    }

    /// The body of the function at `index`.
    pub fn function_body_by_index(&self, index: usize) -> (r: Option<&FunctionBody>)
        ensures
            match r {
                Some(f) => indexed(self@.bodies, index) == Some(f@),
                None => indexed(self@.bodies, index) is None,
            },
    {
        if index < self.bodies.len() {
            Some(&self.bodies[index])
        } else {
            None
        }
    }

    /// The size in bytes of a value of type `typeid`. None where the type
    /// names a struct that the image does not have, or where the size
    /// does not fit the host's address range.
    pub fn type_size(&self, typeid: &Type) -> (r: Option<usize>)
        ensures
            match r {
                Some(n) => type_size_of(self@.structs, typeid@) == Some(n as nat),
                None => type_size_of(self@.structs, typeid@) is None || type_size_of(
                    self@.structs,
                    typeid@,
                ).unwrap() > usize::MAX,
            },
        decreases typeid,
    {
        match typeid {
            Type::Identifier(i) => {
                if *i < self.structs.len() {
                    Some(self.structs[*i].size())
                } else {
                    None
                }
            },
            Type::Pointer(_) => Some(host_word_size()),
            Type::Tuple(v) => {
                let ghost structs = self@.structs;
                let ghost ts = views(v@);
                proof {
                    lemma_tuple_view(*v);
                    assert(ts.take(0) =~= Seq::<TypeModel>::empty());
                }
                let mut total: usize = 0;
                let mut i: usize = 0;
                while i < v.len()
                    invariant
                        i <= v@.len(),
                        *typeid == Type::Tuple(*v),
                        structs == self@.structs,
                        ts == views(v@),
                        typeid@ == TypeModel::Tuple(ts),
                        tuple_size_of(structs, ts.take(i as int)) == Some(total as nat),
                    decreases v@.len() - i,
                {
                    proof {
                        if tuple_size_of(structs, ts) is Some {
                            lemma_tuple_size_prefix(structs, ts, i as int);
                        }
                        assert(ts.take(i + 1).drop_last() =~= ts.take(i as int));
                        assert(ts.take(i + 1).last() == ts[i as int]);
                        assert(ts[i as int] == v@[i as int]@);
                    }
                    let part = match self.type_size(&v[i]) {
                        Some(n) => n,
                        None => { return None; },
                    };
                    total = match total.checked_add(part) {
                        Some(n) => n,
                        None => { return None; },
                    };
                    i = i + 1;
                }
                assert(ts.take(i as int) =~= ts);
                Some(total)
            },
        }
    }
}

/// The opcodes of a function's code.
#[derive(Debug, Clone, Copy, PartialEq, Eq, Structural)]
pub enum OpIndex {
    NoOp,
    DataPointer,
    ParamsPointer,
    ResultPointer,
    LocalsPointer,
    GlobalsPointer,
    OffsetPointer,
    ReferencePointer,
    DereferencePointer,
    StoreTargetAddress,
    StoreParamAddress,
    ExecuteOpStart,
    ExecuteOpStop,
    ExecuteOpInlineStart,
    ExecuteOpInlineStop,
    ProduceTuple,
    CallFunction,
}

impl OpIndex {
    /// The byte that stands for the opcode.
    pub open spec fn code(self) -> u8 {
        match self {
            OpIndex::NoOp => 0,
            OpIndex::DataPointer => 1,
            OpIndex::ParamsPointer => 2,
            OpIndex::ResultPointer => 3,
            OpIndex::LocalsPointer => 4,
            OpIndex::GlobalsPointer => 5,
            OpIndex::OffsetPointer => 6,
            OpIndex::ReferencePointer => 7,
            OpIndex::DereferencePointer => 8,
            OpIndex::StoreTargetAddress => 9,
            OpIndex::StoreParamAddress => 10,
            OpIndex::ExecuteOpStart => 11,
            OpIndex::ExecuteOpStop => 12,
            OpIndex::ExecuteOpInlineStart => 13,
            OpIndex::ExecuteOpInlineStop => 14,
            OpIndex::ProduceTuple => 15,
            OpIndex::CallFunction => 16,
        }
    }

    /// The opcode that `v` stands for; none above 16.
    pub fn from_byte(v: u8) -> (r: Option<OpIndex>)
        ensures
            v <= 16 <==> r is Some,
            r matches Some(op) ==> op.code() == v,
    {
        match v {
            0 => Some(OpIndex::NoOp),
            1 => Some(OpIndex::DataPointer),
            2 => Some(OpIndex::ParamsPointer),
            3 => Some(OpIndex::ResultPointer),
            4 => Some(OpIndex::LocalsPointer),
            5 => Some(OpIndex::GlobalsPointer),
            6 => Some(OpIndex::OffsetPointer),
            7 => Some(OpIndex::ReferencePointer),
            8 => Some(OpIndex::DereferencePointer),
            9 => Some(OpIndex::StoreTargetAddress),
            10 => Some(OpIndex::StoreParamAddress),
            11 => Some(OpIndex::ExecuteOpStart),
            12 => Some(OpIndex::ExecuteOpStop),
            13 => Some(OpIndex::ExecuteOpInlineStart),
            14 => Some(OpIndex::ExecuteOpInlineStop),
            15 => Some(OpIndex::ProduceTuple),
            16 => Some(OpIndex::CallFunction),
            _ => None,
        }
    }

    /// The byte that stands for the opcode.
    pub fn to_byte(self) -> (v: u8)
        ensures
            v == self.code(),
    {
        match self {
            OpIndex::NoOp => 0,
            OpIndex::DataPointer => 1,
            OpIndex::ParamsPointer => 2,
            OpIndex::ResultPointer => 3,
            OpIndex::LocalsPointer => 4,
            OpIndex::GlobalsPointer => 5,
            OpIndex::OffsetPointer => 6,
            OpIndex::ReferencePointer => 7,
            OpIndex::DereferencePointer => 8,
            OpIndex::StoreTargetAddress => 9,
            OpIndex::StoreParamAddress => 10,
            OpIndex::ExecuteOpStart => 11,
            OpIndex::ExecuteOpStop => 12,
            OpIndex::ExecuteOpInlineStart => 13,
            OpIndex::ExecuteOpInlineStop => 14,
            OpIndex::ProduceTuple => 15,
            OpIndex::CallFunction => 16,
        }
    }
}

} // verus!
