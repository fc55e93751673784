//! The constants and the operation names of a program, as the encoder
//! gathers them: each constant once, in the order in which the
//! operations name them.

use crate::assembly::{fail, specs, tree_of, Function, FunctionSpec};
use crate::atom::Atom;
use crate::emit::{put_text, put_u16, put_u32, put_u64, put_u8, text_code};
use crate::error::{ErrorKind, SimpleResult};
use crate::image::{host_word_size, word_size};
use crate::names::{lookup, same_text, NameTable};
use crate::program::{
    type_text, BlockOp, FloatConstant, Number, OpRule, Type as CoreType, TypeTree, Value,
};
use crate::wire::{be_bytes, lemma_span_values, span};
use vstd::prelude::*;
use vstd::utf8::encode_utf8;

verus! {

/// Where the constants of a program stand in the data pool: for each
/// text, each integer and each floating-point number its offset.
pub struct ConstModel {
    pub strings: Seq<(Seq<char>, u64)>,
    pub integers: Seq<(i64, u64)>,
    pub floats: Seq<(Seq<char>, u64)>,
}

impl ConstModel {
    /// The number of constants.
    pub open spec fn count(self) -> nat {
        self.strings.len() + self.integers.len() + self.floats.len()
    }
}

/// The offset of the integer `i`: that of the entry entered last.
pub open spec fn integer_offset(table: Seq<(i64, u64)>, i: i64) -> Option<u64>
    decreases table.len(),
{
    if table.len() == 0 {
        None
    } else if table.last().0 == i {
        Some(table.last().1)
    } else {
        integer_offset(table.drop_last(), i)
    }
}

/// The constants gathered so far: their offsets, their bytes, and the
/// offset of the next.
pub struct DataState {
    pub table: ConstModel,
    pub bytes: Seq<u8>,
    pub offset: usize,
}

/// The tables of the constants.
#[derive(Debug)]
pub struct ConstTable {
    pub strings: NameTable<u64>,
    pub integers: Vec<(i64, u64)>,
    pub floats: NameTable<u64>,
}

impl View for ConstTable {
    type V = ConstModel;

    open spec fn view(&self) -> ConstModel {
        ConstModel { strings: self.strings@, integers: self.integers@, floats: self.floats@ }
    }
}

impl ConstTable {
    /// The offset of the text `s`.
    pub fn string(&self, s: &str) -> (r: Option<u64>)
        ensures
            r == lookup(self@.strings, s@),
    {
        match self.strings.get(s) {
            Some(o) => Some(*o),
            None => None,
        }
    }

    /// The offset of the floating-point number of the text `text`.
    pub fn float(&self, text: &str) -> (r: Option<u64>)
        ensures
            r == lookup(self@.floats, text@),
    {
        match self.floats.get(text) {
            Some(o) => Some(*o),
            None => None,
        }
    }

    /// The offset of the integer `i`.
    pub fn integer(&self, i: i64) -> (r: Option<u64>)
        ensures
            r == integer_offset(self@.integers, i),
    {
        let mut k: usize = self.integers.len();
        assert(self.integers@.take(k as int) =~= self.integers@);
        while k > 0
            invariant
                k <= self.integers@.len(),
                integer_offset(self.integers@, i) == integer_offset(
                    self.integers@.take(k as int),
                    i,
                ),
            decreases k,
        {
            let ghost prefix = self.integers@.take(k as int);
            assert(prefix.last() == self.integers@[k - 1]);
            assert(prefix.drop_last() =~= self.integers@.take(k - 1));
            if self.integers[k - 1].0 == i {
                return Some(self.integers[k - 1].1);
            }
            k = k - 1;
        }
        None
    }

    /// The number of constants; none where it exceeds 64 bits.
    pub fn count(&self) -> (r: Option<u64>)
        ensures
            match r {
                Some(n) => n == self@.count(),
                None => self@.count() > u64::MAX,
            },
    {
        let a = self.strings.len() as u64;
        let b = self.integers.len() as u64;
        let c = self.floats.len() as u64;
        match a.checked_add(b) {
            Some(ab) => ab.checked_add(c),
            None => None,
        }
    }
}

/// What gathers the constants.
#[derive(Debug)]
pub struct DataCollector {
    pub table: ConstTable,
    pub stream: Vec<u8>,
    pub offset: usize,
}

impl View for DataCollector {
    type V = DataState;

    open spec fn view(&self) -> DataState {
        DataState { table: self.table@, bytes: self.stream@, offset: self.offset }
    }
}

/// The tag and the width of an integer of the type of the text `t`.
pub open spec fn integer_kind(t: Seq<char>) -> Option<(u8, nat)> {
    if t == "i8"@ {
        Some((1u8, 1nat))
    } else if t == "u8"@ {
        Some((2u8, 1nat))
    } else if t == "i16"@ {
        Some((3u8, 2nat))
    } else if t == "u16"@ {
        Some((4u8, 2nat))
    } else if t == "i32"@ {
        Some((5u8, 4nat))
    } else if t == "u32"@ {
        Some((6u8, 4nat))
    } else if t == "i64"@ {
        Some((7u8, 8nat))
    } else if t == "u64"@ {
        Some((8u8, 8nat))
    } else if t == "isize"@ {
        Some((11u8, word_size()))
    } else if t == "usize"@ {
        Some((12u8, word_size()))
    } else {
        None
    }
}

/// The `width` low bytes of the integer `i`, most significant first.
pub open spec fn integer_payload(i: i64, width: nat) -> Seq<u8> {
    be_bytes(i.raw() % span(width), width)
}

/// The constants after the text `s` of type `t` joined them. A text that
/// is there already changes nothing. Fails with `TypeError` where the
/// text holds a zero byte or its type is not `*u8`. The offset of a text
/// is that of the pointer behind its bytes and the zero byte.
pub open spec fn string_added(st: DataState, s: Seq<char>, t: TypeTree) -> Result<
    DataState,
    ErrorKind,
> {
    if lookup(st.table.strings, s) is Some {
        Ok(st)
    } else if encode_utf8(s).contains(0u8) {
        Err(ErrorKind::TypeError)
    } else if type_text(t) != "*u8"@ {
        Err(ErrorKind::TypeError)
    } else if st.offset + encode_utf8(s).len() + 1 + word_size() > usize::MAX {
        Err(ErrorKind::TypeError)
    } else {
        let at = (st.offset + encode_utf8(s).len() + 1) as usize;
        Ok(
            DataState {
                table: ConstModel { strings: st.table.strings.push((s, at as u64)), ..st.table },
                bytes: st.bytes + seq![13u8] + text_code(s),
                offset: (at + word_size()) as usize,
            },
        )
    }
}

/// The constants after the integer `i` of type `t` joined them. An
/// integer that is there already changes nothing, whatever its type.
/// Fails with `TypeError` where the type is not that of an integer.
pub open spec fn integer_added(st: DataState, i: i64, t: TypeTree) -> Result<DataState, ErrorKind> {
    if integer_offset(st.table.integers, i) is Some {
        Ok(st)
    } else {
        match integer_kind(type_text(t)) {
            None => Err(ErrorKind::TypeError),
            Some((tag, width)) => if st.offset + width > usize::MAX {
                Err(ErrorKind::TypeError)
            } else {
                Ok(
                    DataState {
                        table: ConstModel {
                            integers: st.table.integers.push((i, st.offset as u64)),
                            ..st.table
                        },
                        bytes: st.bytes + seq![tag] + integer_payload(i, width),
                        offset: (st.offset + width) as usize,
                    },
                )
            },
        }
    }
}

/// The constants after the floating-point number `f` of type `t` joined
/// them. A number whose text is there already changes nothing. Fails
/// with `TypeError` where the type is not `f32` or `f64`.
pub open spec fn float_added(st: DataState, f: FloatConstant, t: TypeTree) -> Result<
    DataState,
    ErrorKind,
> {
    if lookup(st.table.floats, f.text@) is Some {
        Ok(st)
    } else if type_text(t) == "f32"@ {
        if st.offset + 4 > usize::MAX {
            Err(ErrorKind::TypeError)
        } else {
            Ok(
                DataState {
                    table: ConstModel {
                        floats: st.table.floats.push((f.text@, st.offset as u64)),
                        ..st.table
                    },
                    bytes: st.bytes + seq![9u8] + be_bytes(f.single as nat, 4),
                    offset: (st.offset + 4) as usize,
                },
            )
        }
    } else if type_text(t) == "f64"@ {
        if st.offset + 8 > usize::MAX {
            Err(ErrorKind::TypeError)
        } else {
            Ok(
                DataState {
                    table: ConstModel {
                        floats: st.table.floats.push((f.text@, st.offset as u64)),
                        ..st.table
                    },
                    bytes: st.bytes + seq![10u8] + be_bytes(f.double as nat, 8),
                    offset: (st.offset + 8) as usize,
                },
            )
        }
    } else {
        Err(ErrorKind::TypeError)
    }
}

/// The constants after those of the value `v` joined them.
pub open spec fn value_data(st: DataState, v: Value) -> Result<DataState, ErrorKind>
    decreases v,
{
    match v {
        Value::Ref(inner, _) => value_data(st, *inner),
        Value::Deref(inner, _) => value_data(st, *inner),
        Value::FunctionCall(_, args, _) => values_data(st, args@),
        Value::Tuple(parts, _) => values_data(st, parts@),
        Value::String(s, t) => string_added(st, s@, t@),
        Value::Number(Number::Integer(i, t)) => integer_added(st, i, t@),
        Value::Number(Number::Float(f, t)) => float_added(st, f, t@),
        Value::OperationInline(_, args, _) => values_data(st, args@),
        Value::Variable(_, _) => Ok(st),
    }
}

/// The constants after those of the values `vs` joined them, value by
/// value.
pub open spec fn values_data(st: DataState, vs: Seq<Value>) -> Result<DataState, ErrorKind>
    decreases vs,
{
    if vs.len() == 0 {
        Ok(st)
    } else {
        match values_data(st, vs.drop_last()) {
            Err(e) => Err(e),
            Ok(t) => value_data(t, vs.last()),
        }
    }
}

pub proof fn lemma_values_data_fails(st: DataState, vs: Seq<Value>, k: int)
    requires
        0 <= k <= vs.len(),
        values_data(st, vs.take(k)) is Err,
    ensures
        values_data(st, vs) == values_data(st, vs.take(k)),
    decreases vs.len(),
{
    if k == vs.len() {
        assert(vs.take(k) =~= vs);
    } else {
        assert(vs.drop_last().take(k) =~= vs.take(k));
        lemma_values_data_fails(st, vs.drop_last(), k);
    }
}

/// No constants.
pub open spec fn no_data() -> DataState {
    DataState {
        table: ConstModel { strings: Seq::empty(), integers: Seq::empty(), floats: Seq::empty() },
        bytes: Seq::empty(),
        offset: 0,
    }
}

/// What a step of a collector owes.
pub open spec fn gathered_data(r: SimpleResult<()>, after: DataState, expected: Result<
    DataState,
    ErrorKind,
>) -> bool {
    match expected {
        Ok(st) => r is Ok && after == st,
        Err(kind) => r matches Err(e) && e.kind == kind,
    }
}

fn holds_zero(bytes: &[u8]) -> (r: bool)
    ensures
        r == bytes@.contains(0u8),
{
    let mut i: usize = 0;
    while i < bytes.len()
        invariant
            i <= bytes@.len(),
            forall|k: int| 0 <= k < i ==> bytes@[k] != 0,
        decreases bytes@.len() - i,
    {
        if bytes[i] == 0 {
            assert(bytes@.contains(0u8));
            return true;
        }
        i = i + 1;
    }
    false
}

impl DataCollector {
    /// A collector that has gathered nothing.
    pub fn new() -> (r: Self)
        ensures
            r@ == no_data(),
    {
        DataCollector {
            table: ConstTable {
                strings: NameTable::new(),
                integers: Vec::new(),
                floats: NameTable::new(),
            },
            stream: Vec::new(),
            offset: 0,
        }
    }

    fn add_string(&mut self, s: &String, t: &CoreType) -> (r: SimpleResult<()>)
        ensures
            gathered_data(r, final(self)@, string_added(old(self)@, s@, t@)),
    {
        if self.table.string(s.as_str()).is_some() {
            return Ok(());
        }
        let bytes = s.as_str().as_bytes();
        if holds_zero(bytes) {
            return fail(ErrorKind::TypeError, "a text constant holds a zero byte");
        }
        let text = t.to_string();
        if !same_text(text.as_str(), "*u8") {
            return fail(ErrorKind::TypeError, "a text constant is not of the type `*u8`");
        }
        let word = host_word_size();
        let at = match self.offset.checked_add(bytes.len()) {
            Some(n) => match n.checked_add(1) {
                Some(m) => m,
                None => {
                    return fail(ErrorKind::TypeError, "the constants exceed what the host can hold");
                },
            },
            None => {
                return fail(ErrorKind::TypeError, "the constants exceed what the host can hold");
            },
        };
        let next = match at.checked_add(word) {
            Some(n) => n,
            None => {
                return fail(ErrorKind::TypeError, "the constants exceed what the host can hold");
            },
        };
        put_u8(&mut self.stream, 13);
        put_text(&mut self.stream, s.as_str());
        self.table.strings.insert(s.clone(), at as u64);
        self.offset = next;
        assert(self.stream@ =~= old(self).stream@ + seq![13u8] + text_code(s@));
        Ok(())
    }

    fn add_integer(&mut self, i: i64, t: &CoreType) -> (r: SimpleResult<()>)
        ensures
            gathered_data(r, final(self)@, integer_added(old(self)@, i, t@)),
    {
        if self.table.integer(i).is_some() {
            return Ok(());
        }
        let text = t.to_string();
        let name = text.as_str();
        let word = host_word_size();
        let (tag, width): (u8, usize) = if same_text(name, "i8") {
            (1, 1)
        } else if same_text(name, "u8") {
            (2, 1)
        } else if same_text(name, "i16") {
            (3, 2)
        } else if same_text(name, "u16") {
            (4, 2)
        } else if same_text(name, "i32") {
            (5, 4)
        } else if same_text(name, "u32") {
            (6, 4)
        } else if same_text(name, "i64") {
            (7, 8)
        } else if same_text(name, "u64") {
            (8, 8)
        } else if same_text(name, "isize") {
            (11, word)
        } else if same_text(name, "usize") {
            (12, word)
        } else {
            return fail(ErrorKind::TypeError, "an integer constant is not of an integer type");
        };
        let next = match self.offset.checked_add(width) {
            Some(n) => n,
            None => {
                return fail(ErrorKind::TypeError, "the constants exceed what the host can hold");
            },
        };
        let raw = i.to_raw();
        put_u8(&mut self.stream, tag);
        let ghost mid = self.stream@;
        proof {
            lemma_span_values();
            reveal_with_fuel(be_bytes, 3);
        }
        if width == 1 {
            let low = (raw % 0x100) as u8;
            put_u8(&mut self.stream, low);
            assert(seq![low] =~= integer_payload(i, 1));
            assert(self.stream@ == mid + integer_payload(i, 1));
        } else if width == 2 {
            put_u16(&mut self.stream, (raw % 0x1_0000) as u16);
            assert(self.stream@ == mid + integer_payload(i, 2));
        } else if width == 4 {
            put_u32(&mut self.stream, (raw % 0x1_0000_0000) as u32);
            assert(self.stream@ == mid + integer_payload(i, 4));
        } else {
            put_u64(&mut self.stream, raw);
            assert(width == 8);
            assert(raw as nat % span(8) == raw as nat);
            assert(self.stream@ == mid + integer_payload(i, 8));
        }
        self.table.integers.push((i, self.offset as u64));
        self.offset = next;
        assert(self.stream@ =~= old(self).stream@ + seq![tag] + integer_payload(i, width as nat));
        Ok(())
    }

    fn add_float(&mut self, f: &FloatConstant, t: &CoreType) -> (r: SimpleResult<()>)
        ensures
            gathered_data(r, final(self)@, float_added(old(self)@, *f, t@)),
    {
        if self.table.float(f.text.as_str()).is_some() {
            return Ok(());
        }
        let text = t.to_string();
        if same_text(text.as_str(), "f32") {
            let next = match self.offset.checked_add(4) {
                Some(n) => n,
                None => {
                    return fail(ErrorKind::TypeError, "the constants exceed what the host can hold");
                },
            };
            put_u8(&mut self.stream, 9);
            put_u32(&mut self.stream, f.single);
            self.table.floats.insert(f.text.clone(), self.offset as u64);
            self.offset = next;
            assert(self.stream@ =~= old(self).stream@ + seq![9u8] + be_bytes(f.single as nat, 4));
            Ok(())
        } else if same_text(text.as_str(), "f64") {
            let next = match self.offset.checked_add(8) {
                Some(n) => n,
                None => {
                    return fail(ErrorKind::TypeError, "the constants exceed what the host can hold");
                },
            };
            put_u8(&mut self.stream, 10);
            put_u64(&mut self.stream, f.double);
            self.table.floats.insert(f.text.clone(), self.offset as u64);
            self.offset = next;
            assert(self.stream@ =~= old(self).stream@ + seq![10u8] + be_bytes(f.double as nat, 8));
            Ok(())
        } else {
            fail(ErrorKind::TypeError, "a floating-point constant is not of a floating-point type")
        }
    }

    /// Gathers the constants of the values `vs`.
    pub fn collect_values(&mut self, vs: &Vec<Value>) -> (r: SimpleResult<()>)
        ensures
            gathered_data(r, final(self)@, values_data(old(self)@, vs@)),
        decreases vs,
    {
        let mut i: usize = 0;
        assert(vs@.take(0) =~= Seq::<Value>::empty());
        while i < vs.len()
            invariant
                i <= vs@.len(),
                values_data(old(self)@, vs@.take(i as int)) == Ok::<DataState, ErrorKind>(self@),
            decreases vs@.len() - i,
        {
            proof {
                assert(vs@.take(i + 1).drop_last() =~= vs@.take(i as int));
                assert(vs@.take(i + 1).last() == vs@[i as int]);
                assert(decreases_to!(vs => vs@[i as int]));
            }
            match self.collect_op_data(&vs[i]) {
                Ok(_) => {},
                Err(e) => {
                    proof {
                        lemma_values_data_fails(old(self)@, vs@, i + 1);
                    }
                    return Err(e);
                },
            }
            i = i + 1;
        }
        assert(vs@.take(i as int) =~= vs@);
        Ok(())
    }

    /// Gathers the constants of the value `value`.
    pub fn collect_op_data(&mut self, value: &Value) -> (r: SimpleResult<()>)
        ensures
            gathered_data(r, final(self)@, value_data(old(self)@, *value)),
        decreases value,
    {
        match value {
            Value::Ref(v, _) => self.collect_op_data(v),
            Value::Deref(v, _) => self.collect_op_data(v),
            Value::FunctionCall(_, v, _) => self.collect_values(v),
            Value::Tuple(v, _) => self.collect_values(v),
            Value::String(s, t) => self.add_string(s, t),
            Value::Number(n) => match n {
                Number::Integer(i, t) => self.add_integer(*i, t),
                Number::Float(f, t) => self.add_float(f, t),
            },
            Value::OperationInline(_, v, _) => self.collect_values(v),
            Value::Variable(_, _) => Ok(()),
        }
    }
}

/// The constants after those of the steps `body` of a function joined
/// them: for each operation those of its parameters, then those of its
/// targets.
pub open spec fn body_data(st: DataState, body: Seq<BlockOp>) -> Result<DataState, ErrorKind>
    decreases body.len(),
{
    if body.len() == 0 {
        Ok(st)
    } else {
        match body_data(st, body.drop_last()) {
            Err(e) => Err(e),
            Ok(t) => match body.last() {
                BlockOp::Operation(o) => match values_data(t, o.params@) {
                    Err(e) => Err(e),
                    Ok(u) => values_data(u, o.targets@),
                },
                BlockOp::Label(_) => Ok(t),
            },
        }
    }
}

/// The constants after those of the functions `functions` joined them.
pub open spec fn functions_data(st: DataState, functions: Seq<FunctionSpec>) -> Result<
    DataState,
    ErrorKind,
>
    decreases functions.len(),
{
    if functions.len() == 0 {
        Ok(st)
    } else {
        match functions_data(st, functions.drop_last()) {
            Err(e) => Err(e),
            Ok(t) => body_data(t, functions.last().body),
        }
    }
}

pub proof fn lemma_body_data_fails(st: DataState, body: Seq<BlockOp>, k: int)
    requires
        0 <= k <= body.len(),
        body_data(st, body.take(k)) is Err,
    ensures
        body_data(st, body) == body_data(st, body.take(k)),
    decreases body.len(),
{
    if k == body.len() {
        assert(body.take(k) =~= body);
    } else {
        assert(body.drop_last().take(k) =~= body.take(k));
        lemma_body_data_fails(st, body.drop_last(), k);
    }
}

pub proof fn lemma_functions_data_fails(st: DataState, functions: Seq<FunctionSpec>, k: int)
    requires
        0 <= k <= functions.len(),
        functions_data(st, functions.take(k)) is Err,
    ensures
        functions_data(st, functions) == functions_data(st, functions.take(k)),
    decreases functions.len(),
{
    if k == functions.len() {
        assert(functions.take(k) =~= functions);
    } else {
        assert(functions.drop_last().take(k) =~= functions.take(k));
        lemma_functions_data_fails(st, functions.drop_last(), k);
    }
}

/// The constants of the functions `functions`: what `functions_data`
/// gathers from nothing.
pub fn collect_data(functions: &[Function]) -> (r: SimpleResult<DataCollector>)
    ensures
        match functions_data(no_data(), specs(functions@)) {
            Ok(st) => r matches Ok(c) && c@ == st,
            Err(kind) => r matches Err(e) && e.kind == kind,
        },
{
    let mut c = DataCollector::new();
    let ghost first = c@;
    let ghost all = specs(functions@);
    let mut i: usize = 0;
    assert(all.take(0) =~= Seq::<FunctionSpec>::empty());
    while i < functions.len()
        invariant
            i <= functions@.len(),
            all == specs(functions@),
            first == no_data(),
            functions_data(first, all.take(i as int)) == Ok::<DataState, ErrorKind>(c@),
        decreases functions@.len() - i,
    {
        proof {
            assert(all.take(i + 1).drop_last() =~= all.take(i as int));
            assert(all.take(i + 1).last() == functions@[i as int]@);
        }
        let f = &functions[i];
        let ghost body = f@.body;
        let ghost entry = c@;
        let n = f.body_len();
        let mut j: usize = 0;
        assert(body.take(0) =~= Seq::<BlockOp>::empty());
        while j < n
            invariant
                j <= n,
                n == body.len(),
                body == f@.body,
                i < functions@.len(),
                all == specs(functions@),
                first == no_data(),
                all.take(i + 1).drop_last() == all.take(i as int),
                all.take(i + 1).last() == f@,
                functions_data(first, all.take(i as int)) == Ok::<DataState, ErrorKind>(entry),
                body_data(entry, body.take(j as int)) == Ok::<DataState, ErrorKind>(c@),
            decreases n - j,
        {
            proof {
                assert(body.take(j + 1).drop_last() =~= body.take(j as int));
                assert(body.take(j + 1).last() == body[j as int]);
            }
            match f.body_op(j) {
                BlockOp::Operation(o) => {
                    match c.collect_values(&o.params) {
                        Ok(_) => {},
                        Err(e) => {
                            proof {
                                assert(body_data(entry, body.take(j + 1)) is Err);
                                lemma_body_data_fails(entry, body, j + 1);
                                assert(functions_data(first, all.take(i + 1)) is Err);
                                lemma_functions_data_fails(first, all, i + 1);
                            }
                            return Err(e);
                        },
                    }
                    match c.collect_values(&o.targets) {
                        Ok(_) => {},
                        Err(e) => {
                            proof {
                                assert(body_data(entry, body.take(j + 1)) is Err);
                                lemma_body_data_fails(entry, body, j + 1);
                                assert(functions_data(first, all.take(i + 1)) is Err);
                                lemma_functions_data_fails(first, all, i + 1);
                            }
                            return Err(e);
                        },
                    }
                },
                BlockOp::Label(_) => {},
            }
            j = j + 1;
        }
        assert(body.take(j as int) =~= body);
        i = i + 1;
    }
    assert(all.take(i as int) =~= all);
    Ok(c)
}

} // verus!
