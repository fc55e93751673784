//! The names of the operations of a program, as the encoder gathers
//! them: each name once, with its index and the type of its result if
//! the rules of the dialect give it one.

use crate::assembly::{fail, specs, tree_of, Function, FunctionSpec};
use crate::emit::{put_text, text_code};
use crate::error::{ErrorKind, SimpleResult};
use crate::names::{lookup, same_text, NameTable};
use crate::program::{BlockOp, OpRule, Type as CoreType, TypeTree, Value};
use vstd::prelude::*;

verus! {

/// The type of the result of the operation `id`: the target of the first
/// rule of that name that has just one target.
pub open spec fn op_type(rules: Seq<OpRule>, id: Seq<char>) -> Option<TypeTree>
    decreases rules.len(),
{
    if rules.len() == 0 {
        None
    } else if rules[0].id@ == id && rules[0].targets@.len() == 1 {
        Some(rules[0].targets@[0]@)
    } else {
        op_type(rules.drop_first(), id)
    }
}

/// The type of the result of the operation `id`.
pub fn find_op_type(id: &str, rules: &Vec<OpRule>) -> (r: Option<CoreType>)
    ensures
        tree_of(r) == op_type(rules@, id@),
{
    let mut i: usize = 0;
    assert(rules@.skip(0) =~= rules@);
    while i < rules.len()
        invariant
            i <= rules@.len(),
            op_type(rules@, id@) == op_type(rules@.skip(i as int), id@),
        decreases rules@.len() - i,
    {
        proof {
            assert(rules@.skip(i as int)[0] == rules@[i as int]);
            assert(rules@.skip(i as int).drop_first() =~= rules@.skip(i + 1));
        }
        if same_text(rules[i].id.as_str(), id) && rules[i].targets.len() == 1 {
            return Some(rules[i].targets[0].duplicate());
        }
        i = i + 1;
    }
    None
}

/// The operation names gathered so far: for each name its index and the
/// type of its result, the bytes of the names, and the next index.
pub struct OpsState {
    pub table: Seq<(Seq<char>, (u64, Option<TypeTree>))>,
    pub bytes: Seq<u8>,
    pub next: u64,
}

/// No operation names.
pub open spec fn no_ops() -> OpsState {
    OpsState { table: Seq::empty(), bytes: Seq::empty(), next: 0 }
}

/// The model of a table of operation names.
pub open spec fn ops_model(t: Seq<(Seq<char>, (u64, Option<CoreType>))>) -> Seq<
    (Seq<char>, (u64, Option<TypeTree>)),
> {
    Seq::new(t.len(), |i: int| (t[i].0, (t[i].1.0, tree_of(t[i].1.1))))
}

pub proof fn lemma_ops_model_lookup(t: Seq<(Seq<char>, (u64, Option<CoreType>))>, id: Seq<char>)
    ensures
        lookup(ops_model(t), id) == match lookup(t, id) {
            Some(v) => Some((v.0, tree_of(v.1))),
            None => None,
        },
    decreases t.len(),
{
    if t.len() > 0 {
        assert(ops_model(t).drop_last() =~= ops_model(t.drop_last()));
        lemma_ops_model_lookup(t.drop_last(), id);
    }
}

/// What gathers the operation names.
#[derive(Debug)]
pub struct OpsCollector {
    pub table: NameTable<(u64, Option<CoreType>)>,
    pub stream: Vec<u8>,
    pub next: u64,
}

impl View for OpsCollector {
    type V = OpsState;

    open spec fn view(&self) -> OpsState {
        OpsState { table: ops_model(self.table@), bytes: self.stream@, next: self.next }
    }
}

/// The names after the operation `id` joined them. A name that is there
/// already changes nothing.
pub open spec fn op_added(st: OpsState, rules: Seq<OpRule>, id: Seq<char>) -> Result<
    OpsState,
    ErrorKind,
> {
    if lookup(st.table, id) is Some {
        Ok(st)
    } else if st.next == u64::MAX {
        Err(ErrorKind::Resolution)
    } else {
        Ok(
            OpsState {
                table: st.table.push((id, (st.next, op_type(rules, id)))),
                bytes: st.bytes + text_code(id),
                next: (st.next + 1) as u64,
            },
        )
    }
}

/// The names after those of the inline operations of the value `v`
/// joined them.
pub open spec fn value_ops(st: OpsState, rules: Seq<OpRule>, v: Value) -> Result<
    OpsState,
    ErrorKind,
>
    decreases v,
{
    match v {
        Value::Ref(inner, _) => value_ops(st, rules, *inner),
        Value::Deref(inner, _) => value_ops(st, rules, *inner),
        Value::FunctionCall(_, args, _) => values_ops(st, rules, args@),
        Value::Tuple(parts, _) => values_ops(st, rules, parts@),
        Value::OperationInline(id, args, _) => match op_added(st, rules, id@) {
            Err(e) => Err(e),
            Ok(t) => values_ops(t, rules, args@),
        },
        _ => Ok(st),
    }
}

/// The names after those of the values `vs` joined them, value by value.
pub open spec fn values_ops(st: OpsState, rules: Seq<OpRule>, vs: Seq<Value>) -> Result<
    OpsState,
    ErrorKind,
>
    decreases vs,
{
    if vs.len() == 0 {
        Ok(st)
    } else {
        match values_ops(st, rules, vs.drop_last()) {
            Err(e) => Err(e),
            Ok(t) => value_ops(t, rules, vs.last()),
        }
    }
}

pub proof fn lemma_values_ops_fails(st: OpsState, rules: Seq<OpRule>, vs: Seq<Value>, k: int)
    requires
        0 <= k <= vs.len(),
        values_ops(st, rules, vs.take(k)) is Err,
    ensures
        values_ops(st, rules, vs) == values_ops(st, rules, vs.take(k)),
    decreases vs.len(),
{
    if k == vs.len() {
        assert(vs.take(k) =~= vs);
    } else {
        assert(vs.drop_last().take(k) =~= vs.take(k));
        lemma_values_ops_fails(st, rules, vs.drop_last(), k);
    }
}

/// What a step of a collector owes.
pub open spec fn gathered_ops(r: SimpleResult<()>, after: OpsState, expected: Result<
    OpsState,
    ErrorKind,
>) -> bool {
    match expected {
        Ok(st) => r is Ok && after == st,
        Err(kind) => r matches Err(e) && e.kind == kind,
    }
}

impl OpsCollector {
    /// A collector that has gathered nothing.
    pub fn new() -> (r: Self)
        ensures
            r@ == no_ops(),
    {
        let r = OpsCollector { table: NameTable::new(), stream: Vec::new(), next: 0 };
        assert(r@.table =~= Seq::empty());
        r
    }

    /// The index and the type of the result of the operation `id`.
    pub fn get(&self, id: &str) -> (r: Option<&(u64, Option<CoreType>)>)
        ensures
            match r {
                Some(v) => lookup(self@.table, id@) == Some((v.0, tree_of(v.1))),
                None => lookup(self@.table, id@) is None,
            },
    {
        proof {
            lemma_ops_model_lookup(self.table@, id@);
        }
        self.table.get(id)
    }

    fn add(&mut self, id: &String, rules: &Vec<OpRule>) -> (r: SimpleResult<()>)
        ensures
            gathered_ops(r, final(self)@, op_added(old(self)@, rules@, id@)),
    {
        if self.get(id.as_str()).is_some() {
            return Ok(());
        }
        if self.next == u64::MAX {
            return fail(ErrorKind::Resolution, "the operations exceed what the image can count");
        }
        put_text(&mut self.stream, id.as_str());
        let t = find_op_type(id.as_str(), rules);
        let ghost before = self.table@;
        self.table.insert(id.clone(), (self.next, t));
        assert(ops_model(self.table@) =~= ops_model(before).push(
            (id@, (self.next, op_type(rules@, id@))),
        ));
        self.next = self.next + 1;
        Ok(())
    }

    /// Gathers the names of the inline operations of the values `vs`.
    pub fn collect_values(&mut self, vs: &Vec<Value>, rules: &Vec<OpRule>) -> (r: SimpleResult<()>)
        ensures
            gathered_ops(r, final(self)@, values_ops(old(self)@, rules@, vs@)),
        decreases vs,
    {
        let mut i: usize = 0;
        assert(vs@.take(0) =~= Seq::<Value>::empty());
        while i < vs.len()
            invariant
                i <= vs@.len(),
                values_ops(old(self)@, rules@, vs@.take(i as int)) == Ok::<OpsState, ErrorKind>(
                    self@,
                ),
            decreases vs@.len() - i,
        {
            proof {
                assert(vs@.take(i + 1).drop_last() =~= vs@.take(i as int));
                assert(vs@.take(i + 1).last() == vs@[i as int]);
                assert(decreases_to!(vs => vs@[i as int]));
            }
            match self.collect_value_ops(&vs[i], rules) {
                Ok(_) => {},
                Err(e) => {
                    proof {
                        lemma_values_ops_fails(old(self)@, rules@, vs@, i + 1);
                    }
                    return Err(e);
                },
            }
            i = i + 1;
        }
        assert(vs@.take(i as int) =~= vs@);
        Ok(())
    }

    /// Gathers the names of the inline operations of the value `value`.
    pub fn collect_value_ops(&mut self, value: &Value, rules: &Vec<OpRule>) -> (r: SimpleResult<()>)
        ensures
            gathered_ops(r, final(self)@, value_ops(old(self)@, rules@, *value)),
        decreases value,
    {
        match value {
            Value::Ref(v, _) => self.collect_value_ops(v, rules),
            Value::Deref(v, _) => self.collect_value_ops(v, rules),
            Value::FunctionCall(_, v, _) => self.collect_values(v, rules),
            Value::Tuple(v, _) => self.collect_values(v, rules),
            Value::OperationInline(id, v, _) => {
                self.add(id, rules)?;
                self.collect_values(v, rules)
            },
            _ => Ok(()),
        }
    }
}

/// The names after those of the steps `body` of a function joined them:
/// for each operation its name, then those of its parameters, then those
/// of its targets.
pub open spec fn body_ops(st: OpsState, rules: Seq<OpRule>, body: Seq<BlockOp>) -> Result<
    OpsState,
    ErrorKind,
>
    decreases body.len(),
{
    if body.len() == 0 {
        Ok(st)
    } else {
        match body_ops(st, rules, body.drop_last()) {
            Err(e) => Err(e),
            Ok(t) => match body.last() {
                BlockOp::Operation(o) => match op_added(t, rules, o.id@) {
                    Err(e) => Err(e),
                    Ok(u) => match values_ops(u, rules, o.params@) {
                        Err(e) => Err(e),
                        Ok(w) => values_ops(w, rules, o.targets@),
                    },
                },
                BlockOp::Label(_) => Ok(t),
            },
        }
    }
}

/// The names after those of the functions `functions` joined them.
pub open spec fn functions_ops(st: OpsState, rules: Seq<OpRule>, functions: Seq<FunctionSpec>) -> Result<
    OpsState,
    ErrorKind,
>
    decreases functions.len(),
{
    if functions.len() == 0 {
        Ok(st)
    } else {
        match functions_ops(st, rules, functions.drop_last()) {
            Err(e) => Err(e),
            Ok(t) => body_ops(t, rules, functions.last().body),
        }
    }
}

pub proof fn lemma_body_ops_fails(st: OpsState, rules: Seq<OpRule>, body: Seq<BlockOp>, k: int)
    requires
        0 <= k <= body.len(),
        body_ops(st, rules, body.take(k)) is Err,
    ensures
        body_ops(st, rules, body) == body_ops(st, rules, body.take(k)),
    decreases body.len(),
{
    if k == body.len() {
        assert(body.take(k) =~= body);
    } else {
        assert(body.drop_last().take(k) =~= body.take(k));
        lemma_body_ops_fails(st, rules, body.drop_last(), k);
    }
}

pub proof fn lemma_functions_ops_fails(
    st: OpsState,
    rules: Seq<OpRule>,
    functions: Seq<FunctionSpec>,
    k: int,
)
    requires
        0 <= k <= functions.len(),
        functions_ops(st, rules, functions.take(k)) is Err,
    ensures
        functions_ops(st, rules, functions) == functions_ops(st, rules, functions.take(k)),
    decreases functions.len(),
{
    if k == functions.len() {
        assert(functions.take(k) =~= functions);
    } else {
        assert(functions.drop_last().take(k) =~= functions.take(k));
        lemma_functions_ops_fails(st, rules, functions.drop_last(), k);
    }
}

/// Gathers the names of one operation and of its values.
fn collect_operation(c: &mut OpsCollector, id: &String, params: &Vec<Value>, targets: &Vec<
    Value,
>, rules: &Vec<OpRule>) -> (r: SimpleResult<()>)
    ensures
        gathered_ops(
            r,
            final(c)@,
            match op_added(old(c)@, rules@, id@) {
                Err(e) => Err(e),
                Ok(u) => match values_ops(u, rules@, params@) {
                    Err(e) => Err(e),
                    Ok(w) => values_ops(w, rules@, targets@),
                },
            },
        ),
{
    c.add(id, rules)?;
    c.collect_values(params, rules)?;
    c.collect_values(targets, rules)
}

/// The operation names of the functions `functions`: what
/// `functions_ops` gathers from nothing.
pub fn collect_ops(functions: &[Function], rules: &Vec<OpRule>) -> (r: SimpleResult<OpsCollector>)
    ensures
        match functions_ops(no_ops(), rules@, specs(functions@)) {
            Ok(st) => r matches Ok(c) && c@ == st,
            Err(kind) => r matches Err(e) && e.kind == kind,
        },
{
    let mut c = OpsCollector::new();
    let ghost first = c@;
    let ghost all = specs(functions@);
    let mut i: usize = 0;
    assert(all.take(0) =~= Seq::<FunctionSpec>::empty());
    while i < functions.len()
        invariant
            i <= functions@.len(),
            all == specs(functions@),
            first == no_ops(),
            functions_ops(first, rules@, all.take(i as int)) == Ok::<OpsState, ErrorKind>(c@),
        decreases functions@.len() - i,
    {
        proof {
            assert(all.take(i + 1).drop_last() =~= all.take(i as int));
            assert(all.take(i + 1).last() == functions@[i as int]@);
        }
        let f = &functions[i];
        let ghost body = f@.body;
        let ghost entry = c@;
        let n = f.body_len();
        let mut j: usize = 0;
        assert(body.take(0) =~= Seq::<BlockOp>::empty());
        while j < n
            invariant
                j <= n,
                n == body.len(),
                body == f@.body,
                i < functions@.len(),
                all == specs(functions@),
                first == no_ops(),
                all.take(i + 1).drop_last() == all.take(i as int),
                all.take(i + 1).last() == f@,
                functions_ops(first, rules@, all.take(i as int)) == Ok::<OpsState, ErrorKind>(
                    entry,
                ),
                body_ops(entry, rules@, body.take(j as int)) == Ok::<OpsState, ErrorKind>(c@),
            decreases n - j,
        {
            proof {
                assert(body.take(j + 1).drop_last() =~= body.take(j as int));
                assert(body.take(j + 1).last() == body[j as int]);
            }
            match f.body_op(j) {
                BlockOp::Operation(o) => {
                    match collect_operation(&mut c, &o.id, &o.params, &o.targets, rules) {
                        Ok(_) => {},
                        Err(e) => {
                            proof {
                                assert(body_ops(entry, rules@, body.take(j + 1)) is Err);
                                lemma_body_ops_fails(entry, rules@, body, j + 1);
                                assert(functions_ops(first, rules@, all.take(i + 1)) is Err);
                                lemma_functions_ops_fails(first, rules@, all, i + 1);
                            }
                            return Err(e);
                        },
                    }
                },
                BlockOp::Label(_) => {},
            }
            j = j + 1;
        }
        assert(body.take(j as int) =~= body);
        i = i + 1;
    }
    assert(all.take(i as int) =~= all);
    Ok(c)
}

} // verus!
