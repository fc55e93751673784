//! The addresses of an operation: what the code of an operation
//! computes it uses up. The code that the encoder writes for an
//! operation whose values call no function and hold no operation leaves
//! the addresses of the machine as they were when the operation goes to
//! the processor.

use crate::encode::{operation_code, stored_params, targets_code};
use crate::error::ErrorKind;
use crate::image::{parse_seq, parse_size, parse_u64, parse_u8};
use crate::lower::{
    access_code, sizes_code, value_code, values_code_rev, variable_code, with_access,
};
use crate::emit::word;
use crate::machine::{micro, placed, run, size_parser, Flow, VmModel};
use crate::program::{Access, Number, Operation, TypeTree, Value};
use crate::roundtrip::stands_at;
use crate::assembly::StructSpec;
use crate::types::Ctx;
use crate::wire::{
    be_value, lemma_be_bytes_len, lemma_be_value_bound, lemma_be_value_of_bytes,
    lemma_span_values,
};
use vstd::prelude::*;

verus! {

/// The machine after the code from `pos` up to `end` ran, opcode by
/// opcode; nothing where an opcode fails, ends the step, or leads past
/// `end`.
pub open spec fn through(m: VmModel, code: Seq<u8>, pos: int, end: int) -> Option<VmModel>
    decreases end - pos,
{
    if pos >= end {
        if pos == end {
            Some(m)
        } else {
            None
        }
    } else {
        match micro(m, code, pos) {
            Flow::Next(after, next) => if pos < next <= end && next <= code.len() {
                through(after, code, next, end)
            } else {
                None
            },
            _ => None,
        }
    }
}

/// Code that ran up to `end` goes on from there.
pub proof fn lemma_through_run(m: VmModel, code: Seq<u8>, pos: int, end: int)
    requires
        through(m, code, pos, end) is Some,
    ensures
        run(m, code, pos) == run(through(m, code, pos, end).unwrap(), code, end),
    decreases end - pos,
{
    if pos < end {
        match micro(m, code, pos) {
            Flow::Next(after, next) => {
                if pos < next <= end && next <= code.len() {
                    lemma_through_run(after, code, next, end);
                }
            },
            _ => {},
        }
    }
}

/// How many addresses lie above those that were there when the code
/// `c` began, after it ran with `depth` of them at its beginning: an
/// opcode that names a place computes one; an opcode that offsets,
/// references or dereferences needs one and leaves one; an opcode that
/// stores one takes one; the opcode that makes a tuple takes one for
/// each part and leaves one. Nothing where the code holds another
/// opcode, ends within an opcode, or needs an address that it has not
/// computed.
pub open spec fn scan(c: Seq<u8>, depth: int) -> Option<int>
    decreases c.len(),
{
    if c.len() == 0 {
        Some(depth)
    } else {
        let op = c[0];
        if op == 1 || op == 2 || op == 4 || op == 5 {
            if c.len() >= 9 {
                scan(c.skip(9), depth + 1)
            } else {
                None
            }
        } else if op == 3 {
            scan(c.skip(1), depth + 1)
        } else if op == 6 {
            if c.len() >= 9 && depth >= 1 {
                scan(c.skip(9), depth)
            } else {
                None
            }
        } else if op == 7 || op == 8 {
            if depth >= 1 {
                scan(c.skip(1), depth)
            } else {
                None
            }
        } else if op == 9 || op == 10 {
            if depth >= 1 {
                scan(c.skip(1), depth - 1)
            } else {
                None
            }
        } else if op == 11 {
            scan(c.skip(1), depth)
        } else if op == 15 {
            if c.len() >= 9 {
                let n = be_value(c.subrange(1, 9)) as int;
                if depth >= n && c.len() >= 9 + 8 * n {
                    scan(c.skip(9 + 8 * n), depth - n + 1)
                } else {
                    None
                }
            } else {
                None
            }
        } else {
            None
        }
    }
}

/// The sizes of a tuple that were read end eight bytes behind each
/// other.
pub proof fn lemma_sizes_end(b: Seq<u8>, pos: int, count: nat)
    requires
        parse_seq(size_parser(), b, pos, count) is Some,
    ensures
        parse_seq(size_parser(), b, pos, count).unwrap().0.len() == count,
        parse_seq(size_parser(), b, pos, count).unwrap().1 == pos + 8 * count,
    decreases count,
{
    if count > 0 {
        lemma_sizes_end(b, pos, (count - 1) as nat);
    }
}

/// An opcode of code that `scan` accepts fails, or goes on behind
/// itself with the addresses as `scan` counts them: those that were
/// there at the beginning are as they were.
proof fn lemma_scanned_step(m: VmModel, code: Seq<u8>, pos: int, c: Seq<u8>, base: int, d: int)
    requires
        stands_at(code, pos, c),
        c.len() > 0,
        scan(c, d) is Some,
        0 <= base,
        0 <= d,
        m.pointers.len() == base + d,
    ensures
        match micro(m, code, pos) {
            Flow::Next(after, next) => {
                &&& pos < next <= pos + c.len()
                &&& stands_at(code, next, c.skip(next - pos))
                &&& after.pointers.take(base) == m.pointers.take(base)
                &&& after.pointers.len() >= base
                &&& scan(c, d) == scan(c.skip(next - pos), after.pointers.len() - base)
            },
            Flow::Fail(_) => true,
            _ => false,
        },
{
    let op = c[0];
    assert(code.subrange(pos, pos + c.len())[0] == code[pos]);
    assert(parse_u8(code, pos) == Some((op, pos + 1)));
    let p = pos + 1;
    if op == 1 || op == 2 || op == 4 || op == 5 || op == 6 {
        assert(code.subrange(pos + 9, pos + c.len()) =~= c.skip(9));
        match micro(m, code, pos) {
            Flow::Next(after, next) => {
                assert(next == pos + 9);
                assert(after.pointers.take(base) =~= m.pointers.take(base));
            },
            _ => {},
        }
    } else if op == 15 {
        let n = be_value(c.subrange(1, 9)) as int;
        assert(code.subrange(p, p + 8) =~= c.subrange(1, 9));
        lemma_be_value_bound(c.subrange(1, 9));
        lemma_span_values();
        match parse_u64(code, p) {
            Some((count, q)) => {
                assert(count == n);
                match parse_seq(size_parser(), code, q, count as nat) {
                    Some((sizes, r)) => {
                        lemma_sizes_end(code, q, count as nat);
                        assert(code.subrange(pos + 9 + 8 * n, pos + c.len()) =~= c.skip(9 + 8 * n));
                        match placed(m, sizes) {
                            Ok((after, _)) => {
                                assert(after.pointers.take(base) =~= m.pointers.take(base));
                                match micro(m, code, pos) {
                                    Flow::Next(last, next) => {
                                        assert(last.pointers.take(base) =~= m.pointers.take(base));
                                    },
                                    _ => {},
                                }
                            },
                            Err(_) => {},
                        }
                    },
                    None => {},
                }
            },
            None => {},
        }
    } else {
        assert(code.subrange(pos + 1, pos + c.len()) =~= c.skip(1));
        match micro(m, code, pos) {
            Flow::Next(after, next) => {
                assert(next == pos + 1);
                assert(after.pointers.take(base) =~= m.pointers.take(base));
            },
            _ => {},
        }
    }
}

/// Code that `scan` accepts fails, or runs to its end with the addresses
/// as `scan` counts them: those that were there at the beginning are as
/// they were.
pub proof fn lemma_scanned_code_runs(
    m: VmModel,
    code: Seq<u8>,
    pos: int,
    c: Seq<u8>,
    base: int,
    d: int,
)
    requires
        stands_at(code, pos, c),
        scan(c, d) is Some,
        0 <= base,
        0 <= d,
        m.pointers.len() == base + d,
    ensures
        match through(m, code, pos, pos + c.len()) {
            Some(after) => after.pointers.len() == base + scan(c, d).unwrap()
                && after.pointers.take(base) == m.pointers.take(base),
            None => run(m, code, pos) is Fail,
        },
    decreases c.len(),
{
    if c.len() > 0 {
        lemma_scanned_step(m, code, pos, c, base, d);
        match micro(m, code, pos) {
            Flow::Next(after, next) => {
                let rest = c.skip(next - pos);
                lemma_scanned_code_runs(
                    after,
                    code,
                    next,
                    rest,
                    base,
                    after.pointers.len() - base,
                );
                assert(next + rest.len() == pos + c.len());
            },
            _ => {},
        }
    }
}

// ---------------------------------------------------------------------------
// The code that the encoder writes
// ---------------------------------------------------------------------------

/// True when the value calls no function and holds no operation.
pub open spec fn plain(v: Value) -> bool
    decreases v,
{
    match v {
        Value::Ref(x, _) => plain(*x),
        Value::Deref(x, _) => plain(*x),
        Value::FunctionCall(_, _, _) => false,
        Value::Tuple(parts, _) => forall|k: int| 0 <= k < parts@.len() ==> plain(#[trigger] parts@[k]),
        Value::String(_, _) => true,
        Value::Number(_) => true,
        Value::OperationInline(_, _, _) => false,
        Value::Variable(_, _) => true,
    }
}

/// True when every value is plain.
pub open spec fn all_plain(vs: Seq<Value>) -> bool {
    forall|k: int| 0 <= k < vs.len() ==> plain(#[trigger] vs[k])
}

/// True when no value of the operation calls a function or holds an
/// operation.
pub open spec fn plain_operation(o: Operation) -> bool {
    all_plain(o.params@) && all_plain(o.targets@)
}

/// Code behind code is counted from where the first ends.
pub proof fn lemma_scan_concat(a: Seq<u8>, b: Seq<u8>, d: int)
    requires
        scan(a, d) is Some,
    ensures
        scan(a + b, d) == scan(b, scan(a, d).unwrap()),
    decreases a.len(),
{
    if a.len() == 0 {
        assert(a + b =~= b);
    } else {
        let op = a[0];
        assert((a + b)[0] == op);
        if op == 1 || op == 2 || op == 4 || op == 5 {
            assert((a + b).skip(9) =~= a.skip(9) + b);
            lemma_scan_concat(a.skip(9), b, d + 1);
        } else if op == 3 {
            assert((a + b).skip(1) =~= a.skip(1) + b);
            lemma_scan_concat(a.skip(1), b, d + 1);
        } else if op == 6 {
            assert((a + b).skip(9) =~= a.skip(9) + b);
            lemma_scan_concat(a.skip(9), b, d);
        } else if op == 7 || op == 8 || op == 11 {
            assert((a + b).skip(1) =~= a.skip(1) + b);
            lemma_scan_concat(a.skip(1), b, d);
        } else if op == 9 || op == 10 {
            assert((a + b).skip(1) =~= a.skip(1) + b);
            lemma_scan_concat(a.skip(1), b, d - 1);
        } else if op == 15 {
            let n = be_value(a.subrange(1, 9)) as int;
            assert((a + b).subrange(1, 9) =~= a.subrange(1, 9));
            assert((a + b).skip(9 + 8 * n) =~= a.skip(9 + 8 * n) + b);
            lemma_scan_concat(a.skip(9 + 8 * n), b, d - n + 1);
        }
    }
}

/// An opcode with a number behind it.
proof fn lemma_scan_numbered(op: u8, n: nat, d: int)
    requires
        op == 1 || op == 2 || op == 4 || op == 5 || op == 6,
        d >= 0,
        op == 6 ==> d >= 1,
    ensures
        scan(seq![op] + word(n), d) == Some(
            if op == 6 {
                d
            } else {
                d + 1
            },
        ),
{
    reveal_with_fuel(scan, 2);
    lemma_be_bytes_len(n, 8);
    let c = seq![op] + word(n);
    assert(c[0] == op);
    assert(c.skip(9) =~= Seq::<u8>::empty());
}

/// An opcode that stands alone.
proof fn lemma_scan_single(op: u8, d: int)
    requires
        op == 3 || op == 7 || op == 8 || op == 9 || op == 10 || op == 11,
        d >= 0,
        op == 7 || op == 8 || op == 9 || op == 10 ==> d >= 1,
    ensures
        scan(seq![op], d) == Some(
            if op == 3 {
                d + 1
            } else if op == 9 || op == 10 {
                d - 1
            } else {
                d
            },
        ),
{
    reveal_with_fuel(scan, 2);
    let c = seq![op];
    assert(c[0] == op);
    assert(c.skip(1) =~= Seq::<u8>::empty());
}

/// The code of an access offsets the address that is there.
proof fn lemma_access_scan(structs: Seq<StructSpec>, t: TypeTree, a: Access, d: int)
    requires
        access_code(structs, t, a) is Ok,
        d >= 1,
    ensures
        scan(seq![6u8] + access_code(structs, t, a)->Ok_0, d) == Some(d),
    decreases a, t,
{
    let c = access_code(structs, t, a)->Ok_0;
    match t {
        TypeTree::Identifier(id) => {
            let s = crate::types::struct_named(structs, id).unwrap();
            match a {
                Access::Variable(name, next) => {
                    let f = crate::assembly::field_named(s.fields, name@).unwrap();
                    lemma_scan_numbered(6, f.offset as nat, d);
                    match next {
                        None => {},
                        Some(n) => {
                            lemma_access_scan(structs, f.typeid, *n, d);
                            let more = access_code(structs, f.typeid, *n)->Ok_0;
                            assert(seq![6u8] + c =~= (seq![6u8] + word(f.offset as nat)) + (seq![
                                6u8,
                            ] + more));
                            lemma_scan_concat(
                                seq![6u8] + word(f.offset as nat),
                                seq![6u8] + more,
                                d,
                            );
                        },
                    }
                },
                _ => {},
            }
        },
        TypeTree::Tuple(types) => {
            match a {
                Access::Tuple(i, next) => {
                    let (part, offset) = crate::lower::tuple_field(structs, types, i)->Ok_0;
                    lemma_scan_numbered(6, offset as nat, d);
                    match next {
                        None => {},
                        Some(n) => {
                            lemma_access_scan(structs, part, *n, d);
                            let more = access_code(structs, part, *n)->Ok_0;
                            assert(seq![6u8] + c =~= (seq![6u8] + word(offset as nat)) + (seq![6u8]
                                + more));
                            lemma_scan_concat(
                                seq![6u8] + word(offset as nat),
                                seq![6u8] + more,
                                d,
                            );
                        },
                    }
                },
                _ => {},
            }
        },
        TypeTree::Pointer(inner) => {
            lemma_access_scan(structs, *inner, a, d);
        },
    }
}

/// Code with the code of an access behind it leaves as many addresses
/// as without.
proof fn lemma_with_access_scan(
    structs: Seq<StructSpec>,
    code: Seq<u8>,
    t: TypeTree,
    a: Option<Box<Access>>,
    from: int,
    d: int,
)
    requires
        with_access(structs, code, t, a) is Ok,
        scan(code, from) == Some(d),
        d >= 1,
    ensures
        scan(with_access(structs, code, t, a)->Ok_0, from) == Some(d),
{
    match a {
        None => {},
        Some(acc) => {
            lemma_access_scan(structs, t, *acc, d);
            let more = access_code(structs, t, *acc)->Ok_0;
            assert(code + seq![6u8] + more =~= code + (seq![6u8] + more));
            lemma_scan_concat(code, seq![6u8] + more, from);
        },
    }
}

/// The code of a variable computes one address.
proof fn lemma_variable_scan(ctx: Ctx, id: Seq<char>, a: Option<Box<Access>>, d: int)
    requires
        variable_code(ctx, id, a) is Ok,
        d >= 0,
    ensures
        scan(variable_code(ctx, id, a)->Ok_0, d) == Some(d + 1),
{
    match crate::types::variable_named(ctx.function.params, id) {
        Some(p) => {
            let o = p.offset.unwrap();
            lemma_scan_numbered(2, o as nat, d);
            lemma_with_access_scan(ctx.structs, seq![2u8] + word(o as nat), p.typeid, a, d, d + 1);
        },
        None => match crate::types::variable_named(ctx.function.locals, id) {
            Some(l) => {
                let o = l.offset.unwrap();
                lemma_scan_numbered(4, o as nat, d);
                lemma_with_access_scan(
                    ctx.structs,
                    seq![4u8] + word(o as nat),
                    l.typeid,
                    a,
                    d,
                    d + 1,
                );
            },
            None => match crate::names::lookup(ctx.global_offsets, id) {
                Some(o) => {
                    let g = crate::types::variable_named(ctx.globals, id).unwrap();
                    lemma_scan_numbered(5, o as nat, d);
                    lemma_with_access_scan(
                        ctx.structs,
                        seq![5u8] + word(o as nat),
                        g.typeid,
                        a,
                        d,
                        d + 1,
                    );
                },
                None => {
                    let t = ctx.function.typeid.unwrap();
                    lemma_scan_single(3, d);
                    lemma_with_access_scan(ctx.structs, seq![3u8], t, a, d, d + 1);
                },
            },
        },
    }
}

/// The sizes of the parts of a tuple take eight bytes each.
proof fn lemma_sizes_code_len(ctx: Ctx, vs: Seq<Value>)
    requires
        sizes_code(ctx, vs) is Ok,
    ensures
        sizes_code(ctx, vs)->Ok_0.len() == 8 * vs.len(),
    decreases vs.len(),
{
    if vs.len() > 0 {
        lemma_sizes_code_len(ctx, vs.drop_last());
        let t = crate::types::value_type(ctx, vs.last())->Ok_0;
        let n = crate::types::size_at(ctx.structs, t)->Ok_0;
        lemma_be_bytes_len(n as nat, 8);
    }
}

/// The opcode that makes a tuple of `n` parts, with its sizes.
proof fn lemma_scan_tuple(n: nat, sizes: Seq<u8>, d: int)
    requires
        n <= usize::MAX,
        sizes.len() == 8 * n,
        d >= n,
    ensures
        scan(seq![15u8] + word(n) + sizes, d) == Some(d - n + 1),
{
    reveal_with_fuel(scan, 2);
    lemma_be_bytes_len(n, 8);
    lemma_span_values();
    lemma_be_value_of_bytes(n, 8);
    let c = seq![15u8] + word(n) + sizes;
    assert(c[0] == 15);
    assert(c.subrange(1, 9) =~= word(n));
    assert(c.skip(9 + 8 * (n as int)) =~= Seq::<u8>::empty());
}

/// The code of a plain value computes one address.
pub proof fn lemma_value_scan(ctx: Ctx, v: Value, d: int)
    requires
        plain(v),
        value_code(ctx, v) is Ok,
        d >= 0,
    ensures
        scan(value_code(ctx, v)->Ok_0, d) == Some(d + 1),
    decreases v,
{
    match v {
        Value::Ref(inner, a) => {
            let code = value_code(ctx, *inner)->Ok_0;
            lemma_value_scan(ctx, *inner, d);
            lemma_scan_single(7, d + 1);
            lemma_scan_concat(code, seq![7u8], d);
        },
        Value::Deref(inner, a) => {
            let code = value_code(ctx, *inner)->Ok_0;
            lemma_value_scan(ctx, *inner, d);
            lemma_scan_single(8, d + 1);
            lemma_scan_concat(code, seq![8u8], d);
            match a {
                None => {},
                Some(_) => {
                    let t = crate::types::value_type(ctx, *inner)->Ok_0;
                    lemma_with_access_scan(ctx.structs, code + seq![8u8], t, a, d, d + 1);
                },
            }
        },
        Value::Tuple(parts, a) => {
            let n = parts@.len();
            assert(n == parts.len());
            let code = values_code_rev(ctx, parts@)->Ok_0;
            let sizes = sizes_code(ctx, parts@)->Ok_0;
            lemma_values_rev_scan(ctx, parts@, d);
            lemma_sizes_code_len(ctx, parts@);
            lemma_scan_tuple(n, sizes, d + n);
            let whole = code + seq![15u8] + word(n) + sizes;
            assert(whole =~= code + (seq![15u8] + word(n) + sizes));
            lemma_scan_concat(code, seq![15u8] + word(n) + sizes, d);
            match a {
                None => {},
                Some(_) => {
                    let ts = crate::types::values_types(ctx, parts@)->Ok_0;
                    lemma_with_access_scan(ctx.structs, whole, TypeTree::Tuple(ts), a, d, d + 1);
                },
            }
        },
        Value::String(s, _) => {
            let o = crate::names::lookup(ctx.data.strings, s@).unwrap();
            lemma_scan_numbered(1, o as nat, d);
        },
        Value::Number(Number::Integer(i, _)) => {
            let o = crate::consts::integer_offset(ctx.data.integers, i).unwrap();
            lemma_scan_numbered(1, o as nat, d);
        },
        Value::Number(Number::Float(f, _)) => {
            let o = crate::names::lookup(ctx.data.floats, f.text@).unwrap();
            lemma_scan_numbered(1, o as nat, d);
        },
        Value::Variable(id, a) => {
            lemma_variable_scan(ctx, id@, a, d);
        },
        _ => {},
    }
}

/// The code of plain values, the last first, computes one address for
/// each.
pub proof fn lemma_values_rev_scan(ctx: Ctx, vs: Seq<Value>, d: int)
    requires
        all_plain(vs),
        values_code_rev(ctx, vs) is Ok,
        d >= 0,
    ensures
        scan(values_code_rev(ctx, vs)->Ok_0, d) == Some(d + vs.len()),
    decreases vs,
{
    if vs.len() > 0 {
        let rest = vs.drop_first();
        assert(all_plain(rest)) by {
            assert forall|k: int| 0 <= k < rest.len() implies plain(#[trigger] rest[k]) by {
                assert(rest[k] == vs[k + 1]);
            }
        }
        let before = values_code_rev(ctx, rest)->Ok_0;
        let code = value_code(ctx, vs[0])->Ok_0;
        lemma_values_rev_scan(ctx, rest, d);
        lemma_value_scan(ctx, vs[0], d + rest.len());
        lemma_scan_concat(before, code, d);
    }
}

/// The code of plain values that are stored as targets uses up what it
/// computes.
proof fn lemma_targets_scan(ctx: Ctx, vs: Seq<Value>, d: int)
    requires
        all_plain(vs),
        targets_code(ctx, vs) is Ok,
        d >= 0,
    ensures
        scan(targets_code(ctx, vs)->Ok_0, d) == Some(d),
    decreases vs.len(),
{
    if vs.len() > 0 {
        let rest = vs.drop_last();
        let before = targets_code(ctx, rest)->Ok_0;
        let code = value_code(ctx, vs.last())->Ok_0;
        lemma_targets_scan(ctx, rest, d);
        lemma_value_scan(ctx, vs.last(), d);
        lemma_scan_single(9, d + 1);
        lemma_scan_concat(before, code, d);
        lemma_scan_concat(before + code, seq![9u8], d);
    }
}

/// The code of plain values that are stored as parameters uses up what
/// it computes.
proof fn lemma_params_scan(ctx: Ctx, vs: Seq<Value>, d: int)
    requires
        all_plain(vs),
        stored_params(ctx, vs) is Ok,
        d >= 0,
    ensures
        scan(stored_params(ctx, vs)->Ok_0, d) == Some(d),
    decreases vs.len(),
{
    if vs.len() > 0 {
        let rest = vs.drop_last();
        let before = stored_params(ctx, rest)->Ok_0;
        let code = value_code(ctx, vs.last())->Ok_0;
        lemma_params_scan(ctx, rest, d);
        lemma_value_scan(ctx, vs.last(), d);
        lemma_scan_single(10, d + 1);
        lemma_scan_concat(before, code, d);
        lemma_scan_concat(before + code, seq![10u8], d);
    }
}

/// The code of a plain operation, up to the opcode that hands it to the
/// processor, uses up the addresses that it computes.
pub proof fn lemma_operation_scan(ctx: Ctx, o: Operation)
    requires
        plain_operation(o),
        operation_code(ctx, o) is Ok,
    ensures
        ({
            let c = operation_code(ctx, o)->Ok_0;
            &&& c.len() >= 10
            &&& c[c.len() - 9] == 12
            &&& scan(c.take(c.len() - 9), 0) == Some(0int)
        }),
{
    reveal(operation_code);
    let c = operation_code(ctx, o)->Ok_0;
    let targets = targets_code(ctx, o.targets@)->Ok_0;
    let params = stored_params(ctx, o.params@)->Ok_0;
    let index = crate::names::lookup(ctx.ops, o.id@).unwrap().0;
    lemma_be_bytes_len(index as nat, 8);
    let body = seq![11u8] + targets + params;
    assert(c == body + seq![12u8] + word(index as nat));
    assert(c.take(c.len() - 9) =~= body);
    lemma_scan_single(11, 0);
    lemma_targets_scan(ctx, o.targets@, 0);
    lemma_params_scan(ctx, o.params@, 0);
    lemma_scan_concat(seq![11u8], targets, 0);
    lemma_scan_concat(seq![11u8] + targets, params, 0);
}

/// When the code that the encoder writes for a plain operation has run,
/// the operation goes to the processor with the addresses of the
/// machine as they were before the code began, or the code has failed:
/// every address that the code computed was stored for the operation.
pub proof fn lemma_operation_restores_addresses(
    ctx: Ctx,
    o: Operation,
    m: VmModel,
    code: Seq<u8>,
    pos: int,
)
    requires
        plain_operation(o),
        operation_code(ctx, o) is Ok,
        stands_at(code, pos, operation_code(ctx, o)->Ok_0),
    ensures
        match run(m, code, pos) {
            Flow::Call(after, _) => after.pointers == m.pointers,
            Flow::Fail(_) => true,
            _ => false,
        },
{
    let c = operation_code(ctx, o)->Ok_0;
    lemma_operation_scan(ctx, o);
    let body = c.take(c.len() - 9);
    let stop = pos + body.len();
    assert(code.subrange(pos, stop) =~= body);
    let base = m.pointers.len() as int;
    lemma_scanned_code_runs(m, code, pos, body, base, 0);
    match through(m, code, pos, stop) {
        Some(ready) => {
            lemma_through_run(m, code, pos, stop);
            assert(ready.pointers =~= ready.pointers.take(base));
            assert(m.pointers =~= m.pointers.take(base));
            assert(code.subrange(pos, pos + c.len())[c.len() - 9] == code[stop]);
            assert(parse_u8(code, stop) == Some((12u8, stop + 1)));
        },
        None => {},
    }
}

} // verus!
