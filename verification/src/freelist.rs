//! The list of free blocks of a heap. A block is a pair of its offset in
//! the heap and its length in bytes.

use itertools::Itertools;
use vstd::prelude::*;

verus! {

/// The first byte behind a block.
pub open spec fn end_of(b: (usize, usize)) -> int {
    b.0 + b.1
}

/// True when every block ends at or before `limit`.
pub open spec fn within(s: Seq<(usize, usize)>, limit: int) -> bool {
    forall|i: int| 0 <= i < s.len() ==> end_of(#[trigger] s[i]) <= limit
}

/// True when the block at `i` is the first that holds `size` bytes.
pub open spec fn is_first_fit(s: Seq<(usize, usize)>, size: usize, i: int) -> bool {
    &&& 0 <= i < s.len()
    &&& s[i].1 >= size
    &&& forall|j: int| 0 <= j < i ==> (#[trigger] s[j]).1 < size
}

/// The index of the first block that holds `size` bytes.
pub open spec fn first_fit(s: Seq<(usize, usize)>, size: usize) -> Option<int> {
    if exists|i: int| is_first_fit(s, size, i) {
        Some(choose|i: int| is_first_fit(s, size, i))
    } else {
        None
    }
}

/// One index at most is that of the first block that fits.
pub proof fn lemma_first_fit_unique(s: Seq<(usize, usize)>, size: usize, i: int)
    requires
        is_first_fit(s, size, i),
    ensures
        first_fit(s, size) == Some(i),
{
    let j = choose|j: int| is_first_fit(s, size, j);
    if j < i {
        assert(s[j].1 < size);
    } else if i < j {
        assert(s[i].1 < size);
    }
}

/// Where no block fits, none is the first that fits.
pub proof fn lemma_no_fit(s: Seq<(usize, usize)>, size: usize)
    requires
        no_fit(s, size),
    ensures
        first_fit(s, size) is None,
{
    if exists|i: int| is_first_fit(s, size, i) {
        let j = choose|j: int| is_first_fit(s, size, j);
        assert(s[j].1 < size);
    }
}

/// True when no block holds `size` bytes.
pub open spec fn no_fit(s: Seq<(usize, usize)>, size: usize) -> bool {
    forall|j: int| 0 <= j < s.len() ==> (#[trigger] s[j]).1 < size
}

/// The list after `size` bytes were taken from the front of the block at
/// `i`: the block leaves the list where it had just that size, and
/// begins `size` bytes later otherwise.
pub open spec fn taken_from(s: Seq<(usize, usize)>, i: int, size: usize) -> Seq<(usize, usize)> {
    if s[i].1 == size {
        s.remove(i)
    } else {
        s.update(i, ((s[i].0 + size) as usize, (s[i].1 - size) as usize))
    }
}

/// True when the `size` bytes at `offset` lie inside one block.
pub open spec fn contained(s: Seq<(usize, usize)>, offset: int, size: int) -> bool {
    exists|i: int| 0 <= i < s.len() && (#[trigger] s[i]).0 <= offset && offset + size <= end_of(s[i])
}

/// `s`, which is in ascending order of offset, with `x` behind the last
/// block whose offset is not larger.
pub open spec fn insert_block(s: Seq<(usize, usize)>, x: (usize, usize)) -> Seq<(usize, usize)>
    decreases s.len(),
{
    if s.len() == 0 {
        seq![x]
    } else if s.last().0 <= x.0 {
        s.push(x)
    } else {
        insert_block(s.drop_last(), x).push(s.last())
    }
}

/// The blocks of `s` in ascending order of offset, blocks of one offset
/// in the order that they have in `s`.
pub open spec fn sorted_by_offset(s: Seq<(usize, usize)>) -> Seq<(usize, usize)>
    decreases s.len(),
{
    if s.len() == 0 {
        s
    } else {
        insert_block(sorted_by_offset(s.drop_last()), s.last())
    }
}

/// The one block that `a` and `b` make, where `b` begins at the end of
/// `a`.
pub open spec fn merged(a: (usize, usize), b: (usize, usize)) -> Option<(usize, usize)> {
    if end_of(a) == b.0 && a.1 + b.1 <= usize::MAX {
        Some((a.0, (a.1 + b.1) as usize))
    } else {
        None
    }
}

/// The list that merging leaves of `last` followed by `rest`: each block
/// is merged into the one before it where `merged` gives a block.
pub open spec fn coalesce_from(last: (usize, usize), rest: Seq<(usize, usize)>) -> Seq<
    (usize, usize),
>
    decreases rest.len(),
{
    if rest.len() == 0 {
        seq![last]
    } else {
        match merged(last, rest[0]) {
            Some(m) => coalesce_from(m, rest.drop_first()),
            None => seq![last] + coalesce_from(rest[0], rest.drop_first()),
        }
    }
}

/// The list that merging leaves of `s`.
pub open spec fn coalesced(s: Seq<(usize, usize)>) -> Seq<(usize, usize)> {
    if s.len() == 0 {
        s
    } else {
        coalesce_from(s[0], s.drop_first())
    }
}

/// The number of bytes in the blocks of `s`.
pub open spec fn total_size(s: Seq<(usize, usize)>) -> nat
    decreases s.len(),
{
    if s.len() == 0 {
        0
    } else {
        total_size(s.drop_last()) + s.last().1 as nat
    }
}

/// Merges `b` into `a` where `b` begins at the end of `a`, and hands
/// both back otherwise.
pub fn merge(a: (usize, usize), b: (usize, usize)) -> (r: Result<
    (usize, usize),
    ((usize, usize), (usize, usize)),
>)
    ensures
        match r {
            Ok(m) => merged(a, b) == Some(m),
            Err(pair) => merged(a, b) is None && pair == (a, b),
        },
{
    match a.0.checked_add(a.1) {
        Some(end) => {
            if end == b.0 {
                match a.1.checked_add(b.1) {
                    Some(size) => Ok((a.0, size)),
                    None => Err((a, b)),
                }
            } else {
                Err((a, b))
            }
        },
        None => Err((a, b)),
    }
}

/// `slice::sort_by_key` with the offset as key: the blocks in ascending
/// order of offset; the sort is stable, so blocks of one offset keep
/// their order.
#[verifier::external_body]
pub(crate) fn sort_blocks(blocks: &mut Vec<(usize, usize)>)
    ensures
        final(blocks)@ == sorted_by_offset(old(blocks)@),
{
    blocks.sort_by_key(|b| b.0);
}

/// `itertools::Itertools::coalesce` with `merge` as the closure: the
/// iterator hands `merge` the block it holds and the next one, keeps
/// the merged block where `merge` gives one, and otherwise emits the
/// block it held and holds the next; at the end it emits the block it
/// holds.
#[verifier::external_body]
pub(crate) fn coalesce_blocks(blocks: Vec<(usize, usize)>) -> (r: Vec<(usize, usize)>)
    ensures
        r@ == coalesced(blocks@),
{
    blocks.into_iter().coalesce(|a, b| merge(a, b)).collect()
}

// ---------------------------------------------------------------------------
// What sorting and merging keep
// ---------------------------------------------------------------------------

pub proof fn lemma_insert_within(s: Seq<(usize, usize)>, x: (usize, usize), limit: int)
    requires
        within(s, limit),
        end_of(x) <= limit,
    ensures
        within(insert_block(s, x), limit),
        insert_block(s, x).len() == s.len() + 1,
    decreases s.len(),
{
    if s.len() != 0 && s.last().0 > x.0 {
        lemma_insert_within(s.drop_last(), x, limit);
    }
}

pub proof fn lemma_sorted_within(s: Seq<(usize, usize)>, limit: int)
    requires
        within(s, limit),
    ensures
        within(sorted_by_offset(s), limit),
        sorted_by_offset(s).len() == s.len(),
    decreases s.len(),
{
    if s.len() != 0 {
        lemma_sorted_within(s.drop_last(), limit);
        lemma_insert_within(sorted_by_offset(s.drop_last()), s.last(), limit);
    }
}

pub proof fn lemma_coalesce_from_within(last: (usize, usize), rest: Seq<(usize, usize)>, limit: int)
    requires
        within(rest, limit),
        end_of(last) <= limit,
    ensures
        within(coalesce_from(last, rest), limit),
    decreases rest.len(),
{
    if rest.len() != 0 {
        let tail = rest.drop_first();
        assert(end_of(rest[0]) <= limit);
        assert forall|i: int| 0 <= i < tail.len() implies end_of(#[trigger] tail[i]) <= limit by {
            assert(tail[i] == rest[i + 1]);
        }
        match merged(last, rest[0]) {
            Some(m) => {
                lemma_coalesce_from_within(m, tail, limit);
            },
            None => {
                lemma_coalesce_from_within(rest[0], tail, limit);
            },
        }
    }
}

/// Sorting and merging leave every block inside the heap.
pub proof fn lemma_defragment_within(s: Seq<(usize, usize)>, limit: int)
    requires
        within(s, limit),
    ensures
        within(coalesced(sorted_by_offset(s)), limit),
{
    lemma_sorted_within(s, limit);
    let t = sorted_by_offset(s);
    if t.len() != 0 {
        let tail = t.drop_first();
        assert(end_of(t[0]) <= limit);
        assert forall|i: int| 0 <= i < tail.len() implies end_of(#[trigger] tail[i]) <= limit by {
            assert(tail[i] == t[i + 1]);
        }
        lemma_coalesce_from_within(t[0], tail, limit);
    }
}

// ---------------------------------------------------------------------------
// Compact lists
// ---------------------------------------------------------------------------

/// True when the blocks stand in ascending order, share no byte, and none
/// begins where another ends.
pub open spec fn compact(s: Seq<(usize, usize)>) -> bool {
    forall|i: int, j: int| 0 <= i < j < s.len() ==> end_of(#[trigger] s[i]) < (#[trigger] s[j]).0
}

/// True when the blocks stand in ascending order of offset.
pub open spec fn ordered(s: Seq<(usize, usize)>) -> bool {
    forall|i: int, j: int| 0 <= i < j < s.len() ==> (#[trigger] s[i]).0 <= (#[trigger] s[j]).0
}

/// True when the byte at the offset `o` lies in the block `b`.
pub open spec fn in_block(b: (usize, usize), o: int) -> bool {
    b.0 <= o < end_of(b)
}

/// True when the byte at the offset `o` is free.
pub open spec fn covers(s: Seq<(usize, usize)>, o: int) -> bool {
    exists|i: int| 0 <= i < s.len() && in_block(#[trigger] s[i], o)
}

/// True when `x` shares no byte with a block of `s` and lies inside
/// none.
pub open spec fn apart(s: Seq<(usize, usize)>, x: (usize, usize)) -> bool {
    forall|i: int|
        0 <= i < s.len() ==> (end_of(x) <= (#[trigger] s[i]).0 || end_of(s[i]) <= x.0) && !(s[i].0
            <= x.0 && end_of(x) <= end_of(s[i]))
}

/// Taking bytes from the first block that fits leaves a compact list
/// compact; the bytes taken were free, and they are the only ones that
/// are free no longer.
pub proof fn lemma_take_from_compact(s: Seq<(usize, usize)>, size: usize, i: int)
    requires
        compact(s),
        is_first_fit(s, size, i),
        end_of(s[i]) <= usize::MAX,
    ensures
        compact(taken_from(s, i, size)),
        forall|o: int| s[i].0 <= o < s[i].0 + size ==> covers(s, o),
        forall|o: int|
            covers(taken_from(s, i, size), o) <==> covers(s, o) && !(s[i].0 <= o < s[i].0 + size),
{
    let t = taken_from(s, i, size);
    assert forall|o: int| s[i].0 <= o < s[i].0 + size implies covers(s, o) by {
        assert(in_block(s[i], o));
    }
    if s[i].1 == size {
        assert forall|a: int, b: int| 0 <= a < b < t.len() implies end_of(#[trigger] t[a]) < (
        #[trigger] t[b]).0 by {
            let a2 = if a < i { a } else { a + 1 };
            let b2 = if b < i { b } else { b + 1 };
            assert(t[a] == s[a2] && t[b] == s[b2]);
        }
        assert forall|o: int|
            covers(t, o) <==> covers(s, o) && !(s[i].0 <= o < s[i].0 + size) by {
            if covers(t, o) {
                let w = choose|w: int| 0 <= w < t.len() && in_block(#[trigger] t[w], o);
                let w2 = if w < i { w } else { w + 1 };
                assert(t[w] == s[w2]);
                assert(in_block(s[w2], o));
                if w2 < i {
                    assert(end_of(s[w2]) < s[i].0);
                } else {
                    assert(end_of(s[i]) < s[w2].0);
                }
            }
            if covers(s, o) && !(s[i].0 <= o < s[i].0 + size) {
                let w = choose|w: int| 0 <= w < s.len() && in_block(#[trigger] s[w], o);
                let w2 = if w < i { w } else { w - 1 };
                assert(t[w2] == s[w]);
                assert(in_block(t[w2], o));
            }
        }
    } else {
        assert forall|a: int, b: int| 0 <= a < b < t.len() implies end_of(#[trigger] t[a]) < (
        #[trigger] t[b]).0 by {
            assert(end_of(s[a]) < s[b].0);
        }
        assert forall|o: int|
            covers(t, o) <==> covers(s, o) && !(s[i].0 <= o < s[i].0 + size) by {
            if covers(t, o) {
                let w = choose|w: int| 0 <= w < t.len() && in_block(#[trigger] t[w], o);
                assert(in_block(s[w], o));
                if w < i {
                    assert(end_of(s[w]) < s[i].0);
                } else if w > i {
                    assert(end_of(s[i]) < s[w].0);
                }
            }
            if covers(s, o) && !(s[i].0 <= o < s[i].0 + size) {
                let w = choose|w: int| 0 <= w < s.len() && in_block(#[trigger] s[w], o);
                assert(in_block(t[w], o));
            }
        }
    }
}

/// A list in ascending order is its own sorted list.
pub proof fn lemma_sorted_of_ordered(s: Seq<(usize, usize)>)
    requires
        ordered(s),
    ensures
        sorted_by_offset(s) == s,
    decreases s.len(),
{
    if s.len() != 0 {
        let t = s.drop_last();
        lemma_sorted_of_ordered(t);
        if t.len() != 0 {
            assert(t.last() == s[s.len() - 2]);
            assert(t.push(s.last()) =~= s);
        } else {
            assert(seq![s.last()] =~= s);
        }
    }
}

/// Where `insert_block` puts a block: behind the blocks whose offset is
/// not larger, and before the others.
pub proof fn lemma_insert_position(s: Seq<(usize, usize)>, x: (usize, usize)) -> (k: int)
    requires
        ordered(s),
    ensures
        0 <= k <= s.len(),
        insert_block(s, x) == s.take(k).push(x) + s.skip(k),
        forall|i: int| 0 <= i < k ==> (#[trigger] s[i]).0 <= x.0,
        forall|i: int| k <= i < s.len() ==> (#[trigger] s[i]).0 > x.0,
    decreases s.len(),
{
    if s.len() == 0 {
        assert(insert_block(s, x) =~= s.take(0).push(x) + s.skip(0));
        0
    } else if s.last().0 <= x.0 {
        let k = s.len() as int;
        assert(insert_block(s, x) =~= s.take(k).push(x) + s.skip(k));
        assert forall|i: int| 0 <= i < k implies (#[trigger] s[i]).0 <= x.0 by {
            if i < k - 1 {
                assert(s[i].0 <= s[k - 1].0);
            }
        }
        k
    } else {
        let t = s.drop_last();
        let k = lemma_insert_position(t, x);
        assert(insert_block(s, x) =~= s.take(k).push(x) + s.skip(k)) by {
            assert(t.take(k) =~= s.take(k));
            assert(t.skip(k).push(s.last()) =~= s.skip(k));
        }
        assert forall|i: int| 0 <= i < k implies (#[trigger] s[i]).0 <= x.0 by {
            assert(s[i] == t[i]);
        }
        assert forall|i: int| k <= i < s.len() implies (#[trigger] s[i]).0 > x.0 by {
            if i < s.len() - 1 {
                assert(s[i] == t[i]);
            }
        }
        k
    }
}

/// Merging changes nothing in a compact list.
pub proof fn lemma_coalesce_compact(last: (usize, usize), rest: Seq<(usize, usize)>)
    requires
        compact(seq![last] + rest),
    ensures
        coalesce_from(last, rest) == seq![last] + rest,
    decreases rest.len(),
{
    let all = seq![last] + rest;
    if rest.len() != 0 {
        let tail = rest.drop_first();
        assert(all[0] == last && all[1] == rest[0]);
        assert(end_of(all[0]) < all[1].0);
        assert(seq![rest[0]] + tail =~= rest);
        assert forall|i: int, j: int| 0 <= i < j < rest.len() implies end_of(#[trigger] rest[i]) < (
        #[trigger] rest[j]).0 by {
            assert(rest[i] == all[i + 1] && rest[j] == all[j + 1]);
        }
        lemma_coalesce_compact(rest[0], tail);
        assert(seq![last] + (seq![rest[0]] + tail) =~= all);
    }
}

/// Merging passes over a compact front of a list unchanged.
pub proof fn lemma_coalesce_prefix(
    last: (usize, usize),
    pre: Seq<(usize, usize)>,
    rest: Seq<(usize, usize)>,
)
    requires
        compact(seq![last] + pre),
    ensures
        coalesce_from(last, pre + rest) == (seq![last] + pre).drop_last() + coalesce_from(
            (seq![last] + pre).last(),
            rest,
        ),
    decreases pre.len(),
{
    let front = seq![last] + pre;
    if pre.len() == 0 {
        assert(pre + rest =~= rest);
        assert(front.drop_last() + coalesce_from(last, rest) =~= coalesce_from(last, rest));
    } else {
        let tail = pre.drop_first();
        assert(front[0] == last && front[1] == pre[0]);
        assert(end_of(front[0]) < front[1].0);
        assert((pre + rest)[0] == pre[0]);
        assert((pre + rest).drop_first() =~= tail + rest);
        assert(seq![pre[0]] + tail =~= pre);
        assert forall|i: int, j: int| 0 <= i < j < pre.len() implies end_of(#[trigger] pre[i]) < (
        #[trigger] pre[j]).0 by {
            assert(pre[i] == front[i + 1] && pre[j] == front[j + 1]);
        }
        lemma_coalesce_prefix(pre[0], tail, rest);
        assert(pre.last() == front.last());
        assert(seq![last] + (pre.drop_last() + coalesce_from(pre.last(), rest))
            =~= front.drop_last() + coalesce_from(front.last(), rest));
    }
}

/// Merging a block with a compact list that lies behind it: the block
/// takes the first block of the list in where that one begins at its
/// end, and nothing else changes.
pub proof fn lemma_coalesce_join(m: (usize, usize), rest: Seq<(usize, usize)>)
    requires
        compact(rest),
        within(rest, usize::MAX as int),
        forall|i: int| 0 <= i < rest.len() ==> end_of(m) <= (#[trigger] rest[i]).0,
    ensures
        coalesce_from(m, rest) == if rest.len() > 0 && end_of(m) == rest[0].0 {
            seq![(m.0, (m.1 + rest[0].1) as usize)] + rest.drop_first()
        } else {
            seq![m] + rest
        },
{
    if rest.len() > 0 && end_of(m) == rest[0].0 {
        let tail = rest.drop_first();
        assert(end_of(rest[0]) <= usize::MAX);
        let joined = (m.0, (m.1 + rest[0].1) as usize);
        assert(merged(m, rest[0]) == Some(joined));
        let all = seq![joined] + tail;
        assert forall|i: int, j: int| 0 <= i < j < all.len() implies end_of(#[trigger] all[i]) < (
        #[trigger] all[j]).0 by {
            assert(all[j] == rest[j]);
            if i == 0 {
                assert(end_of(rest[0]) < rest[j].0);
            } else {
                assert(all[i] == rest[i]);
            }
        }
        lemma_coalesce_compact(joined, tail);
    } else {
        let all = seq![m] + rest;
        assert forall|i: int, j: int| 0 <= i < j < all.len() implies end_of(#[trigger] all[i]) < (
        #[trigger] all[j]).0 by {
            assert(all[j] == rest[j - 1]);
            if i == 0 {
                assert(end_of(m) <= rest[j - 1].0);
                if j - 1 > 0 {
                    assert(end_of(rest[0]) < rest[j - 1].0);
                    assert(end_of(m) <= rest[0].0);
                }
            } else {
                assert(all[i] == rest[i - 1]);
            }
        }
        lemma_coalesce_compact(m, rest);
    }
}

/// A compact list in which the blocks from `lo` up to `hi` are replaced
/// by the one block `m` that holds their bytes and those of `x`: the
/// list is compact, and free are the bytes that were free and those of
/// `x`.
pub proof fn lemma_splice(
    s: Seq<(usize, usize)>,
    lo: int,
    hi: int,
    m: (usize, usize),
    x: (usize, usize),
)
    requires
        compact(s),
        0 <= lo <= hi <= s.len(),
        forall|i: int| 0 <= i < lo ==> end_of(#[trigger] s[i]) < m.0,
        forall|i: int| hi <= i < s.len() ==> end_of(m) < (#[trigger] s[i]).0,
        forall|o: int|
            in_block(m, o) <==> in_block(x, o) || exists|i: int|
                lo <= i < hi && in_block(#[trigger] s[i], o),
    ensures
        compact(s.take(lo).push(m) + s.skip(hi)),
        forall|o: int| covers(s.take(lo).push(m) + s.skip(hi), o) <==> covers(s, o) || in_block(x, o),
{
    let r = s.take(lo).push(m) + s.skip(hi);
    assert forall|a: int, b: int| 0 <= a < b < r.len() implies end_of(#[trigger] r[a]) < (
    #[trigger] r[b]).0 by {
        if b < lo {
            assert(r[a] == s[a] && r[b] == s[b]);
        } else if b == lo {
            assert(r[a] == s[a]);
        } else {
            assert(r[b] == s[hi + (b - lo - 1)]);
            if a < lo {
                assert(r[a] == s[a]);
            } else if a > lo {
                assert(r[a] == s[hi + (a - lo - 1)]);
            }
        }
    }
    assert forall|o: int| covers(r, o) <==> covers(s, o) || in_block(x, o) by {
        if covers(r, o) {
            let w = choose|w: int| 0 <= w < r.len() && in_block(#[trigger] r[w], o);
            if w < lo {
                assert(r[w] == s[w]);
            } else if w == lo {
                assert(in_block(m, o));
                if !in_block(x, o) {
                    let i = choose|i: int| lo <= i < hi && in_block(#[trigger] s[i], o);
                    assert(in_block(s[i], o));
                }
            } else {
                assert(r[w] == s[hi + (w - lo - 1)]);
            }
        }
        if covers(s, o) {
            let w = choose|w: int| 0 <= w < s.len() && in_block(#[trigger] s[w], o);
            if w < lo {
                assert(r[w] == s[w]);
            } else if w < hi {
                assert(in_block(m, o));
                assert(r[lo] == m);
            } else {
                assert(r[lo + 1 + (w - hi)] == s[w]);
            }
        }
        if in_block(x, o) {
            assert(in_block(m, o));
            assert(r[lo] == m);
        }
    }
}

/// True when the block before the place `k` ends where `x` begins.
pub open spec fn joins_left(s: Seq<(usize, usize)>, x: (usize, usize), k: int) -> bool {
    k > 0 && end_of(s[k - 1]) == x.0
}

/// True when the block at the place `k` begins where `x` ends.
pub open spec fn joins_right(s: Seq<(usize, usize)>, x: (usize, usize), k: int) -> bool {
    k < s.len() && end_of(x) == s[k].0
}

/// The block that `x` makes with the neighbours that it joins.
pub open spec fn joined(s: Seq<(usize, usize)>, x: (usize, usize), k: int) -> (usize, usize) {
    let left = joins_left(s, x, k);
    let right = joins_right(s, x, k);
    (
        if left {
            s[k - 1].0
        } else {
            x.0
        },
        (x.1 + (if left {
            s[k - 1].1
        } else {
            0
        }) + (if right {
            s[k].1
        } else {
            0
        })) as usize,
    )
}

/// The list with `x` at the place `k`, merged: the neighbours that `x`
/// joins give way to the joined block.
pub open spec fn released(s: Seq<(usize, usize)>, x: (usize, usize), k: int) -> Seq<(usize, usize)> {
    let lo = if joins_left(s, x, k) {
        k - 1
    } else {
        k
    };
    let hi = if joins_right(s, x, k) {
        k + 1
    } else {
        k
    };
    s.take(lo).push(joined(s, x, k)) + s.skip(hi)
}

/// True when `k` is the place of `x` in `s`: the blocks before it end at
/// or before `x`, the others begin at or behind its end.
pub open spec fn is_place(s: Seq<(usize, usize)>, x: (usize, usize), k: int) -> bool {
    &&& 0 <= k <= s.len()
    &&& forall|i: int| 0 <= i < k ==> end_of(#[trigger] s[i]) <= x.0
    &&& forall|i: int| k <= i < s.len() ==> end_of(x) <= (#[trigger] s[i]).0
}

/// The sorted list of a compact list and a block apart from it: the
/// block stands at its place.
pub proof fn lemma_release_place(s: Seq<(usize, usize)>, x: (usize, usize)) -> (k: int)
    requires
        compact(s),
        apart(s, x),
    ensures
        is_place(s, x, k),
        sorted_by_offset(s.push(x)) == s.take(k).push(x) + s.skip(k),
{
    assert(ordered(s)) by {
        assert forall|i: int, j: int| 0 <= i < j < s.len() implies (#[trigger] s[i]).0 <= (
        #[trigger] s[j]).0 by {
            assert(end_of(s[i]) < s[j].0);
        }
    }
    assert(s.push(x).drop_last() =~= s);
    lemma_sorted_of_ordered(s);
    let k = lemma_insert_position(s, x);
    assert forall|i: int| 0 <= i < k implies end_of(#[trigger] s[i]) <= x.0 by {}
    assert forall|i: int| k <= i < s.len() implies end_of(x) <= (#[trigger] s[i]).0 by {}
    k
}

/// What merging makes of the blocks from `x` on.
proof fn lemma_release_tail(s: Seq<(usize, usize)>, x: (usize, usize), k: int, base: (usize, usize))
    requires
        compact(s),
        within(s, usize::MAX as int),
        is_place(s, x, k),
        end_of(base) == end_of(x),
    ensures
        coalesce_from(base, s.skip(k)) == if joins_right(s, x, k) {
            seq![(base.0, (base.1 + s[k].1) as usize)] + s.skip(k + 1)
        } else {
            seq![base] + s.skip(k)
        },
{
    let suffix = s.skip(k);
    assert forall|i: int, j: int| 0 <= i < j < suffix.len() implies end_of(#[trigger] suffix[i]) < (
    #[trigger] suffix[j]).0 by {
        assert(suffix[i] == s[k + i] && suffix[j] == s[k + j]);
    }
    assert forall|i: int| 0 <= i < suffix.len() implies end_of(#[trigger] suffix[i])
        <= usize::MAX by {
        assert(suffix[i] == s[k + i]);
    }
    assert forall|i: int| 0 <= i < suffix.len() implies end_of(base) <= (#[trigger] suffix[i]).0 by {
        assert(suffix[i] == s[k + i]);
    }
    lemma_coalesce_join(base, suffix);
    if k < s.len() {
        assert(suffix[0] == s[k]);
        assert(suffix.drop_first() =~= s.skip(k + 1));
    }
}

/// Merging passes over the blocks before the place of `x` unchanged.
proof fn lemma_release_front(s: Seq<(usize, usize)>, x: (usize, usize), k: int)
    requires
        compact(s),
        0 < k <= s.len(),
    ensures
        coalesced(s.take(k).push(x) + s.skip(k)) == s.take(k - 1) + coalesce_from(
            s[k - 1],
            seq![x] + s.skip(k),
        ),
{
    let f = s.take(k).push(x) + s.skip(k);
    let suffix = s.skip(k);
    let pre = s.subrange(1, k);
    assert(f[0] == s[0]);
    assert(f.drop_first() =~= pre + (seq![x] + suffix));
    assert(seq![s[0]] + pre =~= s.take(k));
    assert(compact(s.take(k))) by {
        assert forall|i: int, j: int| 0 <= i < j < k implies end_of(#[trigger] s.take(k)[i]) < (
        #[trigger] s.take(k)[j]).0 by {
            assert(s.take(k)[i] == s[i] && s.take(k)[j] == s[j]);
        }
    }
    lemma_coalesce_prefix(s[0], pre, seq![x] + suffix);
    assert(s.take(k).drop_last() =~= s.take(k - 1));
    assert(s.take(k).last() == s[k - 1]);
}

/// What merging makes of the block before the place of `x`, of `x` and
/// of the blocks behind it.
proof fn lemma_release_rest(s: Seq<(usize, usize)>, x: (usize, usize), k: int)
    requires
        compact(s),
        within(s, usize::MAX as int),
        end_of(x) <= usize::MAX,
        is_place(s, x, k),
        k > 0,
    ensures
        s.take(k - 1) + coalesce_from(s[k - 1], seq![x] + s.skip(k)) == released(s, x, k),
{
    let p = s[k - 1];
    let suffix = s.skip(k);
    let rest = seq![x] + suffix;
    assert(rest[0] == x);
    assert(rest.drop_first() =~= suffix);
    assert(end_of(p) <= x.0);
    if joins_left(s, x, k) {
        let base = (p.0, (p.1 + x.1) as usize);
        assert(merged(p, x) == Some(base));
        assert(coalesce_from(p, rest) == coalesce_from(base, suffix));
        lemma_release_tail(s, x, k, base);
        if joins_right(s, x, k) {
            assert(s.take(k - 1) + (seq![joined(s, x, k)] + s.skip(k + 1)) =~= s.take(k - 1).push(
                joined(s, x, k),
            ) + s.skip(k + 1));
        } else {
            assert(s.take(k - 1) + (seq![joined(s, x, k)] + s.skip(k)) =~= s.take(k - 1).push(
                joined(s, x, k),
            ) + s.skip(k));
        }
    } else {
        assert(merged(p, x) is None);
        assert(coalesce_from(p, rest) == seq![p] + coalesce_from(x, suffix));
        lemma_release_tail(s, x, k, x);
        assert(s.take(k - 1) + seq![p] =~= s.take(k));
        if joins_right(s, x, k) {
            assert(s.take(k - 1) + (seq![p] + (seq![joined(s, x, k)] + s.skip(k + 1))) =~= s.take(
                k,
            ).push(joined(s, x, k)) + s.skip(k + 1));
        } else {
            assert(s.take(k - 1) + (seq![p] + (seq![joined(s, x, k)] + s.skip(k))) =~= s.take(
                k,
            ).push(joined(s, x, k)) + s.skip(k));
        }
    }
}

/// Sorting and merging a compact list with a block at its place gives
/// `released`.
proof fn lemma_release_shape(s: Seq<(usize, usize)>, x: (usize, usize), k: int)
    requires
        compact(s),
        within(s, usize::MAX as int),
        end_of(x) <= usize::MAX,
        is_place(s, x, k),
    ensures
        coalesced(s.take(k).push(x) + s.skip(k)) == released(s, x, k),
{
    if k == 0 {
        let f = s.take(k).push(x) + s.skip(k);
        assert(f[0] == x);
        assert(f.drop_first() =~= s.skip(k));
        lemma_release_tail(s, x, k, x);
        if joins_right(s, x, k) {
            assert(seq![joined(s, x, k)] + s.skip(k + 1) =~= s.take(0).push(joined(s, x, k))
                + s.skip(k + 1));
        } else {
            assert(seq![joined(s, x, k)] + s.skip(k) =~= s.take(0).push(joined(s, x, k)) + s.skip(
                k,
            ));
        }
    } else {
        lemma_release_front(s, x, k);
        lemma_release_rest(s, x, k);
    }
}

/// `released` is compact, and free in it are the bytes that were free and
/// those of the block.
proof fn lemma_released_compact(s: Seq<(usize, usize)>, x: (usize, usize), k: int)
    requires
        compact(s),
        within(s, usize::MAX as int),
        end_of(x) <= usize::MAX,
        is_place(s, x, k),
    ensures
        compact(released(s, x, k)),
        forall|o: int| covers(released(s, x, k), o) <==> covers(s, o) || in_block(x, o),
{
    let left = joins_left(s, x, k);
    let right = joins_right(s, x, k);
    let lo = if left { k - 1 } else { k };
    let hi = if right { k + 1 } else { k };
    let m = joined(s, x, k);
    if left {
        assert(end_of(s[k - 1]) <= usize::MAX);
    }
    if right {
        assert(end_of(s[k]) <= usize::MAX);
    }
    assert forall|o: int|
        in_block(m, o) <==> in_block(x, o) || exists|i: int|
            lo <= i < hi && in_block(#[trigger] s[i], o) by {
        if in_block(m, o) && !in_block(x, o) {
            if left && o < x.0 {
                assert(in_block(s[k - 1], o));
            } else {
                assert(right);
                assert(in_block(s[k], o));
            }
        }
        if exists|i: int| lo <= i < hi && in_block(#[trigger] s[i], o) {
            let i = choose|i: int| lo <= i < hi && in_block(#[trigger] s[i], o);
            assert(i == k - 1 || i == k);
        }
    }
    assert forall|i: int| 0 <= i < lo implies end_of(#[trigger] s[i]) < m.0 by {
        if left {
            assert(end_of(s[i]) < s[k - 1].0);
        } else {
            assert(end_of(s[i]) <= x.0);
            if i < k - 1 {
                assert(end_of(s[i]) < s[k - 1].0);
                assert(end_of(s[k - 1]) <= x.0);
            }
        }
    }
    assert forall|i: int| hi <= i < s.len() implies end_of(m) < (#[trigger] s[i]).0 by {
        if right {
            assert(end_of(s[k]) < s[i].0);
        } else {
            assert(end_of(x) <= s[i].0);
            if i > k {
                assert(end_of(s[k]) < s[i].0);
                assert(end_of(x) <= s[k].0);
            }
        }
    }
    lemma_splice(s, lo, hi, m, x);
}

/// A block that shares no byte with the free blocks and joins a compact
/// list leaves it compact once the list is sorted and merged; free are
/// then the bytes that were free and those of the block.
pub proof fn lemma_release_into_compact(s: Seq<(usize, usize)>, x: (usize, usize))
    requires
        compact(s),
        within(s, usize::MAX as int),
        end_of(x) <= usize::MAX,
        apart(s, x),
    ensures
        compact(coalesced(sorted_by_offset(s.push(x)))),
        forall|o: int|
            covers(coalesced(sorted_by_offset(s.push(x))), o) <==> covers(s, o) || in_block(x, o),
{
    let k = lemma_release_place(s, x);
    lemma_release_shape(s, x, k);
    lemma_released_compact(s, x, k);
}

// ---------------------------------------------------------------------------
// A heap in use
// ---------------------------------------------------------------------------

/// True when every block holds a byte.
pub open spec fn positive(s: Seq<(usize, usize)>) -> bool {
    forall|i: int| 0 <= i < s.len() ==> (#[trigger] s[i]).1 > 0
}

/// True when the two blocks share no byte.
pub open spec fn disjoint(a: (usize, usize), b: (usize, usize)) -> bool {
    end_of(a) <= b.0 || end_of(b) <= a.0
}

/// True when the free list `free` and the blocks in use `live` are in
/// order: the free blocks stand in ascending order, share no byte,
/// touch nowhere and hold a byte each; the blocks in use hold a byte
/// each, share no byte with each other and none with a free block.
pub open spec fn tidy(free: Seq<(usize, usize)>, live: Seq<(usize, usize)>) -> bool {
    &&& compact(free)
    &&& positive(free)
    &&& within(free, usize::MAX as int)
    &&& forall|j: int|
        0 <= j < live.len() ==> (#[trigger] live[j]).1 > 0 && end_of(live[j]) <= usize::MAX
            && apart(free, live[j])
    &&& forall|j: int, k: int|
        0 <= j < live.len() && 0 <= k < live.len() && j != k ==> disjoint(
            #[trigger] live[j],
            #[trigger] live[k],
        )
}

/// A heap of which nothing is in use is in order.
pub proof fn lemma_fresh_tidy(memory_size: usize)
    requires
        memory_size > 0,
    ensures
        tidy(seq![(0usize, memory_size)], Seq::empty()),
{
}

/// Taking a block from a heap in order leaves it in order, with the
/// block in use.
pub proof fn lemma_alloc_keeps_tidy(
    free: Seq<(usize, usize)>,
    live: Seq<(usize, usize)>,
    size: usize,
    i: int,
)
    requires
        tidy(free, live),
        size > 0,
        is_first_fit(free, size, i),
    ensures
        tidy(taken_from(free, i, size), live.push((free[i].0, size))),
{
    let t = taken_from(free, i, size);
    let x = (free[i].0, size);
    let all = live.push(x);
    assert(end_of(free[i]) <= usize::MAX);
    lemma_take_from_compact(free, size, i);
    // every block that is left ends where a block ended that was free, and
    // begins behind what was taken where it is the rest of that block
    assert forall|w: int| 0 <= w < t.len() implies (#[trigger] t[w]).1 > 0 && end_of(t[w])
        <= usize::MAX && exists|v: int|
        0 <= v < free.len() && free[v].0 <= t[w].0 && end_of(t[w]) == end_of(free[v]) && (v == i
            ==> t[w].0 == end_of(x)) by {
        if free[i].1 == size {
            let v = if w < i { w } else { w + 1 };
            assert(t[w] == free[v]);
        } else {
            assert(t[w] == if w == i {
                ((free[i].0 + size) as usize, (free[i].1 - size) as usize)
            } else {
                free[w]
            });
            let v = w;
            assert(0 <= v < free.len());
        }
    }
    assert forall|j: int| 0 <= j < all.len() implies (#[trigger] all[j]).1 > 0 && end_of(all[j])
        <= usize::MAX && apart(t, all[j]) by {
        let y = all[j];
        assert forall|w: int| 0 <= w < t.len() implies (end_of(y) <= (#[trigger] t[w]).0 || end_of(
            t[w],
        ) <= y.0) && !(t[w].0 <= y.0 && end_of(y) <= end_of(t[w])) by {
            let v = choose|v: int|
                0 <= v < free.len() && free[v].0 <= t[w].0 && end_of(t[w]) == end_of(free[v]) && (v
                    == i ==> t[w].0 == end_of(x));
            if j < live.len() {
                assert(y == live[j]);
                assert(end_of(y) <= free[v].0 || end_of(free[v]) <= y.0);
            } else {
                assert(y == x);
                if v < i {
                    assert(end_of(free[v]) < free[i].0);
                } else if v > i {
                    assert(end_of(free[i]) < free[v].0);
                }
            }
        }
    }
    assert forall|j: int, k: int|
        0 <= j < all.len() && 0 <= k < all.len() && j != k implies disjoint(
        #[trigger] all[j],
        #[trigger] all[k],
    ) by {
        if j < live.len() && k < live.len() {
            assert(disjoint(live[j], live[k]));
        } else if j < live.len() {
            assert(end_of(live[j]) <= free[i].0 || end_of(free[i]) <= live[j].0);
        } else {
            assert(end_of(live[k]) <= free[i].0 || end_of(free[i]) <= live[k].0);
        }
    }
}

/// Giving back a block that is in use leaves a heap in order in order,
/// with the block in use no longer.
pub proof fn lemma_dealloc_keeps_tidy(
    free: Seq<(usize, usize)>,
    live: Seq<(usize, usize)>,
    k: int,
)
    requires
        tidy(free, live),
        0 <= k < live.len(),
    ensures
        tidy(coalesced(sorted_by_offset(free.push(live[k]))), live.remove(k)),
{
    let x = live[k];
    let rest = live.remove(k);
    let at = lemma_release_place(free, x);
    lemma_release_shape(free, x, at);
    lemma_released_compact(free, x, at);
    let after = released(free, x, at);
    assert(after == coalesced(sorted_by_offset(free.push(x))));
    let left = joins_left(free, x, at);
    let right = joins_right(free, x, at);
    let lo = if left { at - 1 } else { at };
    let hi = if right { at + 1 } else { at };
    let m = joined(free, x, at);
    if left {
        assert(end_of(free[at - 1]) <= usize::MAX);
    }
    if right {
        assert(end_of(free[at]) <= usize::MAX);
    }
    assert forall|w: int| 0 <= w < after.len() implies (#[trigger] after[w]).1 > 0 && end_of(
        after[w],
    ) <= usize::MAX && (after[w] == m || exists|v: int| 0 <= v < free.len() && free[v] == after[w]) by {
        if w < lo {
            assert(after[w] == free[w]);
        } else if w == lo {
            assert(after[w] == m);
        } else {
            assert(after[w] == free[hi + (w - lo - 1)]);
        }
    }
    assert forall|j: int| 0 <= j < rest.len() implies (#[trigger] rest[j]).1 > 0 && end_of(rest[j])
        <= usize::MAX && apart(after, rest[j]) by {
        let j2 = if j < k { j } else { j + 1 };
        let y = rest[j];
        assert(y == live[j2]);
        assert(disjoint(live[j2], live[k]));
        assert forall|w: int| 0 <= w < after.len() implies (end_of(y) <= (#[trigger] after[w]).0
            || end_of(after[w]) <= y.0) && !(after[w].0 <= y.0 && end_of(y) <= end_of(after[w])) by {
            if after[w] == m {
                if left {
                    assert(end_of(y) <= free[at - 1].0 || end_of(free[at - 1]) <= y.0);
                }
                if right {
                    assert(end_of(y) <= free[at].0 || end_of(free[at]) <= y.0);
                }
            } else {
                let v = choose|v: int| 0 <= v < free.len() && free[v] == after[w];
                assert(end_of(y) <= free[v].0 || end_of(free[v]) <= y.0);
            }
        }
    }
    assert forall|a: int, b: int|
        0 <= a < rest.len() && 0 <= b < rest.len() && a != b implies disjoint(
        #[trigger] rest[a],
        #[trigger] rest[b],
    ) by {
        let a2 = if a < k { a } else { a + 1 };
        let b2 = if b < k { b } else { b + 1 };
        assert(rest[a] == live[a2] && rest[b] == live[b2]);
        assert(disjoint(live[a2], live[b2]));
    }
}

/// The bytes of two lists together are the bytes of each.
pub proof fn lemma_total_size_concat(a: Seq<(usize, usize)>, b: Seq<(usize, usize)>)
    ensures
        total_size(a + b) == total_size(a) + total_size(b),
    decreases b.len(),
{
    if b.len() == 0 {
        assert(a + b =~= a);
    } else {
        assert((a + b).drop_last() =~= a + b.drop_last());
        lemma_total_size_concat(a, b.drop_last());
    }
}

/// The bytes of the first blocks and one more.
proof fn lemma_total_size_step(s: Seq<(usize, usize)>, k: int)
    requires
        0 <= k < s.len(),
    ensures
        total_size(s.take(k + 1)) == total_size(s.take(k)) + s[k].1,
{
    assert(s.take(k + 1).drop_last() =~= s.take(k));
    assert(s.take(k + 1).last() == s[k]);
}

/// The merged list holds as many bytes more as the block has.
proof fn lemma_released_total(s: Seq<(usize, usize)>, x: (usize, usize), k: int)
    requires
        within(s, usize::MAX as int),
        end_of(x) <= usize::MAX,
        is_place(s, x, k),
    ensures
        total_size(released(s, x, k)) == total_size(s) + x.1,
{
    let left = joins_left(s, x, k);
    let right = joins_right(s, x, k);
    let lo = if left { k - 1 } else { k };
    let hi = if right { k + 1 } else { k };
    let m = joined(s, x, k);
    let front = s.take(lo).push(m);
    if left {
        assert(end_of(s[k - 1]) <= usize::MAX);
        lemma_total_size_step(s, k - 1);
    }
    if right {
        assert(end_of(s[k]) <= usize::MAX);
        lemma_total_size_step(s, k);
    }
    assert(front.drop_last() =~= s.take(lo));
    assert(front.last() == m);
    assert(total_size(front) == total_size(s.take(lo)) + m.1);
    assert(total_size(s.take(hi)) + x.1 == total_size(front));
    lemma_total_size_concat(front, s.skip(hi));
    lemma_total_size_concat(s.take(hi), s.skip(hi));
    assert(s =~= s.take(hi) + s.skip(hi));
}

/// What giving back a block makes of a compact list from which the
/// block lies apart: the block stands at its place in one entry with
/// the neighbours that it touches, the other entries are as they were
/// and in their order, the block lies inside that one entry, and the
/// list holds as many bytes more as the block has.
pub proof fn lemma_release_result(s: Seq<(usize, usize)>, x: (usize, usize)) -> (k: int)
    requires
        compact(s),
        within(s, usize::MAX as int),
        end_of(x) <= usize::MAX,
        apart(s, x),
    ensures
        is_place(s, x, k),
        coalesced(sorted_by_offset(s.push(x))) == released(s, x, k),
        contained(released(s, x, k), x.0 as int, x.1 as int),
        total_size(released(s, x, k)) == total_size(s) + x.1,
{
    let k = lemma_release_place(s, x);
    lemma_release_shape(s, x, k);
    lemma_released_total(s, x, k);
    let lo = if joins_left(s, x, k) { k - 1 } else { k };
    let m = joined(s, x, k);
    if joins_left(s, x, k) {
        assert(end_of(s[k - 1]) <= usize::MAX);
    }
    if joins_right(s, x, k) {
        assert(end_of(s[k]) <= usize::MAX);
    }
    assert(released(s, x, k)[lo] == m);
    assert(m.0 <= x.0 && end_of(x) <= end_of(m));
    k
}

} // verus!
