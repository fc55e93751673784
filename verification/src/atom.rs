//! The values that a memory holds as numbers: how a number of a fixed
//! width is laid out in bytes, in either byte order.

use crate::image::{host_word_size, word_size};
use crate::state::Endianness;
use crate::wire::{be_bytes, be_value, lemma_be_bytes_len, lemma_be_value_bound, lemma_be_value_of_bytes, span};
use vstd::prelude::*;

verus! {

/// The `width` bytes that spell `n`, least significant byte first.
pub open spec fn le_bytes(n: nat, width: nat) -> Seq<u8>
    decreases width,
{
    if width == 0 {
        Seq::empty()
    } else {
        seq![(n % 256) as u8] + le_bytes(n / 256, (width - 1) as nat)
    }
}

/// The number that the bytes `s` spell, least significant byte first.
pub open spec fn le_value(s: Seq<u8>) -> nat
    decreases s.len(),
{
    if s.len() == 0 {
        0
    } else {
        s[0] as nat + 256 * le_value(s.drop_first())
    }
}

/// The `width` bytes that spell `n` in the given order.
pub open spec fn encode_raw(n: nat, width: nat, order: Endianness) -> Seq<u8> {
    match order {
        Endianness::Little => le_bytes(n, width),
        Endianness::Big => be_bytes(n, width),
    }
}

/// The number that the bytes `s` spell in the given order.
pub open spec fn decode_raw(s: Seq<u8>, order: Endianness) -> nat {
    match order {
        Endianness::Little => le_value(s),
        Endianness::Big => be_value(s),
    }
}

pub proof fn lemma_le_bytes_len(n: nat, width: nat)
    ensures
        le_bytes(n, width).len() == width,
    decreases width,
{
    if width > 0 {
        lemma_le_bytes_len(n / 256, (width - 1) as nat);
    }
}

pub proof fn lemma_le_value_bound(s: Seq<u8>)
    ensures
        le_value(s) < span(s.len()),
    decreases s.len(),
{
    if s.len() > 0 {
        lemma_le_value_bound(s.drop_first());
    }
}

pub proof fn lemma_le_value_of_bytes(n: nat, width: nat)
    requires
        n < span(width),
    ensures
        le_value(le_bytes(n, width)) == n,
    decreases width,
{
    if width > 0 {
        let w = (width - 1) as nat;
        lemma_le_value_of_bytes(n / 256, w);
        assert(le_bytes(n, width).drop_first() =~= le_bytes(n / 256, w));
    }
}

/// The bytes of a number in the one order are those in the other order,
/// read backwards.
pub proof fn lemma_be_is_le_reversed(n: nat, width: nat)
    ensures
        be_bytes(n, width) == le_bytes(n, width).reverse(),
    decreases width,
{
    if width > 0 {
        let w = (width - 1) as nat;
        lemma_be_is_le_reversed(n / 256, w);
        lemma_le_bytes_len(n / 256, w);
        lemma_be_bytes_len(n / 256, w);
        assert(be_bytes(n, width) =~= le_bytes(n, width).reverse());
    } else {
        assert(be_bytes(n, width) =~= le_bytes(n, width).reverse());
    }
}

/// Bytes that were written spell the number again, and there are
/// `width` of them.
pub proof fn lemma_decode_encode(n: nat, width: nat, order: Endianness)
    requires
        n < span(width),
    ensures
        decode_raw(encode_raw(n, width, order), order) == n,
        encode_raw(n, width, order).len() == width,
{
    lemma_le_value_of_bytes(n, width);
    lemma_be_value_of_bytes(n, width);
    lemma_le_bytes_len(n, width);
    lemma_be_bytes_len(n, width);
}

/// What up to eight bytes can spell fits 64 bits.
pub proof fn lemma_span_small(k: nat)
    requires
        k <= 8,
    ensures
        span(k) <= 0x1_0000_0000_0000_0000,
        k <= 7 ==> span(k) <= 0x100_0000_0000_0000,
        span(k) >= 1,
{
    reveal_with_fuel(span, 10);
    if k == 0 {
    } else if k == 1 {
    } else if k == 2 {
    } else if k == 3 {
    } else if k == 4 {
    } else if k == 5 {
    } else if k == 6 {
    } else if k == 7 {
    } else {
    }
}

/// The `width` bytes that spell `n` in the given order.
pub fn raw_to_bytes(n: u64, width: usize, order: Endianness) -> (r: Vec<u8>)
    requires
        width <= 8,
    ensures
        r@ == encode_raw(n as nat, width as nat, order),
{
    let mut low: Vec<u8> = Vec::new();
    let mut rest: u64 = n;
    let mut i: usize = 0;
    assert(low@ + le_bytes(rest as nat, width as nat) =~= le_bytes(n as nat, width as nat));
    while i < width
        invariant
            i <= width,
            low@.len() == i,
            low@ + le_bytes(rest as nat, (width - i) as nat) == le_bytes(n as nat, width as nat),
        decreases width - i,
    {
        let ghost before = low@;
        let b = (rest % 256) as u8;
        low.push(b);
        assert(before + (seq![b] + le_bytes((rest / 256) as nat, (width - i - 1) as nat))
            =~= low@ + le_bytes((rest / 256) as nat, (width - i - 1) as nat));
        rest = rest / 256;
        i = i + 1;
    }
    assert(low@ + le_bytes(rest as nat, 0) =~= low@);
    match order {
        Endianness::Little => low,
        Endianness::Big => {
            let mut high: Vec<u8> = Vec::new();
            let mut j: usize = 0;
            while j < width
                invariant
                    j <= width,
                    low@.len() == width,
                    high@.len() == j,
                    forall|k: int| 0 <= k < j ==> high@[k] == low@[width - 1 - k],
                decreases width - j,
            {
                high.push(low[width - 1 - j]);
                j = j + 1;
            }
            proof {
                lemma_be_is_le_reversed(n as nat, width as nat);
                assert(high@ =~= low@.reverse());
            }
            high
        },
    }
}

/// The number that up to eight bytes spell in the given order.
pub fn raw_from_bytes(bytes: &[u8], order: Endianness) -> (r: u64)
    requires
        bytes@.len() <= 8,
    ensures
        r as nat == decode_raw(bytes@, order),
        (r as nat) < span(bytes@.len()),
{
    let n = bytes.len();
    proof {
        lemma_le_value_bound(bytes@);
        lemma_be_value_bound(bytes@);
    }
    match order {
        Endianness::Little => {
            let mut acc: u64 = 0;
            let mut i: usize = n;
            assert(bytes@.skip(n as int) =~= Seq::<u8>::empty());
            while i > 0
                invariant
                    i <= n,
                    n == bytes@.len(),
                    n <= 8,
                    acc as nat == le_value(bytes@.skip(i as int)),
                decreases i,
            {
                proof {
                    let tail = bytes@.skip(i - 1);
                    assert(tail[0] == bytes@[i - 1]);
                    assert(tail.drop_first() =~= bytes@.skip(i as int));
                    lemma_le_value_bound(bytes@.skip(i as int));
                    lemma_span_small((n - i) as nat);
                }
                acc = acc * 256 + bytes[i - 1] as u64;
                i = i - 1;
            }
            assert(bytes@.skip(0) =~= bytes@);
            acc
        },
        Endianness::Big => {
            let mut acc: u64 = 0;
            let mut i: usize = 0;
            assert(bytes@.take(0) =~= Seq::<u8>::empty());
            while i < n
                invariant
                    i <= n,
                    n == bytes@.len(),
                    n <= 8,
                    acc as nat == be_value(bytes@.take(i as int)),
                decreases n - i,
            {
                proof {
                    let front = bytes@.take(i + 1);
                    assert(front.last() == bytes@[i as int]);
                    assert(front.drop_last() =~= bytes@.take(i as int));
                    lemma_be_value_bound(bytes@.take(i as int));
                    lemma_span_small(i as nat);
                }
                acc = acc * 256 + bytes[i] as u64;
                i = i + 1;
            }
            assert(bytes@.take(n as int) =~= bytes@);
            acc
        },
    }
}

/// A number of a fixed width that a memory can hold: the integers of one,
/// two, four and eight bytes and those of the host's word. A
/// floating-point number is held by its bit pattern, as an unsigned
/// integer of its width.
pub trait Atom: Sized + Copy {
    /// The number of bytes of a value.
    spec fn width() -> nat;

    /// The value's bit pattern, as an unsigned number.
    spec fn raw(self) -> nat;

    /// The value of a bit pattern.
    spec fn of_raw(n: nat) -> Self;

    /// A value is found again from its bit pattern.
    proof fn lemma_raw(v: Self)
        ensures
            Self::of_raw(v.raw()) == v,
            v.raw() < span(Self::width()),
            1 <= Self::width() <= 8,
    ;

    fn size() -> (n: usize)
        ensures
            n == Self::width(),
            1 <= n <= 8,
    ;

    fn to_raw(&self) -> (n: u64)
        ensures
            n as nat == self.raw(),
    ;

    fn from_raw(n: u64) -> (v: Self)
        requires
            (n as nat) < span(Self::width()),
        ensures
            v == Self::of_raw(n as nat),
    ;
}

/// The bytes of `v` in the given order.
pub open spec fn atom_bytes<T: Atom>(v: T, order: Endianness) -> Seq<u8> {
    encode_raw(v.raw(), T::width(), order)
}

/// The value that `bytes` hold in the given order.
pub open spec fn atom_of<T: Atom>(bytes: Seq<u8>, order: Endianness) -> T {
    T::of_raw(decode_raw(bytes, order))
}

/// The bytes of a value hold the value, and there are as many as the
/// value is wide.
pub proof fn lemma_atom_round_trip<T: Atom>(v: T, order: Endianness)
    ensures
        atom_of::<T>(atom_bytes(v, order), order) == v,
        atom_bytes(v, order).len() == T::width(),
{
    T::lemma_raw(v);
    lemma_decode_encode(v.raw(), T::width(), order);
}

/// The span of the host's word.
pub open spec fn word_span() -> nat {
    span(word_size())
}

proof fn lemma_word_span()
    ensures
        word_span() == usize::MAX + 1,
        word_span() == 2 * (isize::MAX + 1),
        isize::MIN == -(isize::MAX + 1),
        word_size() == 4 || word_size() == 8,
{
    broadcast use vstd::layout::layout_of_primitives;

    reveal_with_fuel(span, 10);
    if word_size() == 4 {
        assert(usize::BITS == 32);
    } else {
        assert(usize::BITS == 64);
    }
}

impl Atom for u8 {
    open spec fn width() -> nat {
        1
    }

    open spec fn raw(self) -> nat {
        self as nat
    }

    open spec fn of_raw(n: nat) -> Self {
        n as u8
    }

    proof fn lemma_raw(v: Self) {
        reveal_with_fuel(span, 10);
    }

    fn size() -> (n: usize) {
        1
    }

    fn to_raw(&self) -> (n: u64) {
        *self as u64
    }

    fn from_raw(n: u64) -> (v: Self) {
        proof {
            reveal_with_fuel(span, 10);
        }
        n as u8
    }
}

impl Atom for u16 {
    open spec fn width() -> nat {
        2
    }

    open spec fn raw(self) -> nat {
        self as nat
    }

    open spec fn of_raw(n: nat) -> Self {
        n as u16
    }

    proof fn lemma_raw(v: Self) {
        reveal_with_fuel(span, 10);
    }

    fn size() -> (n: usize) {
        2
    }

    fn to_raw(&self) -> (n: u64) {
        *self as u64
    }

    fn from_raw(n: u64) -> (v: Self) {
        proof {
            reveal_with_fuel(span, 10);
        }
        n as u16
    }
}

impl Atom for u32 {
    open spec fn width() -> nat {
        4
    }

    open spec fn raw(self) -> nat {
        self as nat
    }

    open spec fn of_raw(n: nat) -> Self {
        n as u32
    }

    proof fn lemma_raw(v: Self) {
        reveal_with_fuel(span, 10);
    }

    fn size() -> (n: usize) {
        4
    }

    fn to_raw(&self) -> (n: u64) {
        *self as u64
    }

    fn from_raw(n: u64) -> (v: Self) {
        proof {
            reveal_with_fuel(span, 10);
        }
        n as u32
    }
}

impl Atom for u64 {
    open spec fn width() -> nat {
        8
    }

    open spec fn raw(self) -> nat {
        self as nat
    }

    open spec fn of_raw(n: nat) -> Self {
        n as u64
    }

    proof fn lemma_raw(v: Self) {
        reveal_with_fuel(span, 10);
    }

    fn size() -> (n: usize) {
        8
    }

    fn to_raw(&self) -> (n: u64) {
        *self as u64
    }

    fn from_raw(n: u64) -> (v: Self) {
        proof {
            reveal_with_fuel(span, 10);
        }
        n as u64
    }
}

impl Atom for i8 {
    open spec fn width() -> nat {
        1
    }

    open spec fn raw(self) -> nat {
        if self >= 0 {
            self as nat
        } else {
            (self + 0x100) as nat
        }
    }

    open spec fn of_raw(n: nat) -> Self {
        if n < 0x80 {
            n as i8
        } else {
            (n - 0x100) as i8
        }
    }

    proof fn lemma_raw(v: Self) {
        reveal_with_fuel(span, 10);
    }

    fn size() -> (n: usize) {
        1
    }

    fn to_raw(&self) -> (n: u64) {
        let x = *self;
        if x >= 0 {
            x as u64
        } else {
            (x as i64 + 0x100) as u64
        }
    }

    fn from_raw(n: u64) -> (v: Self) {
        proof {
            reveal_with_fuel(span, 10);
        }
        if n < 0x80 {
            n as i8
        } else {
            (n as i64 - 0x100) as i8
        }
    }
}

impl Atom for i16 {
    open spec fn width() -> nat {
        2
    }

    open spec fn raw(self) -> nat {
        if self >= 0 {
            self as nat
        } else {
            (self + 0x10000) as nat
        }
    }

    open spec fn of_raw(n: nat) -> Self {
        if n < 0x8000 {
            n as i16
        } else {
            (n - 0x10000) as i16
        }
    }

    proof fn lemma_raw(v: Self) {
        reveal_with_fuel(span, 10);
    }

    fn size() -> (n: usize) {
        2
    }

    fn to_raw(&self) -> (n: u64) {
        let x = *self;
        if x >= 0 {
            x as u64
        } else {
            (x as i64 + 0x10000) as u64
        }
    }

    fn from_raw(n: u64) -> (v: Self) {
        proof {
            reveal_with_fuel(span, 10);
        }
        if n < 0x8000 {
            n as i16
        } else {
            (n as i64 - 0x10000) as i16
        }
    }
}

impl Atom for i32 {
    open spec fn width() -> nat {
        4
    }

    open spec fn raw(self) -> nat {
        if self >= 0 {
            self as nat
        } else {
            (self + 0x100000000) as nat
        }
    }

    open spec fn of_raw(n: nat) -> Self {
        if n < 0x80000000 {
            n as i32
        } else {
            (n - 0x100000000) as i32
        }
    }

    proof fn lemma_raw(v: Self) {
        reveal_with_fuel(span, 10);
    }

    fn size() -> (n: usize) {
        4
    }

    fn to_raw(&self) -> (n: u64) {
        let x = *self;
        if x >= 0 {
            x as u64
        } else {
            (x as i64 + 0x100000000) as u64
        }
    }

    fn from_raw(n: u64) -> (v: Self) {
        proof {
            reveal_with_fuel(span, 10);
        }
        if n < 0x80000000 {
            n as i32
        } else {
            (n as i64 - 0x100000000) as i32
        }
    }
}

impl Atom for i64 {
    open spec fn width() -> nat {
        8
    }

    open spec fn raw(self) -> nat {
        if self >= 0 {
            self as nat
        } else {
            (self + 0x10000000000000000) as nat
        }
    }

    open spec fn of_raw(n: nat) -> Self {
        if n < 0x8000000000000000 {
            n as i64
        } else {
            (n - 0x10000000000000000) as i64
        }
    }

    proof fn lemma_raw(v: Self) {
        reveal_with_fuel(span, 10);
    }

    fn size() -> (n: usize) {
        8
    }

    fn to_raw(&self) -> (n: u64) {
        let x = *self;
        if x >= 0 {
            x as u64
        } else {
            (x as i128 + 0x10000000000000000) as u64
        }
    }

    fn from_raw(n: u64) -> (v: Self) {
        proof {
            reveal_with_fuel(span, 10);
        }
        if n < 0x8000000000000000 {
            n as i64
        } else {
            (n as i128 - 0x10000000000000000) as i64
        }
    }
}

impl Atom for usize {
    open spec fn width() -> nat {
        word_size()
    }

    open spec fn raw(self) -> nat {
        self as nat
    }

    open spec fn of_raw(n: nat) -> Self {
        n as usize
    }

    proof fn lemma_raw(v: Self) {
        lemma_word_span();
    }

    fn size() -> (n: usize) {
        host_word_size()
    }

    fn to_raw(&self) -> (n: u64) {
        *self as u64
    }

    fn from_raw(n: u64) -> (v: Self) {
        proof {
            lemma_word_span();
        }
        n as usize
    }
}

impl Atom for isize {
    open spec fn width() -> nat {
        word_size()
    }

    open spec fn raw(self) -> nat {
        if self >= 0 {
            self as nat
        } else {
            (self + word_span()) as nat
        }
    }

    open spec fn of_raw(n: nat) -> Self {
        if n <= isize::MAX {
            n as isize
        } else {
            (n - word_span()) as isize
        }
    }

    proof fn lemma_raw(v: Self) {
        lemma_word_span();
    }

    fn size() -> (n: usize) {
        host_word_size()
    }

    fn to_raw(&self) -> (n: u64) {
        proof {
            lemma_word_span();
            reveal_with_fuel(span, 10);
        }
        let x = *self;
        if x >= 0 {
            x as u64
        } else if host_word_size() == 8 {
            (x as i128 + 0x1_0000_0000_0000_0000) as u64
        } else {
            (x as i128 + 0x1_0000_0000) as u64
        }
    }

    fn from_raw(n: u64) -> (v: Self) {
        proof {
            lemma_word_span();
            reveal_with_fuel(span, 10);
        }
        if n <= isize::MAX as u64 {
            n as isize
        } else if host_word_size() == 8 {
            (n as i128 - 0x1_0000_0000_0000_0000) as isize
        } else {
            (n as i128 - 0x1_0000_0000) as isize
        }
    }
}

} // verus!
