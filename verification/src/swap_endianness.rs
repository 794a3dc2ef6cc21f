//! Converting between big-endian bytes and numbers.
//!
//! NBT stores every number big-endian. These functions turn a run of
//! big-endian numbers into native numbers, or reverse the bytes of each number
//! in place. Bytes past the last whole number are left as they are.

use vstd::prelude::*;

use crate::common::{spec_u16_be, spec_u32_be, spec_u64_be};
use crate::model::{decode_i16s, decode_i32s, decode_i64s, decode_u32s, decode_u64s};

verus! {

/// A number type that NBT stores big-endian in fixed-width runs.
pub trait SwappableNumber: Sized + Copy {
    /// The number of bytes of one number.
    spec fn spec_width() -> nat;

    /// The number whose big-endian bytes start `bytes`.
    spec fn spec_from_be(bytes: Seq<u8>) -> Self;

    fn width() -> (r: usize)
        ensures
            r == Self::spec_width(),
            r == 2 || r == 4 || r == 8;

    /// The number whose big-endian bytes start at `i`.
    fn from_be_at(bytes: &[u8], i: usize) -> (r: Self)
        requires
            i + Self::spec_width() <= bytes@.len(),
        ensures
            r == Self::spec_from_be(bytes@.subrange(i as int, i + Self::spec_width()));

    /// Whether two numbers are equal.
    fn same(a: Self, b: Self) -> (r: bool)
        ensures
            r == (a == b);
}

pub fn u16_at(bytes: &[u8], i: usize) -> (r: u16)
    requires
        i + 2 <= bytes@.len(),
    ensures
        r == spec_u16_be(bytes@.subrange(i as int, i + 2)),
{
    bytes[i] as u16 * 0x100 + bytes[i + 1] as u16
}

pub fn u32_at(bytes: &[u8], i: usize) -> (r: u32)
    requires
        i + 4 <= bytes@.len(),
    ensures
        r == spec_u32_be(bytes@.subrange(i as int, i + 4)),
{
    bytes[i] as u32 * 0x100_0000 + bytes[i + 1] as u32 * 0x1_0000 + bytes[i + 2] as u32 * 0x100
        + bytes[i + 3] as u32
}

pub fn u64_at(bytes: &[u8], i: usize) -> (r: u64)
    requires
        i + 8 <= bytes@.len(),
    ensures
        r == spec_u64_be(bytes@.subrange(i as int, i + 8)),
{
    let _n = bytes.len();
    let hi = u32_at(bytes, i);
    let lo = u32_at(bytes, i + 4);
    let ghost s = bytes@.subrange(i as int, i + 8);
    assert(s.subrange(4, 8) =~= bytes@.subrange(i + 4, i + 8));
    assert(s.subrange(0, 4) =~= bytes@.subrange(i as int, i + 4));
    assert(hi as u64 * 0x1_0000_0000 + lo as u64 <= u64::MAX) by (nonlinear_arith)
        requires
            hi <= u32::MAX,
            lo <= u32::MAX,
    ;
    hi as u64 * 0x1_0000_0000 + lo as u64
}

impl SwappableNumber for u16 {
    open spec fn spec_width() -> nat { 2 }
    open spec fn spec_from_be(bytes: Seq<u8>) -> u16 { spec_u16_be(bytes) }
    fn width() -> (r: usize) { 2 }
    fn from_be_at(bytes: &[u8], i: usize) -> (r: u16) { u16_at(bytes, i) }
    fn same(a: u16, b: u16) -> (r: bool) { a == b }
}

impl SwappableNumber for i16 {
    open spec fn spec_width() -> nat { 2 }
    open spec fn spec_from_be(bytes: Seq<u8>) -> i16 { spec_u16_be(bytes) as i16 }
    fn width() -> (r: usize) { 2 }
    fn from_be_at(bytes: &[u8], i: usize) -> (r: i16) { u16_at(bytes, i) as i16 }
    fn same(a: i16, b: i16) -> (r: bool) { a == b }
}

impl SwappableNumber for u32 {
    open spec fn spec_width() -> nat { 4 }
    open spec fn spec_from_be(bytes: Seq<u8>) -> u32 { spec_u32_be(bytes) }
    fn width() -> (r: usize) { 4 }
    fn from_be_at(bytes: &[u8], i: usize) -> (r: u32) { u32_at(bytes, i) }
    fn same(a: u32, b: u32) -> (r: bool) { a == b }
}

impl SwappableNumber for i32 {
    open spec fn spec_width() -> nat { 4 }
    open spec fn spec_from_be(bytes: Seq<u8>) -> i32 { spec_u32_be(bytes) as i32 }
    fn width() -> (r: usize) { 4 }
    fn from_be_at(bytes: &[u8], i: usize) -> (r: i32) { u32_at(bytes, i) as i32 }
    fn same(a: i32, b: i32) -> (r: bool) { a == b }
}

impl SwappableNumber for u64 {
    open spec fn spec_width() -> nat { 8 }
    open spec fn spec_from_be(bytes: Seq<u8>) -> u64 { spec_u64_be(bytes) }
    fn width() -> (r: usize) { 8 }
    fn from_be_at(bytes: &[u8], i: usize) -> (r: u64) { u64_at(bytes, i) }
    fn same(a: u64, b: u64) -> (r: bool) { a == b }
}

impl SwappableNumber for i64 {
    open spec fn spec_width() -> nat { 8 }
    open spec fn spec_from_be(bytes: Seq<u8>) -> i64 { spec_u64_be(bytes) as i64 }
    fn width() -> (r: usize) { 8 }
    fn from_be_at(bytes: &[u8], i: usize) -> (r: i64) { u64_at(bytes, i) as i64 }
    fn same(a: i64, b: i64) -> (r: bool) { a == b }
}

/// `data` with the bytes of each of its first `num` groups of `w` bytes
/// reversed; the bytes after them are unchanged.
pub open spec fn swapped(data: Seq<u8>, num: nat, w: nat) -> Seq<u8> {
    Seq::new(
        data.len(),
        |j: int|
            if j < num * w {
                data[j + w - 1 - 2 * (j % (w as int))]
            } else {
                data[j]
            },
    )
}

/// The numbers whose big-endian bytes fill `data`, in order; bytes after
/// the last whole number are ignored.
pub open spec fn numbers_from_be<T: SwappableNumber>(data: Seq<u8>) -> Seq<T> {
    let w = T::spec_width();
    Seq::new(
        (data.len() / w) as nat,
        |i: int| T::spec_from_be(data.subrange(i * w, i * w + w)),
    )
}

/// Where the byte at `j` of a swapped group comes from, and that it stays
/// in the same group.
proof fn lemma_swap_index(j: int, num: int, w: int)
    requires
        w > 0,
        0 <= j < num * w,
    ensures
        0 <= j + w - 1 - 2 * (j % w) < num * w,
        (j + w - 1 - 2 * (j % w)) % w == w - 1 - j % w,
{
    let q = j / w;
    let o = j % w;
    vstd::arithmetic::div_mod::lemma_fundamental_div_mod(j, w);
    assert(0 <= o < w) by {
        vstd::arithmetic::div_mod::lemma_mod_bound(j, w);
    }
    assert(q < num) by (nonlinear_arith)
        requires
            j == w * q + o,
            0 <= o,
            j < num * w,
            w > 0,
    ;
    assert(q >= 0) by (nonlinear_arith)
        requires
            j == w * q + o,
            o < w,
            j >= 0,
            w > 0,
    ;
    assert(w * q + w <= num * w) by (nonlinear_arith)
        requires
            q < num,
            w > 0,
    ;
    assert(j + w - 1 - 2 * o == q * w + (w - 1 - o)) by (nonlinear_arith)
        requires
            j == w * q + o,
    ;
    vstd::arithmetic::div_mod::lemma_fundamental_div_mod_converse(
        j + w - 1 - 2 * o,
        w,
        q,
        w - 1 - o,
    );
    assert(q * w >= 0) by (nonlinear_arith)
        requires
            q >= 0,
            w > 0,
    ;
}

/// Reversing the bytes of each group twice gives the data back.
pub proof fn lemma_swapped_twice(data: Seq<u8>, num: nat, w: nat)
    requires
        w > 0,
        num * w <= data.len(),
    ensures
        swapped(swapped(data, num, w), num, w) == data,
{
    let once = swapped(data, num, w);
    let twice = swapped(once, num, w);
    assert forall|j: int| 0 <= j < data.len() implies twice[j] == data[j] by {
        if j < num * w {
            lemma_swap_index(j, num as int, w as int);
            let k = j + w - 1 - 2 * (j % (w as int));
            assert(twice[j] == once[k]);
            assert(k + w - 1 - 2 * (k % (w as int)) == j);
        }
    }
    assert(twice =~= data);
}

/// The `i`-th group of `w` bytes of `data`.
pub open spec fn group(data: Seq<u8>, i: int, w: nat) -> Seq<u8> {
    data.subrange(i * w, i * w + w)
}

/// Swapping keeps the length, turns each of the first `num` groups of `w`
/// bytes into that same group reversed, in its own place, and leaves the
/// bytes after them as they are.
pub proof fn lemma_swapped_groups(data: Seq<u8>, num: nat, w: nat)
    requires
        w > 0,
        num * w <= data.len(),
    ensures
        swapped(data, num, w).len() == data.len(),
        forall|i: int| 0 <= i < num ==> #[trigger] group(swapped(data, num, w), i, w) == group(data, i, w).reverse(),
        forall|j: int| num * w <= j < data.len() ==> #[trigger] swapped(data, num, w)[j] == data[j],
{
    let out = swapped(data, num, w);
    assert forall|i: int| 0 <= i < num implies #[trigger] group(out, i, w) == group(data, i, w).reverse() by {
        assert(i * w + w <= num * w) by (nonlinear_arith)
            requires
                i < num,
                w > 0,
        ;
        assert(i * w >= 0) by (nonlinear_arith)
            requires
                i >= 0,
                w > 0,
        ;
        let g = group(data, i, w);
        assert forall|k: int| 0 <= k < w implies #[trigger] group(out, i, w)[k] == g.reverse()[k] by {
            let j = i * w + k;
            vstd::arithmetic::div_mod::lemma_fundamental_div_mod_converse(j, w as int, i, k);
            assert(j + w - 1 - 2 * (j % (w as int)) == i * w + (w - 1 - k));
            assert(out[j] == data[i * w + (w - 1 - k)]);
        }
        assert(group(out, i, w) =~= g.reverse());
    }
}

/// Reverses the bytes of each of the first `num` groups of `w` bytes.
fn swap_groups(bytes: &[u8], num: usize, w: usize) -> (r: Vec<u8>)
    requires
        w == 2 || w == 4 || w == 8,
        num * w <= bytes@.len(),
    ensures
        r@ == swapped(bytes@, num as nat, w as nat),
{
    let mut out: Vec<u8> = Vec::with_capacity(bytes.len());
    let mut j: usize = 0;
    let ghost target = swapped(bytes@, num as nat, w as nat);
    while j < bytes.len()
        invariant
            j <= bytes@.len(),
            w == 2 || w == 4 || w == 8,
            num * w <= bytes@.len(),
            target == swapped(bytes@, num as nat, w as nat),
            out@ == target.subrange(0, j as int),
        decreases bytes@.len() - j,
    {
        if j < num * w {
            proof {
                lemma_swap_index(j as int, num as int, w as int);
            }
            let src = j + w - 1 - 2 * (j % w);
            out.push(bytes[src]);
        } else {
            out.push(bytes[j]);
        }
        j = j + 1;
        assert(out@ =~= target.subrange(0, j as int));
    }
    assert(target.subrange(0, j as int) =~= target);
    out
}

fn swap_endianness_16bit(bytes: &[u8], num: usize) -> (r: Vec<u8>)
    requires
        num * 2 <= bytes@.len(),
    ensures
        r@ == swapped(bytes@, num as nat, 2),
{
    swap_groups(bytes, num, 2)
}

fn swap_endianness_32bit(bytes: &[u8], num: usize) -> (r: Vec<u8>)
    requires
        num * 4 <= bytes@.len(),
    ensures
        r@ == swapped(bytes@, num as nat, 4),
{
    swap_groups(bytes, num, 4)
}

fn swap_endianness_64bit(bytes: &[u8], num: usize) -> (r: Vec<u8>)
    requires
        num * 8 <= bytes@.len(),
    ensures
        r@ == swapped(bytes@, num as nat, 8),
{
    swap_groups(bytes, num, 8)
}

/// Reverses the bytes of every whole number of type `T` in `data`, turning
/// big-endian numbers into little-endian ones and back.
pub fn swap_endianness_as_u8<T: SwappableNumber>(data: &[u8]) -> (r: Vec<u8>)
    ensures
        r@ == swapped(data@, data@.len() / T::spec_width(), T::spec_width()),
        r@.len() == data@.len(),
        forall|i: int| 0 <= i < data@.len() / T::spec_width() ==> #[trigger] group(r@, i, T::spec_width())
            == group(data@, i, T::spec_width()).reverse(),
        forall|j: int| (data@.len() / T::spec_width()) * T::spec_width() <= j < data@.len() ==> #[trigger] r@[j] == data@[j],
{
    let w = T::width();
    let length = data.len() / w;
    assert(length * w <= data@.len()) by (nonlinear_arith)
        requires
            length == data@.len() as int / (w as int),
            w > 0,
    ;
    proof {
        lemma_swapped_groups(data@, length as nat, w as nat);
    }
    if w == 2 {
        swap_endianness_16bit(data, length)
    } else if w == 4 {
        swap_endianness_32bit(data, length)
    } else {
        swap_endianness_64bit(data, length)
    }
}

/// The numbers whose big-endian bytes fill `data`.
pub fn swap_endianness<T: SwappableNumber>(data: &[u8]) -> (r: Vec<T>)
    ensures
        r@ == numbers_from_be::<T>(data@),
{
    let w = T::width();
    let length = data.len() / w;
    let mut out: Vec<T> = Vec::with_capacity(length);
    let mut i: usize = 0;
    let ghost target = numbers_from_be::<T>(data@);
    while i < length
        invariant
            w == T::spec_width(),
            w == 2 || w == 4 || w == 8,
            data@.len() <= usize::MAX,
            length == data@.len() as int / (w as int),
            i <= length,
            target == numbers_from_be::<T>(data@),
            out@ == target.subrange(0, i as int),
        decreases length - i,
    {
        assert(i * w + w <= data@.len()) by (nonlinear_arith)
            requires
                i < length,
                length == data@.len() as int / (w as int),
                w > 0,
        ;
        assert(i * w <= usize::MAX);
        let v = T::from_be_at(data, i * w);
        out.push(v);
        i = i + 1;
        assert(out@ =~= target.subrange(0, i as int));
    }
    assert(target.subrange(0, i as int) =~= target);
    out
}

/// Decoding big-endian numbers of each width agrees with the NBT model.
pub proof fn lemma_numbers_from_be(s: Seq<u8>)
    ensures
        numbers_from_be::<i16>(s) == decode_i16s(s),
        numbers_from_be::<i32>(s) == decode_i32s(s),
        numbers_from_be::<i64>(s) == decode_i64s(s),
        numbers_from_be::<u32>(s) == decode_u32s(s),
        numbers_from_be::<u64>(s) == decode_u64s(s),
{
    assert(numbers_from_be::<i16>(s) =~= decode_i16s(s));
    assert(numbers_from_be::<i32>(s) =~= decode_i32s(s));
    assert(numbers_from_be::<i64>(s) =~= decode_i64s(s));
    assert(numbers_from_be::<u32>(s) =~= decode_u32s(s));
    assert(numbers_from_be::<u64>(s) =~= decode_u64s(s));
}

} // verus!
