//! Equality of borrowed tags: two views are equal exactly when the tags they
//! show are equal, whatever the tapes and data behind them.

use vstd::prelude::*;

use super::compound::NbtCompound;
use super::list::{NbtCompoundList, NbtList, NbtListList};
use super::NbtTag;
use crate::common::{
    BYTE_ARRAY_ID, BYTE_ID, COMPOUND_ID, DOUBLE_ID, END_ID, FLOAT_ID, INT_ARRAY_ID, INT_ID,
    LIST_ID, LONG_ARRAY_ID, LONG_ID, SHORT_ID, STRING_ID,
};
use crate::model::{list_id, tag_id, ListModel, TagModel};
use crate::mutf8::{bytes_eq, Mutf8Str};
use crate::raw_list::RawList;
use crate::swap_endianness::{lemma_numbers_from_be, numbers_from_be, SwappableNumber};

verus! {

/// Whether two runs of numbers are equal.
fn numbers_eq<T: SwappableNumber>(a: &[T], b: &[T]) -> (r: bool)
    ensures
        r == (a@ == b@),
{
    if a.len() != b.len() {
        return false;
    }
    let mut i: usize = 0;
    while i < a.len()
        invariant
            i <= a@.len(),
            a@.len() == b@.len(),
            forall|j: int| 0 <= j < i ==> a@[j] == b@[j],
        decreases a@.len() - i,
    {
        if !T::same(a[i], b[i]) {
            return false;
        }
        i = i + 1;
    }
    assert(a@ =~= b@);
    true
}

/// Whether two runs of signed bytes are equal.
fn i8s_eq(a: &[i8], b: &[i8]) -> (r: bool)
    ensures
        r == (a@ == b@),
{
    if a.len() != b.len() {
        return false;
    }
    let mut i: usize = 0;
    while i < a.len()
        invariant
            i <= a@.len(),
            a@.len() == b@.len(),
            forall|j: int| 0 <= j < i ==> a@[j] == b@[j],
        decreases a@.len() - i,
    {
        if a[i] != b[i] {
            return false;
        }
        i = i + 1;
    }
    assert(a@ =~= b@);
    true
}

/// Whether two lists kept as big-endian bytes hold the same numbers.
fn raw_lists_eq<T: SwappableNumber>(a: &RawList<T>, b: &RawList<T>) -> (r: bool)
    ensures
        r == (numbers_from_be::<T>(a@) == numbers_from_be::<T>(b@)),
{
    let x = a.to_vec();
    let y = b.to_vec();
    numbers_eq(x.as_slice(), y.as_slice())
}

/// Whether two runs of byte slices hold the same bytes, slice by slice.
fn byte_slices_eq(a: &Vec<&[u8]>, b: &Vec<&[u8]>) -> (r: bool)
    ensures
        r == (a@.map_values(|s: &[u8]| s@) == b@.map_values(|s: &[u8]| s@)),
{
    let ghost va = a@.map_values(|s: &[u8]| s@);
    let ghost vb = b@.map_values(|s: &[u8]| s@);
    if a.len() != b.len() {
        assert(va.len() != vb.len());
        return false;
    }
    let mut i: usize = 0;
    while i < a.len()
        invariant
            i <= a@.len(),
            a@.len() == b@.len(),
            va == a@.map_values(|s: &[u8]| s@),
            vb == b@.map_values(|s: &[u8]| s@),
            forall|j: int| 0 <= j < i ==> va[j] == vb[j],
        decreases a@.len() - i,
    {
        if !bytes_eq(a[i], b[i]) {
            assert(va[i as int] != vb[i as int]);
            return false;
        }
        i = i + 1;
    }
    assert(va =~= vb);
    true
}

/// Whether two runs of strings hold the same bytes, string by string.
fn strings_eq<'a>(a: &Vec<Mutf8Str<'a>>, b: &Vec<Mutf8Str<'a>>) -> (r: bool)
    ensures
        r == (a@.map_values(|s: Mutf8Str<'a>| s@) == b@.map_values(|s: Mutf8Str<'a>| s@)),
{
    let ghost va = a@.map_values(|s: Mutf8Str<'a>| s@);
    let ghost vb = b@.map_values(|s: Mutf8Str<'a>| s@);
    if a.len() != b.len() {
        assert(va.len() != vb.len());
        return false;
    }
    let mut i: usize = 0;
    while i < a.len()
        invariant
            i <= a@.len(),
            a@.len() == b@.len(),
            va == a@.map_values(|s: Mutf8Str<'a>| s@),
            vb == b@.map_values(|s: Mutf8Str<'a>| s@),
            forall|j: int| 0 <= j < i ==> va[j] == vb[j],
        decreases a@.len() - i,
    {
        if !a[i].eq_str(&b[i]) {
            assert(va[i as int] != vb[i as int]);
            return false;
        }
        i = i + 1;
    }
    assert(va =~= vb);
    true
}

/// Whether two runs of number lists hold the same numbers, list by list.
fn raw_list_seqs_eq<'a, T: SwappableNumber>(a: &Vec<RawList<'a, T>>, b: &Vec<RawList<'a, T>>) -> (r: bool)
    ensures
        r == (a@.map_values(|l: RawList<'a, T>| numbers_from_be::<T>(l@)) == b@.map_values(
            |l: RawList<'a, T>| numbers_from_be::<T>(l@),
        )),
{
    let ghost va = a@.map_values(|l: RawList<'a, T>| numbers_from_be::<T>(l@));
    let ghost vb = b@.map_values(|l: RawList<'a, T>| numbers_from_be::<T>(l@));
    if a.len() != b.len() {
        assert(va.len() != vb.len());
        return false;
    }
    let mut i: usize = 0;
    while i < a.len()
        invariant
            i <= a@.len(),
            a@.len() == b@.len(),
            va == a@.map_values(|l: RawList<'a, T>| numbers_from_be::<T>(l@)),
            vb == b@.map_values(|l: RawList<'a, T>| numbers_from_be::<T>(l@)),
            forall|j: int| 0 <= j < i ==> va[j] == vb[j],
        decreases a@.len() - i,
    {
        if !raw_lists_eq(&a[i], &b[i]) {
            assert(va[i as int] != vb[i as int]);
            return false;
        }
        i = i + 1;
    }
    assert(va =~= vb);
    true
}

/// Whether two tags are equal.
pub fn tags_eq<'a, 'tape>(a: &NbtTag<'a, 'tape>, b: &NbtTag<'a, 'tape>) -> (r: bool)
    requires
        a.wf(),
        b.wf(),
    ensures
        r == (a@ == b@),
    decreases a@,
{
    let id = a.id();
    if id != b.id() {
        return false;
    }
    if id == BYTE_ID {
        match (a.byte(), b.byte()) {
            (Some(x), Some(y)) => x == y,
            _ => false,
        }
    } else if id == SHORT_ID {
        match (a.short(), b.short()) {
            (Some(x), Some(y)) => x == y,
            _ => false,
        }
    } else if id == INT_ID {
        match (a.int_value(), b.int_value()) {
            (Some(x), Some(y)) => x == y,
            _ => false,
        }
    } else if id == LONG_ID {
        match (a.long(), b.long()) {
            (Some(x), Some(y)) => x == y,
            _ => false,
        }
    } else if id == FLOAT_ID {
        match (a.float_bits(), b.float_bits()) {
            (Some(x), Some(y)) => x == y,
            _ => false,
        }
    } else if id == DOUBLE_ID {
        match (a.double_bits(), b.double_bits()) {
            (Some(x), Some(y)) => x == y,
            _ => false,
        }
    } else if id == BYTE_ARRAY_ID {
        match (a.byte_array(), b.byte_array()) {
            (Some(x), Some(y)) => bytes_eq(x, y),
            _ => false,
        }
    } else if id == STRING_ID {
        match (a.string(), b.string()) {
            (Some(x), Some(y)) => x.eq_str(&y),
            _ => false,
        }
    } else if id == LIST_ID {
        match (a.list(), b.list()) {
            (Some(x), Some(y)) => lists_eq(&x, &y),
            _ => false,
        }
    } else if id == COMPOUND_ID {
        match (a.compound(), b.compound()) {
            (Some(x), Some(y)) => compounds_eq(&x, &y),
            _ => false,
        }
    } else if id == INT_ARRAY_ID {
        match (a.int_array(), b.int_array()) {
            (Some(x), Some(y)) => numbers_eq(x.as_slice(), y.as_slice()),
            _ => false,
        }
    } else {
        match (a.long_array(), b.long_array()) {
            (Some(x), Some(y)) => numbers_eq(x.as_slice(), y.as_slice()),
            _ => false,
        }
    }
}

/// Whether two lists are equal.
pub fn lists_eq<'a, 'tape>(a: &NbtList<'a, 'tape>, b: &NbtList<'a, 'tape>) -> (r: bool)
    requires
        a.wf(),
        b.wf(),
    ensures
        r == (a@ == b@),
    decreases a@,
{
    let id = a.id();
    if id != b.id() {
        return false;
    }
    if id == END_ID {
        true
    } else if id == BYTE_ID {
        match (a.bytes(), b.bytes()) {
            (Some(x), Some(y)) => i8s_eq(x.as_slice(), y.as_slice()),
            _ => false,
        }
    } else if id == SHORT_ID {
        match (a.shorts(), b.shorts()) {
            (Some(x), Some(y)) => {
                proof {
                    lemma_numbers_from_be(x@);
                    lemma_numbers_from_be(y@);
                }
                raw_lists_eq(&x, &y)
            },
            _ => false,
        }
    } else if id == INT_ID {
        match (a.ints(), b.ints()) {
            (Some(x), Some(y)) => {
                proof {
                    lemma_numbers_from_be(x@);
                    lemma_numbers_from_be(y@);
                }
                raw_lists_eq(&x, &y)
            },
            _ => false,
        }
    } else if id == LONG_ID {
        match (a.longs(), b.longs()) {
            (Some(x), Some(y)) => {
                proof {
                    lemma_numbers_from_be(x@);
                    lemma_numbers_from_be(y@);
                }
                raw_lists_eq(&x, &y)
            },
            _ => false,
        }
    } else if id == FLOAT_ID {
        match (a.float_bits(), b.float_bits()) {
            (Some(x), Some(y)) => {
                proof {
                    lemma_numbers_from_be(x@);
                    lemma_numbers_from_be(y@);
                }
                raw_lists_eq(&x, &y)
            },
            _ => false,
        }
    } else if id == DOUBLE_ID {
        match (a.double_bits(), b.double_bits()) {
            (Some(x), Some(y)) => {
                proof {
                    lemma_numbers_from_be(x@);
                    lemma_numbers_from_be(y@);
                }
                raw_lists_eq(&x, &y)
            },
            _ => false,
        }
    } else if id == BYTE_ARRAY_ID {
        match (a.byte_arrays(), b.byte_arrays()) {
            (Some(x), Some(y)) => byte_slices_eq(&x, &y),
            _ => false,
        }
    } else if id == STRING_ID {
        match (a.strings(), b.strings()) {
            (Some(x), Some(y)) => strings_eq(&x, &y),
            _ => false,
        }
    } else if id == LIST_ID {
        match (a.lists(), b.lists()) {
            (Some(x), Some(y)) => list_lists_eq(&x, &y),
            _ => false,
        }
    } else if id == COMPOUND_ID {
        match (a.compounds(), b.compounds()) {
            (Some(x), Some(y)) => compound_lists_eq(&x, &y),
            _ => false,
        }
    } else if id == INT_ARRAY_ID {
        match (a.int_arrays(), b.int_arrays()) {
            (Some(x), Some(y)) => {
                proof {
                    lemma_number_lists::<i32>(x@);
                    lemma_number_lists::<i32>(y@);
                    if let ListModel::IntArray(va) = a@ {
                        assert(x@.map_values(|l: RawList<'a, i32>| numbers_from_be::<i32>(l@)) =~= va);
                    }
                    if let ListModel::IntArray(vb) = b@ {
                        assert(y@.map_values(|l: RawList<'a, i32>| numbers_from_be::<i32>(l@)) =~= vb);
                    }
                }
                raw_list_seqs_eq(&x, &y)
            },
            _ => false,
        }
    } else {
        match (a.long_arrays(), b.long_arrays()) {
            (Some(x), Some(y)) => {
                proof {
                    lemma_number_lists::<i64>(x@);
                    lemma_number_lists::<i64>(y@);
                    if let ListModel::LongArray(va) = a@ {
                        assert(x@.map_values(|l: RawList<'a, i64>| numbers_from_be::<i64>(l@)) =~= va);
                    }
                    if let ListModel::LongArray(vb) = b@ {
                        assert(y@.map_values(|l: RawList<'a, i64>| numbers_from_be::<i64>(l@)) =~= vb);
                    }
                }
                raw_list_seqs_eq(&x, &y)
            },
            _ => false,
        }
    }
}

/// Decoding each list of a run of number lists is reading its numbers.
proof fn lemma_number_lists<'a, T: SwappableNumber>(v: Seq<RawList<'a, T>>)
    ensures
        forall|i: int| 0 <= i < v.len() ==> {
            &&& numbers_from_be::<i32>(#[trigger] v[i]@) == crate::model::decode_i32s(v[i]@)
            &&& numbers_from_be::<i64>(v[i]@) == crate::model::decode_i64s(v[i]@)
        },
{
    assert forall|i: int| 0 <= i < v.len() implies {
        &&& numbers_from_be::<i32>(#[trigger] v[i]@) == crate::model::decode_i32s(v[i]@)
        &&& numbers_from_be::<i64>(v[i]@) == crate::model::decode_i64s(v[i]@)
    } by {
        lemma_numbers_from_be(v[i]@);
    }
}

/// Whether two compounds hold the same names and tags, in the same order.
pub fn compounds_eq<'a, 'tape>(a: &NbtCompound<'a, 'tape>, b: &NbtCompound<'a, 'tape>) -> (r: bool)
    requires
        a.wf(),
        b.wf(),
    ensures
        r == (a@ == b@),
    decreases a@,
{
    let n = a.len();
    if n != b.len() {
        return false;
    }
    let mut ia = a.iter();
    let mut ib = b.iter();
    let mut k: usize = 0;
    while k < n
        invariant
            n == a@.len(),
            n == b@.len(),
            k <= n,
            ia.wf(),
            ib.wf(),
            ia@ == a@.subrange(k as int, n as int),
            ib@ == b@.subrange(k as int, n as int),
            forall|j: int| 0 <= j < k ==> a@[j] == b@[j],
        decreases n - k,
    {
        let ghost ia0 = ia@;
        let ghost ib0 = ib@;
        assert(ia0[0] == a@[k as int]);
        assert(ib0[0] == b@[k as int]);
        let (na, ta) = match ia.next() {
            Some(x) => x,
            None => return false,
        };
        let (nb, tb) = match ib.next() {
            Some(x) => x,
            None => return false,
        };
        if !na.eq_str(&nb) {
            return false;
        }
        proof {
            assert(decreases_to!(a@ => a@[k as int]));
            assert(decreases_to!(a@[k as int] => a@[k as int].1));
        }
        if !tags_eq(&ta, &tb) {
            return false;
        }
        proof {
            assert(ia@ =~= a@.subrange(k + 1, n as int));
            assert(ib@ =~= b@.subrange(k + 1, n as int));
        }
        k = k + 1;
    }
    assert(a@ =~= b@);
    true
}

/// Whether two lists of lists hold equal lists, in the same order.
pub fn list_lists_eq<'a, 'tape>(a: &NbtListList<'a, 'tape>, b: &NbtListList<'a, 'tape>) -> (r: bool)
    requires
        a.wf(),
        b.wf(),
    ensures
        r == (a@ == b@),
    decreases a@,
{
    let n = a.len();
    if n != b.len() {
        return false;
    }
    let mut i: usize = 0;
    while i < n
        invariant
            n == a@.len(),
            n == b@.len(),
            i <= n,
            a.wf(),
            b.wf(),
            forall|j: int| 0 <= j < i ==> a@[j] == b@[j],
        decreases n - i,
    {
        let x = match a.get(i) {
            Some(x) => x,
            None => return false,
        };
        let y = match b.get(i) {
            Some(y) => y,
            None => return false,
        };
        proof {
            assert(decreases_to!(a@ => a@[i as int]));
        }
        if !lists_eq(&x, &y) {
            return false;
        }
        i = i + 1;
    }
    assert(a@ =~= b@);
    true
}

/// Whether two lists of compounds hold equal compounds, in the same order.
pub fn compound_lists_eq<'a, 'tape>(a: &NbtCompoundList<'a, 'tape>, b: &NbtCompoundList<'a, 'tape>) -> (r: bool)
    requires
        a.wf(),
        b.wf(),
    ensures
        r == (a@ == b@),
    decreases a@,
{
    let n = a.len();
    if n != b.len() {
        return false;
    }
    let mut i: usize = 0;
    while i < n
        invariant
            n == a@.len(),
            n == b@.len(),
            i <= n,
            a.wf(),
            b.wf(),
            forall|j: int| 0 <= j < i ==> a@[j] == b@[j],
        decreases n - i,
    {
        let x = match a.get(i) {
            Some(x) => x,
            None => return false,
        };
        let y = match b.get(i) {
            Some(y) => y,
            None => return false,
        };
        proof {
            assert(decreases_to!(a@ => a@[i as int]));
        }
        if !compounds_eq(&x, &y) {
            return false;
        }
        i = i + 1;
    }
    assert(a@ =~= b@);
    true
}

} // verus!
