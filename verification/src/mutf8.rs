//! The string representation used in NBT: modified UTF-8 (MUTF-8).
//!
//! Strings are kept as the raw MUTF-8 bytes found in the data; they are only
//! decoded when asked for.

use vstd::prelude::*;
use vstd::string::StringSliceAdditionalSpecFns;
use vstd::utf8::{decode_utf8, encode_scalar, encode_utf8, valid_utf8};

verus! {

/// The three bytes that M-UTF-8 writes for a 16-bit code unit from U+0800
/// up, surrogates included.
pub open spec fn unit_bytes(u: u32) -> Seq<u8> {
    seq![0xE0 | ((u >> 12) & 0x0F) as u8, 0x80 | ((u >> 6) & 0x3F) as u8, 0x80 | (u & 0x3F) as u8]
}

/// The M-UTF-8 bytes of one character: the nul character as 0xC0 0x80,
/// other characters up to U+FFFF as in UTF-8, and characters above U+FFFF as
/// the two surrogates of their UTF-16 form, three bytes each.
pub open spec fn mutf8_char(c: char) -> Seq<u8> {
    let v = c as u32;
    if v == 0 {
        seq![0xC0u8, 0x80u8]
    } else if v < 0x10000 {
        encode_scalar(v)
    } else {
        let w = (v - 0x10000) as u32;
        unit_bytes((0xD800 + (w >> 10)) as u32) + unit_bytes((0xDC00 + (w & 0x3FF)) as u32)
    }
}

/// The M-UTF-8 bytes of a string: its characters' bytes, in order.
pub open spec fn mutf8_encode(chars: Seq<char>) -> Seq<u8>
    decreases chars.len(),
{
    if chars.len() == 0 {
        seq![]
    } else {
        mutf8_char(chars[0]) + mutf8_encode(chars.drop_first())
    }
}

/// What `mutf8::utf8_to_mutf8` returns for valid UTF-8 bytes: the M-UTF-8
/// bytes of the characters they encode.
pub open spec fn spec_utf8_to_mutf8(input: Seq<u8>) -> Seq<u8> {
    mutf8_encode(decode_utf8(input))
}

/// Characters that are not nul and not above U+FFFF have the same bytes in
/// M-UTF-8 as in UTF-8.
pub proof fn lemma_mutf8_same_as_utf8(chars: Seq<char>)
    requires
        forall|i: int| 0 <= i < chars.len() ==> 0 < #[trigger] (chars[i] as u32) < 0x10000,
    ensures
        mutf8_encode(chars) == encode_utf8(chars),
    decreases chars.len(),
{
    if chars.len() > 0 {
        assert(0 < (chars[0] as u32) < 0x10000);
        let rest = chars.drop_first();
        assert forall|i: int| 0 <= i < rest.len() implies 0 < #[trigger] (rest[i] as u32) < 0x10000 by {
            assert(rest[i] == chars[i + 1]);
        }
        lemma_mutf8_same_as_utf8(rest);
    }
}

/// Whether `b` continues a multi-byte sequence (`10xxxxxx`).
pub open spec fn spec_is_continuation(b: u8) -> bool {
    0x80 <= b <= 0xBF
}

/// Whether `b` continues a multi-byte sequence (`10xxxxxx`).
#[verifier::when_used_as_spec(spec_is_continuation)]
pub fn is_continuation(b: u8) -> (r: bool)
    ensures
        r == spec_is_continuation(b),
{
    0x80 <= b && b <= 0xBF
}

/// The bytes of `s` from `i` on are well-formed M-UTF-8: no zero byte, each
/// character one byte below 0x80, two bytes (lead 0xC2..0xDF, or 0xC0 0x80
/// for the nul character) or three bytes (lead 0xE0..0xEF, not overlong;
/// characters above U+FFFF appear as two such groups, a surrogate pair),
/// and never a lead byte 0xF0 or above or a stray continuation byte.
pub open spec fn valid_mutf8_from(s: Seq<u8>, i: int) -> bool
    decreases s.len() - i,
{
    if i < 0 || i >= s.len() {
        true
    } else {
        let b = s[i];
        if b == 0 {
            false
        } else if b < 0x80 {
            valid_mutf8_from(s, i + 1)
        } else if 0xC0 <= b <= 0xDF {
            &&& i + 2 <= s.len()
            &&& spec_is_continuation(s[i + 1])
            &&& (b >= 0xC2 || (b == 0xC0 && s[i + 1] == 0x80))
            &&& valid_mutf8_from(s, i + 2)
        } else if 0xE0 <= b <= 0xEF {
            &&& i + 3 <= s.len()
            &&& spec_is_continuation(s[i + 1])
            &&& spec_is_continuation(s[i + 2])
            &&& (b != 0xE0 || s[i + 1] >= 0xA0)
            &&& valid_mutf8_from(s, i + 3)
        } else {
            false
        }
    }
}

/// `s` is well-formed M-UTF-8.
pub open spec fn valid_mutf8(s: Seq<u8>) -> bool {
    valid_mutf8_from(s, 0)
}

/// The MUTF-8 bytes of a string: what `Mutf8Str::from_str` gives.
pub open spec fn mutf8_of_str(s: &str) -> Seq<u8> {
    spec_utf8_to_mutf8(s.spec_bytes())
}

/// What `mutf8::mutf8_to_utf8` returns for the given MUTF-8 bytes.
pub uninterp spec fn spec_mutf8_to_utf8(input: Seq<u8>) -> Seq<u8>;

/// What `String::from_utf8_lossy` returns for the given bytes.
pub uninterp spec fn spec_utf8_lossy(input: Seq<u8>) -> Seq<char>;

/// Calls `mutf8::utf8_to_mutf8`, which re-encodes UTF-8 bytes as MUTF-8:
/// the nul byte becomes 0xC0 0x80, each four-byte sequence becomes the two
/// three-byte surrogates of its character, and every other byte is kept, as
/// `spec_utf8_to_mutf8` states. The input must be valid UTF-8: on some
/// invalid four-byte sequences the function underflows.
#[verifier::external_body]
fn utf8_to_mutf8_bytes(input: &[u8]) -> (r: Vec<u8>)
    requires
        valid_utf8(input@),
    ensures
        r@ == spec_utf8_to_mutf8(input@),
{
    mutf8::utf8_to_mutf8(input).into_owned()
}

/// Calls `mutf8::mutf8_to_utf8`, which re-encodes MUTF-8 bytes as UTF-8.
/// Its result is a function of the input bytes alone and is named here; of
/// the M-UTF-8 bytes of a string, it gives the string's UTF-8 bytes back
/// (0xC0 0x80 becomes the nul byte, a surrogate pair its four-byte
/// character, other bytes are kept).
#[verifier::external_body]
fn mutf8_to_utf8_bytes(input: &[u8]) -> (r: Vec<u8>)
    ensures
        r@ == spec_mutf8_to_utf8(input@),
        forall|cs: Seq<char>| input@ == #[trigger] mutf8_encode(cs) ==> r@ == encode_utf8(cs),
{
    mutf8::mutf8_to_utf8(input).into_owned()
}

/// Calls `String::from_utf8`: it succeeds exactly when the bytes are valid
/// UTF-8, and the string then holds the characters those bytes encode.
#[verifier::external_body]
fn string_from_utf8(bytes: Vec<u8>) -> (r: Option<String>)
    ensures
        r is Some <==> valid_utf8(bytes@),
        r matches Some(s) ==> s@ == decode_utf8(bytes@),
{
    String::from_utf8(bytes).ok()
}

/// Calls `String::from_utf8_lossy`; on valid UTF-8 its documentation promises
/// the decoded characters, and otherwise replacement characters that are left
/// unnamed here.
#[verifier::external_body]
fn string_from_utf8_lossy(bytes: &[u8]) -> (r: String)
    ensures
        r@ == spec_utf8_lossy(bytes@),
        valid_utf8(bytes@) ==> r@ == decode_utf8(bytes@),
{
    String::from_utf8_lossy(bytes).into_owned()
}

/// Whether two byte slices hold the same bytes.
pub fn bytes_eq(a: &[u8], b: &[u8]) -> (r: bool)
    ensures
        r <==> a@ == b@,
{
    if a.len() != b.len() {
        return false;
    }
    let mut i: usize = 0;
    while i < a.len()
        invariant
            i <= a@.len(),
            a@.len() == b@.len(),
            forall|j: int| 0 <= j < i ==> a@[j] == b@[j],
        decreases a@.len() - i,
    {
        if a[i] != b[i] {
            return false;
        }
        i = i + 1;
    }
    assert(a@ =~= b@);
    true
}

/// Copies a byte slice into a new vector.
pub fn bytes_to_vec(a: &[u8]) -> (r: Vec<u8>)
    ensures
        r@ == a@,
{
    let mut v: Vec<u8> = Vec::with_capacity(a.len());
    let mut i: usize = 0;
    while i < a.len()
        invariant
            i <= a@.len(),
            v@ == a@.subrange(0, i as int),
        decreases a@.len() - i,
    {
        v.push(a[i]);
        i = i + 1;
        assert(v@ =~= a@.subrange(0, i as int));
    }
    assert(a@.subrange(0, a@.len() as int) =~= a@);
    v
}

/// A borrowed MUTF-8 string: the raw bytes, not validated.
#[derive(Debug, Clone, Copy, PartialEq, Eq)]
pub struct Mutf8Str<'a> {
    pub slice: &'a [u8],
}

/// An owned MUTF-8 string: the raw bytes, not validated.
#[derive(Debug, Clone, PartialEq, Eq)]
pub struct Mutf8String {
    pub vec: Vec<u8>,
}

impl<'a> View for Mutf8Str<'a> {
    type V = Seq<u8>;

    open spec fn view(&self) -> Seq<u8> {
        self.slice@
    }
}

impl View for Mutf8String {
    type V = Seq<u8>;

    open spec fn view(&self) -> Seq<u8> {
        self.vec@
    }
}

impl<'a> Mutf8Str<'a> {
    /// Views the bytes as a MUTF-8 string, without checking them.
    pub fn from_slice(slice: &'a [u8]) -> (r: Mutf8Str<'a>)
        ensures
            r@ == slice@,
    {
        Mutf8Str { slice }
    }

    /// The raw MUTF-8 bytes.
    pub fn as_bytes(&self) -> (r: &'a [u8])
        ensures
            r@ == self@,
    {
        self.slice
    }

    /// The length in bytes.
    pub fn len(&self) -> (r: usize)
        ensures
            r == self@.len(),
    {
        self.slice.len()
    }

    pub fn is_empty(&self) -> (r: bool)
        ensures
            r <==> self@.len() == 0,
    {
        self.slice.len() == 0
    }

    /// Returns whether the given byte slice is a valid M-UTF-8 string.
    pub fn is_valid(slice: &[u8]) -> (r: bool)
        ensures
            r == valid_mutf8(slice@),
    {
        let n = slice.len();
        let mut i: usize = 0;
        while i < n
            invariant
                n == slice@.len(),
                i <= n,
                valid_mutf8(slice@) == valid_mutf8_from(slice@, i as int),
            decreases n - i,
        {
            let b = slice[i];
            if b == 0 {
                return false;
            } else if b < 0x80 {
                i = i + 1;
            } else if 0xC0 <= b && b <= 0xDF {
                if n - i < 2 {
                    return false;
                }
                let c = slice[i + 1];
                if !(is_continuation(c) && (b >= 0xC2 || (b == 0xC0 && c == 0x80))) {
                    return false;
                }
                i = i + 2;
            } else if 0xE0 <= b && b <= 0xEF {
                if n - i < 3 {
                    return false;
                }
                let c = slice[i + 1];
                let d = slice[i + 2];
                if !(is_continuation(c) && is_continuation(d) && (b != 0xE0 || c >= 0xA0)) {
                    return false;
                }
                i = i + 3;
            } else {
                return false;
            }
        }
        true
    }

    /// Encodes a string as MUTF-8.
    pub fn from_str(s: &str) -> (r: Mutf8String)
        ensures
            r@ == spec_utf8_to_mutf8(s.spec_bytes()),
            r@ == mutf8_encode(s@),
    {
        proof {
            vstd::utf8::encode_utf8_valid_utf8(s@);
            vstd::utf8::encode_utf8_decode_utf8(s@);
        }
        Mutf8String { vec: utf8_to_mutf8_bytes(s.as_bytes()) }
    }

    /// Decodes the string; `None` when its UTF-8 re-encoding is not valid UTF-8.
    pub fn try_to_str(&self) -> (r: Option<String>)
        ensures
            r is Some <==> valid_utf8(spec_mutf8_to_utf8(self@)),
            r matches Some(s) ==> s@ == decode_utf8(spec_mutf8_to_utf8(self@)),
            forall|cs: Seq<char>| self@ == #[trigger] mutf8_encode(cs) ==> (r matches Some(s) && s@ == cs),
    {
        let bytes = mutf8_to_utf8_bytes(self.slice);
        proof {
            assert forall|cs: Seq<char>| self@ == #[trigger] mutf8_encode(cs) implies valid_utf8(
                spec_mutf8_to_utf8(self@),
            ) && decode_utf8(spec_mutf8_to_utf8(self@)) == cs by {
                vstd::utf8::encode_utf8_valid_utf8(cs);
                vstd::utf8::encode_utf8_decode_utf8(cs);
            }
        }
        let valid = string_from_utf8(bytes).is_some();
        if valid {
            Some(self.to_str())
        } else {
            None
        }
    }

    /// Decodes the string. The string must be valid MUTF-8.
    pub fn to_str(&self) -> (r: String)
        requires
            valid_utf8(spec_mutf8_to_utf8(self@)),
        ensures
            r@ == decode_utf8(spec_mutf8_to_utf8(self@)),
            forall|cs: Seq<char>| self@ == #[trigger] mutf8_encode(cs) ==> r@ == cs,
    {
        let bytes = mutf8_to_utf8_bytes(self.slice);
        proof {
            assert forall|cs: Seq<char>| self@ == #[trigger] mutf8_encode(cs) implies decode_utf8(
                spec_mutf8_to_utf8(self@),
            ) == cs by {
                vstd::utf8::encode_utf8_decode_utf8(cs);
            }
        }
        match string_from_utf8(bytes) {
            Some(s) => s,
            None => {
                assert(false);
                String::new()
            },
        }
    }

    /// Reads the raw bytes as UTF-8, replacing what is not valid.
    pub fn to_string_lossy(&self) -> (r: String)
        ensures
            r@ == spec_utf8_lossy(self@),
            valid_utf8(self@) ==> r@ == decode_utf8(self@),
    {
        string_from_utf8_lossy(self.slice)
    }

    /// Copies the string into an owned one.
    pub fn to_owned(&self) -> (r: Mutf8String)
        ensures
            r@ == self@,
    {
        Mutf8String { vec: bytes_to_vec(self.slice) }
    }

    /// Whether both strings hold the same bytes.
    pub fn eq_str(&self, other: &Mutf8Str) -> (r: bool)
        ensures
            r <==> self@ == other@,
    {
        bytes_eq(self.slice, other.slice)
    }
}

impl Mutf8String {
    /// Wraps raw MUTF-8 bytes.
    pub fn from_vec(vec: Vec<u8>) -> (r: Mutf8String)
        ensures
            r@ == vec@,
    {
        Mutf8String { vec }
    }

    /// Borrows the string.
    pub fn as_str(&self) -> (r: Mutf8Str<'_>)
        ensures
            r@ == self@,
    {
        Mutf8Str { slice: self.vec.as_slice() }
    }

    /// The raw MUTF-8 bytes.
    pub fn as_bytes(&self) -> (r: &[u8])
        ensures
            r@ == self@,
    {
        self.vec.as_slice()
    }

    pub fn len(&self) -> (r: usize)
        ensures
            r == self@.len(),
    {
        self.vec.len()
    }

    /// A copy of the string.
    pub fn duplicate(&self) -> (r: Mutf8String)
        ensures
            r@ == self@,
    {
        Mutf8String { vec: bytes_to_vec(self.vec.as_slice()) }
    }

    /// Encodes a string as MUTF-8.
    pub fn from_string(s: &str) -> (r: Mutf8String)
        ensures
            r@ == spec_utf8_to_mutf8(s.spec_bytes()),
    {
        Mutf8Str::from_str(s)
    }
}

} // verus!
