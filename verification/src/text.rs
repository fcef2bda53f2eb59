//! Byte-level text helpers: ASCII case folding, substring search and
//! case-insensitive comparison, used by the eligibility filter and the
//! submission validator.
//!
//! Folding is ASCII-only: bytes outside `A`..`Z` are left as they are,
//! so non-ASCII sector labels compare by their exact bytes.
use vstd::prelude::*;
use vstd::string::StringSliceAdditionalSpecFns;

verus! {

/// ASCII lowercase of a single byte; other bytes are unchanged.
pub open spec fn lower_byte(b: u8) -> u8 {
    if 65 <= b && b <= 90 {
        (b + 32) as u8
    } else {
        b
    }
}

/// ASCII lowercase of a byte sequence.
pub open spec fn lower_bytes(s: Seq<u8>) -> Seq<u8> {
    s.map_values(|b: u8| lower_byte(b))
}

/// The UTF-8 byte content of a character sequence.
pub open spec fn chars_bytes(s: Seq<char>) -> Seq<u8> {
    vstd::utf8::encode_utf8(s)
}

/// The byte content of a string slice.
pub open spec fn str_bytes(s: &str) -> Seq<u8> {
    s.spec_bytes()
}

/// Exact equality of two byte slices.
pub fn bytes_eq(a: &[u8], b: &[u8]) -> (r: bool)
    ensures
        r == (a@ == b@),
{
    if a.len() != b.len() {
        proof {
            assert(a@.len() != b@.len());
        }
        return false;
    }
    let mut i: usize = 0;
    while i < a.len()
        invariant
            a@.len() == b@.len(),
            i <= a@.len(),
            forall|j: int| 0 <= j < i ==> a@[j] == b@[j],
        decreases a@.len() - i,
    {
        if a[i] != b[i] {
            return false;
        }
        i = i + 1;
    }
    proof {
        assert(a@ =~= b@);
    }
    true
}

/// Exact equality of two strings.
pub fn str_eq(a: &str, b: &str) -> (r: bool)
    ensures
        r == (a@ == b@),
{
    let ab = a.as_bytes();
    let bb = b.as_bytes();
    if ab.len() != bb.len() {
        proof {
            assert(ab@.len() != bb@.len());
            assert(a@ != b@);
        }
        return false;
    }
    let mut i: usize = 0;
    while i < ab.len()
        invariant
            ab@.len() == bb@.len(),
            i <= ab@.len(),
            ab@ == str_bytes(a),
            bb@ == str_bytes(b),
            forall|j: int| 0 <= j < i ==> ab@[j] == bb@[j],
        decreases ab@.len() - i,
    {
        if ab[i] != bb[i] {
            proof {
                assert(str_bytes(a) != str_bytes(b));
                assert(a@ != b@);
            }
            return false;
        }
        i = i + 1;
    }
    proof {
        assert(str_bytes(a) =~= str_bytes(b));
        vstd::utf8::encode_utf8_decode_utf8(a@);
        vstd::utf8::encode_utf8_decode_utf8(b@);
        assert(a@ == b@);
    }
    true
}

/// `needle` occurs in `hay` at offset `i`.
pub open spec fn match_at(hay: Seq<u8>, needle: Seq<u8>, i: int) -> bool {
    &&& 0 <= i
    &&& i + needle.len() <= hay.len()
    &&& forall|k: int| 0 <= k < needle.len() ==> hay[i + k] == needle[k]
}

/// `needle` occurs somewhere in `hay`.
pub open spec fn contains_seq(hay: Seq<u8>, needle: Seq<u8>) -> bool {
    exists|i: int| match_at(hay, needle, i)
}

/// Case-insensitive containment of `needle` in `hay`.
pub open spec fn contains_ci(hay: Seq<u8>, needle: Seq<u8>) -> bool {
    contains_seq(lower_bytes(hay), lower_bytes(needle))
}

fn lower_byte_exec(b: u8) -> (r: u8)
    ensures
        r == lower_byte(b),
{
    if 65 <= b && b <= 90 {
        b + 32
    } else {
        b
    }
}

/// ASCII-lowercased copy of a byte slice.
pub fn to_lower_vec(s: &[u8]) -> (r: Vec<u8>)
    ensures
        r@ == lower_bytes(s@),
{
    let mut r: Vec<u8> = Vec::new();
    let mut i: usize = 0;
    while i < s.len()
        invariant
            i <= s.len(),
            r@ == lower_bytes(s@.take(i as int)),
        decreases s.len() - i,
    {
        r.push(lower_byte_exec(s[i]));
        i = i + 1;
        proof {
            assert(r@ =~= lower_bytes(s@.take(i as int)));
        }
    }
    proof {
        assert(s@.take(s@.len() as int) =~= s@);
    }
    r
}

/// ASCII-lowercased bytes of a string slice.
pub fn str_lower(s: &str) -> (r: Vec<u8>)
    ensures
        r@ == lower_bytes(str_bytes(s)),
{
    to_lower_vec(s.as_bytes())
}

pub(crate) fn match_at_exec(hay: &[u8], needle: &[u8], i: usize) -> (r: bool)
    requires
        i + needle@.len() <= hay@.len(),
    ensures
        r == match_at(hay@, needle@, i as int),
{
    let hl = hay.len();
    let mut k: usize = 0;
    while k < needle.len()
        invariant
            k <= needle@.len(),
            i + needle@.len() <= hay@.len(),
            hl == hay@.len(),
            forall|j: int| 0 <= j < k ==> hay@[i + j] == needle@[j],
        decreases needle@.len() - k,
    {
        if hay[i + k] != needle[k] {
            return false;
        }
        k = k + 1;
    }
    true
}

/// Whether `needle` occurs as a contiguous run in `hay`.
pub fn contains_bytes(hay: &[u8], needle: &[u8]) -> (r: bool)
    ensures
        r == contains_seq(hay@, needle@),
{
    if needle.len() > hay.len() {
        assert(forall|i: int| !match_at(hay@, needle@, i));
        return false;
    }
    if needle.len() == 0 {
        assert(match_at(hay@, needle@, 0));
        return true;
    }
    let bound: usize = hay.len() - needle.len();
    let mut i: usize = 0;
    while i <= bound
        invariant
            bound == hay@.len() - needle@.len(),
            bound < usize::MAX,
            i <= bound + 1,
            forall|j: int| 0 <= j < i ==> !match_at(hay@, needle@, j),
        decreases bound + 1 - i,
    {
        if match_at_exec(hay, needle, i) {
            return true;
        }
        i = i + 1;
    }
    assert(forall|j: int| j > bound ==> !match_at(hay@, needle@, j));
    false
}

/// Case-insensitive containment of `needle` in `hay`, both given as strings.
pub fn str_contains_ci(hay: &str, needle: &str) -> (r: bool)
    ensures
        r == contains_ci(str_bytes(hay), str_bytes(needle)),
{
    let h = str_lower(hay);
    let n = str_lower(needle);
    contains_bytes(h.as_slice(), n.as_slice())
}

/// Case-insensitive equality of two strings, byte for byte.
pub fn str_eq_ci(a: &str, b: &str) -> (r: bool)
    ensures
        r == (lower_bytes(str_bytes(a)) == lower_bytes(str_bytes(b))),
{
    let la = str_lower(a);
    let lb = str_lower(b);
    if la.len() != lb.len() {
        assert(la@.len() != lb@.len());
        return false;
    }
    let mut i: usize = 0;
    while i < la.len()
        invariant
            la@.len() == lb@.len(),
            i <= la@.len(),
            la@ == lower_bytes(str_bytes(a)),
            lb@ == lower_bytes(str_bytes(b)),
            forall|j: int| 0 <= j < i ==> la@[j] == lb@[j],
        decreases la@.len() - i,
    {
        if la[i] != lb[i] {
            return false;
        }
        i = i + 1;
    }
    proof {
        assert(la@ =~= lb@);
    }
    true
}

/// Whether the byte `b` occurs in the string `s`.
pub fn str_contains_byte(s: &str, b: u8) -> (r: bool)
    ensures
        r == str_bytes(s).contains(b),
{
    let bytes = s.as_bytes();
    let mut i: usize = 0;
    while i < bytes.len()
        invariant
            i <= bytes@.len(),
            bytes@ == str_bytes(s),
            forall|j: int| 0 <= j < i ==> bytes@[j] != b,
        decreases bytes@.len() - i,
    {
        if bytes[i] == b {
            assert(str_bytes(s).contains(b));
            return true;
        }
        i = i + 1;
    }
    assert(!str_bytes(s).contains(b));
    false
}

} // verus!
