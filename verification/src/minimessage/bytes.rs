//! Searching the UTF-8 bytes of the markup, and cutting text out of it at character
//! boundaries.
use vstd::prelude::*;
use vstd::slice::slice_subrange;
use vstd::string::StringSliceAdditionalSpecFns;
use vstd::utf8::{decode_utf8, encode_utf8, is_char_boundary, is_continuation_byte, valid_utf8};

verus! {

broadcast use vstd::utf8::encode_utf8_valid_utf8, vstd::utf8::encode_utf8_decode_utf8;

/// The first index in `from..to` whose byte is `a` or `b`.
pub open spec fn first_of(bytes: Seq<u8>, from: int, to: int, a: u8, b: u8) -> Option<int>
    decreases to - from,
{
    if from >= to {
        None
    } else if bytes[from] == a || bytes[from] == b {
        Some(from)
    } else {
        first_of(bytes, from + 1, to, a, b)
    }
}

/// The characters that the bytes `from..to` encode.
pub open spec fn text(bytes: Seq<u8>, from: int, to: int) -> Seq<char> {
    decode_utf8(bytes.subrange(from, to))
}

/// A position at which the bytes may be cut: the start of a character, or the end.
pub open spec fn boundary(bytes: Seq<u8>, i: int) -> bool {
    i == bytes.len() || (0 <= i < bytes.len() && !is_continuation_byte(bytes[i]))
}

/// `first_of` names the first index that holds either byte.
pub proof fn lemma_first_of(bytes: Seq<u8>, from: int, to: int, a: u8, b: u8, k: Option<int>)
    requires
        0 <= from <= to <= bytes.len(),
        match k {
            Some(k) => from <= k < to && (bytes[k] == a || bytes[k] == b) && forall|j: int|
                from <= j < k ==> bytes[j] != a && bytes[j] != b,
            None => forall|j: int| from <= j < to ==> bytes[j] != a && bytes[j] != b,
        },
    ensures
        first_of(bytes, from, to, a, b) == k,
    decreases to - from,
{
    if from < to {
        if k != Some(from) {
            lemma_first_of(bytes, from + 1, to, a, b, k);
        }
    }
}

/// What `first_of` finds lies in range, holds one of the bytes, and nothing before it does.
pub proof fn lemma_first_of_found(bytes: Seq<u8>, from: int, to: int, a: u8, b: u8)
    requires
        0 <= from <= to <= bytes.len(),
    ensures
        match first_of(bytes, from, to, a, b) {
            Some(k) => from <= k < to && (bytes[k] == a || bytes[k] == b) && forall|j: int|
                from <= j < k ==> bytes[j] != a && bytes[j] != b,
            None => forall|j: int| from <= j < to ==> bytes[j] != a && bytes[j] != b,
        },
    decreases to - from,
{
    if from < to {
        lemma_first_of_found(bytes, from + 1, to, a, b);
    }
}

/// In valid UTF-8, `boundary` is exactly the character boundary of the standard library.
pub proof fn lemma_boundary(bytes: Seq<u8>, i: int)
    requires
        valid_utf8(bytes),
        0 <= i <= bytes.len(),
    ensures
        is_char_boundary(bytes, i) <==> boundary(bytes, i),
{
    vstd::utf8::is_char_boundary_start_end_of_seq(bytes);
    if i < bytes.len() {
        vstd::utf8::is_char_boundary_iff_not_is_continuation_byte(bytes, i);
    }
}

/// The byte after the start of a one-byte character starts the next character, or is
/// the end: in valid UTF-8 no continuation byte follows an ASCII byte.
pub proof fn lemma_boundary_after_ascii(bytes: Seq<u8>, i: int)
    requires
        valid_utf8(bytes),
        0 <= i < bytes.len(),
        bytes[i] < 0x80,
    ensures
        boundary(bytes, i + 1),
    decreases bytes.len(),
{
    let first = vstd::utf8::length_of_first_scalar(bytes);
    let rest = vstd::utf8::pop_first_scalar(bytes);
    assert(valid_utf8(rest));
    assert(first >= 1 && first <= bytes.len());
    assert(rest.len() == bytes.len() - first);
    if i + 1 < bytes.len() {
        if i < first {
            assert(bytes[0] < 0x80) by {
                if bytes[0] >= 0x80 {
                    assert(first >= 2);
                    assert(i == 0 || is_continuation_byte(bytes[i]));
                }
            }
            assert(first == 1);
            assert(i == 0);
            assert(rest[0] == bytes[1]);
            if rest.len() > 0 {
                assert(vstd::utf8::valid_first_scalar(rest));
            }
        } else {
            assert(rest[i - first] == bytes[i]);
            lemma_boundary_after_ascii(rest, i - first);
            assert(rest[i - first + 1] == bytes[i + 1]);
        }
    }
}

/// Searches for the first occurrence of a byte, with `memchr::memchr`.
#[verifier::external_body]
pub(crate) fn find_byte(needle: u8, haystack: &[u8]) -> (r: Option<usize>)
    ensures
        match r {
            Some(k) => k < haystack@.len() && haystack@[k as int] == needle && forall|j: int|
                0 <= j < k ==> haystack@[j] != needle,
            None => forall|j: int| 0 <= j < haystack@.len() ==> haystack@[j] != needle,
        },
{
    memchr::memchr(needle, haystack)
}

/// Searches for the first occurrence of either of two bytes, with `memchr::memchr2`.
#[verifier::external_body]
pub(crate) fn find_either(a: u8, b: u8, haystack: &[u8]) -> (r: Option<usize>)
    ensures
        match r {
            Some(k) => k < haystack@.len() && (haystack@[k as int] == a || haystack@[k as int] == b)
                && forall|j: int| 0 <= j < k ==> haystack@[j] != a && haystack@[j] != b,
            None => forall|j: int| 0 <= j < haystack@.len() ==> haystack@[j] != a && haystack@[j] != b,
        },
{
    memchr::memchr2(a, b, haystack)
}

/// The first index in `from..to` of `bytes` that holds `a` or `b`.
pub fn search(bytes: &[u8], from: usize, to: usize, a: u8, b: u8) -> (r: Option<usize>)
    requires
        from <= to <= bytes@.len(),
    ensures
        r == (match first_of(bytes@, from as int, to as int, a, b) {
            Some(k) => Some(k as usize),
            None => None,
        }),
        r matches Some(k) ==> from <= k < to,
{
    let hay = slice_subrange(bytes, from, to);
    let found = if a == b {
        find_byte(a, hay)
    } else {
        find_either(a, b, hay)
    };
    match found {
        Some(off) => {
            proof {
                assert(bytes@[from + off] == hay@[off as int]);
                assert forall|j: int| from <= j < from + off implies bytes@[j] != a && bytes@[j] != b by {
                    assert(bytes@[j] == hay@[j - from]);
                }
                lemma_first_of(bytes@, from as int, to as int, a, b, Some(from + off));
            }
            Some(from + off)
        },
        None => {
            proof {
                assert forall|j: int| from <= j < to implies bytes@[j] != a && bytes@[j] != b by {
                    assert(bytes@[j] == hay@[j - from]);
                }
                lemma_first_of(bytes@, from as int, to as int, a, b, None);
            }
            None
        },
    }
}

/// Whether two texts are equal, compared byte by byte.
pub fn same_text(a: &str, b: &str) -> (r: bool)
    ensures
        r == (a@ == b@),
{
    let x = a.as_bytes();
    let y = b.as_bytes();
    proof {
        assert(decode_utf8(encode_utf8(a@)) == a@);
        assert(decode_utf8(encode_utf8(b@)) == b@);
    }
    if x.len() != y.len() {
        return false;
    }
    let mut i: usize = 0;
    while i < x.len()
        invariant
            x@.len() == y@.len(),
            i <= x@.len(),
            x@ == encode_utf8(a@),
            y@ == encode_utf8(b@),
            forall|j: int| 0 <= j < i ==> x@[j] == y@[j],
        decreases x@.len() - i,
    {
        if x[i] != y[i] {
            return false;
        }
        i = i + 1;
    }
    proof {
        assert(x@ =~= y@);
    }
    true
}

/// A byte with an ASCII capital letter made small.
pub open spec fn ascii_lower(b: u8) -> u8 {
    if 65 <= b <= 90 {
        (b + 32) as u8
    } else {
        b
    }
}

/// Two byte strings that are equal when ASCII letters are compared without case.
pub open spec fn ascii_same(a: Seq<u8>, b: Seq<u8>) -> bool {
    a.len() == b.len() && forall|i: int| 0 <= i < a.len() ==> ascii_lower(#[trigger] a[i]) == ascii_lower(b[i])
}

/// Whether two texts are equal when ASCII letters are compared without case, as
/// `str::eq_ignore_ascii_case` compares them.
pub fn same_ignoring_ascii_case(a: &str, b: &str) -> (r: bool)
    ensures
        r == ascii_same(encode_utf8(a@), encode_utf8(b@)),
{
    let x = a.as_bytes();
    let y = b.as_bytes();
    if x.len() != y.len() {
        return false;
    }
    let mut i: usize = 0;
    while i < x.len()
        invariant
            x@.len() == y@.len(),
            i <= x@.len(),
            x@ == encode_utf8(a@),
            y@ == encode_utf8(b@),
            forall|j: int| 0 <= j < i ==> ascii_lower(#[trigger] x@[j]) == ascii_lower(y@[j]),
        decreases x@.len() - i,
    {
        let p = if 65 <= x[i] && x[i] <= 90 { x[i] + 32 } else { x[i] };
        let q = if 65 <= y[i] && y[i] <= 90 { y[i] + 32 } else { y[i] };
        if p != q {
            return false;
        }
        i = i + 1;
    }
    true
}

/// The text that `str::to_lowercase` makes of a text: every character in its Unicode
/// lower-case form.
pub uninterp spec fn lowercase(s: Seq<char>) -> Seq<char>;

/// The text in lower case, with `str::to_lowercase`.
#[verifier::external_body]
pub(crate) fn to_lower(s: &str) -> (r: String)
    ensures
        r@ == lowercase(s@),
{
    s.to_lowercase()
}

/// The text of `s` between two byte positions that are character boundaries.
pub fn substring(s: &str, from: usize, to: usize) -> (r: String)
    requires
        from <= to <= s.spec_bytes().len(),
        boundary(s.spec_bytes(), from as int),
        boundary(s.spec_bytes(), to as int),
    ensures
        r@ == text(s.spec_bytes(), from as int, to as int),
{
    let ghost bytes = s.spec_bytes();
    proof {
        lemma_boundary(bytes, to as int);
    }
    let (head, _) = s.split_at(to);
    proof {
        let pre = bytes.subrange(0, to as int);
        assert(head.spec_bytes() == pre);
        vstd::utf8::valid_utf8_split(bytes, to as int);
        assert(encode_utf8(head@) == pre);
        lemma_boundary(pre, from as int);
        if from < to {
            assert(pre[from as int] == bytes[from as int]);
        }
    }
    let (_, piece) = head.split_at(from);
    proof {
        assert(piece.spec_bytes() =~= bytes.subrange(from as int, to as int));
        assert(decode_utf8(encode_utf8(piece@)) == piece@);
    }
    piece.to_owned()
}

} // verus!
