//! Character boundaries in UTF-8 text, as byte offsets.

use vstd::prelude::*;
use vstd::string::*;
use vstd::utf8::*;

verus! {

/// Whether `i` is an offset at which a character of `bytes` starts, or the end of `bytes`.
pub open spec fn is_boundary(bytes: Seq<u8>, i: int) -> bool {
    0 <= i <= bytes.len() && (i == bytes.len() || !is_continuation_byte(bytes[i]))
}

/// The first boundary at or after `i`.
pub open spec fn boundary_from(bytes: Seq<u8>, i: int) -> int
    decreases bytes.len() - i,
{
    if i >= bytes.len() {
        bytes.len() as int
    } else if i < 0 || !is_continuation_byte(bytes[i]) {
        i
    } else {
        boundary_from(bytes, i + 1)
    }
}

/// The last boundary at or before `i`; offset 0 where there is none.
pub open spec fn boundary_upto(bytes: Seq<u8>, i: int) -> int
    decreases i,
{
    if i <= 0 {
        0
    } else if i >= bytes.len() {
        bytes.len() as int
    } else if !is_continuation_byte(bytes[i]) {
        i
    } else {
        boundary_upto(bytes, i - 1)
    }
}

/// The offset at which the character that starts at `p` ends.
pub open spec fn char_end(bytes: Seq<u8>, p: int) -> int {
    boundary_from(bytes, p + 1)
}

/// The offset at which the character that ends at `p` starts.
pub open spec fn char_start(bytes: Seq<u8>, p: int) -> int {
    boundary_upto(bytes, p - 1)
}

/// A forward scan ends at a boundary, and passes continuation bytes only.
pub proof fn lemma_boundary_from(bytes: Seq<u8>, i: int)
    requires
        0 <= i <= bytes.len(),
    ensures
        i <= boundary_from(bytes, i) <= bytes.len(),
        is_boundary(bytes, boundary_from(bytes, i)),
        forall|j: int|
            i <= j < boundary_from(bytes, i) ==> is_continuation_byte(#[trigger] bytes[j]),
    decreases bytes.len() - i,
{
    if i < bytes.len() && is_continuation_byte(bytes[i]) {
        lemma_boundary_from(bytes, i + 1);
    }
}

/// A backward scan ends at a boundary or at the start of the text, and passes continuation
/// bytes only.
pub proof fn lemma_boundary_upto(bytes: Seq<u8>, i: int)
    requires
        0 <= i <= bytes.len(),
    ensures
        0 <= boundary_upto(bytes, i) <= i,
        boundary_upto(bytes, i) > 0 ==> is_boundary(bytes, boundary_upto(bytes, i)),
        forall|j: int|
            boundary_upto(bytes, i) < j <= i && j < bytes.len() ==> is_continuation_byte(
                #[trigger] bytes[j],
            ),
    decreases i,
{
    if 0 < i < bytes.len() && is_continuation_byte(bytes[i]) {
        lemma_boundary_upto(bytes, i - 1);
    }
}

/// A forward scan stops at the first boundary that it meets.
pub proof fn lemma_boundary_from_unique(bytes: Seq<u8>, i: int, q: int)
    requires
        0 <= i <= q <= bytes.len(),
        is_boundary(bytes, q),
        forall|j: int| i <= j < q ==> is_continuation_byte(#[trigger] bytes[j]),
    ensures
        boundary_from(bytes, i) == q,
    decreases q - i,
{
    if i < q {
        lemma_boundary_from_unique(bytes, i + 1, q);
    }
}

/// A backward scan stops at the first boundary that it meets.
pub proof fn lemma_boundary_upto_unique(bytes: Seq<u8>, i: int, q: int)
    requires
        0 <= q <= i < bytes.len(),
        q == 0 || is_boundary(bytes, q),
        forall|j: int| q < j <= i ==> is_continuation_byte(#[trigger] bytes[j]),
    ensures
        boundary_upto(bytes, i) == q,
    decreases i - q,
{
    if q < i {
        lemma_boundary_upto_unique(bytes, i - 1, q);
    }
}

/// In the bytes of a string, the boundaries are the offsets at which the string may be split.
pub proof fn lemma_boundary_is_char_boundary(bytes: Seq<u8>, i: int)
    requires
        valid_utf8(bytes),
    ensures
        is_boundary(bytes, i) <==> is_char_boundary(bytes, i),
{
    if 0 <= i < bytes.len() {
        is_char_boundary_iff_not_is_continuation_byte(bytes, i);
    } else if i == bytes.len() {
        is_char_boundary_start_end_of_seq(bytes);
    } else if i < 0 {
        assert(!is_char_boundary(bytes, i));
    } else {
        assert(!is_char_boundary(bytes, i));
    }
}

/// Whether `b` continues a character that an earlier byte began.
pub fn is_continuation(b: u8) -> (r: bool)
    ensures
        r == is_continuation_byte(b),
{
    0x80 <= b && b <= 0xbf
}

/// Scans forward from `i` for a boundary.
pub fn next_boundary(bytes: &[u8], i: usize) -> (r: usize)
    ensures
        r == boundary_from(bytes@, i as int),
        i <= bytes@.len() ==> i <= r <= bytes@.len(),
{
    let n = bytes.len();
    let mut j = i;
    while j < n && is_continuation(bytes[j])
        invariant
            n == bytes@.len(),
            i <= j,
            boundary_from(bytes@, i as int) == boundary_from(bytes@, j as int),
        decreases n - j,
    {
        j += 1;
    }
    if j >= n {
        n
    } else {
        j
    }
}

/// Scans backward from `i` for a boundary.
pub fn prev_boundary(bytes: &[u8], i: usize) -> (r: usize)
    ensures
        r == boundary_upto(bytes@, i as int),
        r <= i || r == bytes@.len(),
{
    let n = bytes.len();
    if i >= n {
        return n;
    }
    let mut j = i;
    while j > 0 && is_continuation(bytes[j])
        invariant
            j <= i < n,
            n == bytes@.len(),
            boundary_upto(bytes@, i as int) == boundary_upto(bytes@, j as int),
        decreases j,
    {
        j -= 1;
    }
    j
}

/// The part of `s` between two boundaries.
pub fn substring<'a>(s: &'a str, from: usize, to: usize) -> (r: &'a str)
    requires
        from <= to,
        is_boundary(s.spec_bytes(), from as int),
        is_boundary(s.spec_bytes(), to as int),
    ensures
        r.spec_bytes() == s.spec_bytes().subrange(from as int, to as int),
{
    proof {
        encode_utf8_valid_utf8(s@);
        lemma_boundary_is_char_boundary(s.spec_bytes(), from as int);
    }
    let (_, tail) = s.split_at(from);
    proof {
        let b = s.spec_bytes();
        let t = tail.spec_bytes();
        assert(t == b.subrange(from as int, b.len() as int));
        assert(is_boundary(t, to - from)) by {
            if to < b.len() {
                assert(t[to - from] == b[to as int]);
            }
        }
        encode_utf8_valid_utf8(tail@);
        lemma_boundary_is_char_boundary(t, to - from);
    }
    let (head, _) = tail.split_at(to - from);
    proof {
        assert(head.spec_bytes() =~= s.spec_bytes().subrange(from as int, to as int));
    }
    head
}

} // verus!
