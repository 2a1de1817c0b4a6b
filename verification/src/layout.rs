//! How a text and its two boundary maps stand for a sequence of units.
//!
//! The text is kept as a string; an atomic run is recorded twice, by its
//! length: in the left map under the offset at which it starts, and in the
//! right map under the offset at which it ends. A cursor steps over a
//! recorded run by its length, and over anything else by one character.

use crate::boundary::{
    char_end, char_start, is_boundary, lemma_boundary_from, lemma_boundary_from_unique,
    lemma_boundary_is_char_boundary, lemma_boundary_upto_unique,
};
use crate::units::{
    lemma_start_concat, lemma_start_end, lemma_start_monotonic, lemma_start_zero,
    lemma_unit_bytes, single_char, start, units_ok,
};
use vstd::prelude::*;
use vstd::seq_lib::*;
use vstd::utf8::*;

verus! {

/// Every recorded run has at least one byte and lies within a text of `len` bytes.
pub open spec fn bounds_sane(len: int, left: Map<usize, usize>, right: Map<usize, usize>) -> bool {
    &&& forall|a: usize| #[trigger] left.contains_key(a) ==> 1 <= left[a] && a + left[a] <= len
    &&& forall|e: usize| #[trigger] right.contains_key(e) ==> 1 <= right[e] <= e <= len
}

/// Unit `k` is recorded in both maps by its length, or it is a single character.
pub open spec fn unit_recorded(
    units: Seq<Seq<u8>>,
    left: Map<usize, usize>,
    right: Map<usize, usize>,
    k: int,
) -> bool {
    let a = start(units, k) as usize;
    let e = start(units, k + 1) as usize;
    &&& left.contains_key(a) ==> left[a] == units[k].len()
    &&& right.contains_key(e) ==> right[e] == units[k].len()
    &&& !left.contains_key(a) || !right.contains_key(e) ==> single_char(units[k])
}

/// Whether a unit starts at the offset `a`.
pub open spec fn is_unit_start(units: Seq<Seq<u8>>, a: int) -> bool {
    exists|k: int| 0 <= k < units.len() && #[trigger] start(units, k) == a
}

/// Whether a unit ends at the offset `e`.
pub open spec fn is_unit_end(units: Seq<Seq<u8>>, e: int) -> bool {
    exists|k: int| 0 <= k < units.len() && #[trigger] start(units, k + 1) == e
}

/// Every run that is recorded is a unit: it starts where a unit starts, and it ends where a
/// unit ends.
pub open spec fn runs_are_units(
    units: Seq<Seq<u8>>,
    left: Map<usize, usize>,
    right: Map<usize, usize>,
) -> bool {
    &&& forall|a: usize| #[trigger] left.contains_key(a) ==> is_unit_start(units, a as int)
    &&& forall|e: usize| #[trigger] right.contains_key(e) ==> is_unit_end(units, e as int)
}

/// The text `bytes` with the maps `left` and `right` stands for `units`: the text is the
/// units laid end to end; each unit of more than one character is recorded in both maps, by
/// its length; and nothing is recorded but units.
pub open spec fn represents(
    bytes: Seq<u8>,
    left: Map<usize, usize>,
    right: Map<usize, usize>,
    units: Seq<Seq<u8>>,
) -> bool {
    &&& bytes == units.flatten()
    &&& bytes.len() <= usize::MAX
    &&& units_ok(units)
    &&& bounds_sane(bytes.len() as int, left, right)
    &&& runs_are_units(units, left, right)
    &&& forall|k: int| 0 <= k < units.len() ==> #[trigger] unit_recorded(units, left, right, k)
}

/// Unit `k` is recorded in the maps where `runs` marks it, and not where it does not.
pub open spec fn marked(
    units: Seq<Seq<u8>>,
    runs: Seq<bool>,
    left: Map<usize, usize>,
    right: Map<usize, usize>,
    k: int,
) -> bool {
    &&& left.contains_key(start(units, k) as usize) == runs[k]
    &&& right.contains_key(start(units, k + 1) as usize) == runs[k]
}

/// The units that the maps record are those that `runs` marks: what a replacement put into
/// the text, and what is left of it where a later replacement cut into it.
pub open spec fn marks(
    units: Seq<Seq<u8>>,
    runs: Seq<bool>,
    left: Map<usize, usize>,
    right: Map<usize, usize>,
) -> bool {
    &&& runs.len() == units.len()
    &&& forall|k: int| 0 <= k < units.len() ==> #[trigger] marked(units, runs, left, right, k)
}

/// No unit is marked.
pub open spec fn unmarked(n: nat) -> Seq<bool> {
    Seq::new(n, |k: int| false)
}

/// Where a cursor at `p` stands after one step forward.
pub open spec fn step_forward(bytes: Seq<u8>, left: Map<usize, usize>, p: int) -> int {
    if left.contains_key(p as usize) {
        p + left[p as usize]
    } else {
        char_end(bytes, p)
    }
}

/// Where a cursor at `p` stands after one step backward.
pub open spec fn step_backward(bytes: Seq<u8>, right: Map<usize, usize>, p: int) -> int {
    if right.contains_key(p as usize) {
        p - right[p as usize]
    } else {
        char_start(bytes, p)
    }
}

/// The units of a text into which no replacement was made: one for each character.
pub open spec fn char_units(bytes: Seq<u8>) -> Seq<Seq<u8>>
    decreases bytes.len(),
{
    if bytes.len() == 0 {
        Seq::empty()
    } else {
        let n = char_end(bytes, 0);
        if 0 < n <= bytes.len() {
            seq![bytes.take(n)] + char_units(bytes.skip(n))
        } else {
            seq![bytes]
        }
    }
}

/// Every unit starts at a boundary of the text.
pub proof fn lemma_start_is_boundary(units: Seq<Seq<u8>>, k: int)
    requires
        units_ok(units),
        0 <= k <= units.len(),
    ensures
        is_boundary(units.flatten(), start(units, k)),
        0 <= start(units, k) <= units.flatten().len(),
        k < units.len() ==> start(units, k) < units.flatten().len(),
{
    lemma_start_monotonic(units, 0, k);
    lemma_start_zero(units);
    if k < units.len() {
        lemma_unit_bytes(units, k);
        assert(units.flatten()[start(units, k) + 0] == units[k][0]);
    } else {
        lemma_start_end(units);
    }
}

/// One step forward from the start of a unit leads to the start of the next.
pub proof fn lemma_step_forward(
    bytes: Seq<u8>,
    left: Map<usize, usize>,
    right: Map<usize, usize>,
    units: Seq<Seq<u8>>,
    k: int,
)
    requires
        represents(bytes, left, right, units),
        0 <= k < units.len(),
    ensures
        step_forward(bytes, left, start(units, k)) == start(units, k + 1),
        start(units, k) < start(units, k + 1) <= bytes.len(),
{
    lemma_unit_bytes(units, k);
    lemma_start_is_boundary(units, k);
    lemma_start_is_boundary(units, k + 1);
    assert(unit_recorded(units, left, right, k));
    let a = start(units, k);
    let e = start(units, k + 1);
    if !left.contains_key(a as usize) {
        assert forall|j: int| a + 1 <= j < e implies is_continuation_byte(#[trigger] bytes[j]) by {
            assert(bytes[a + (j - a)] == units[k][j - a]);
        }
        lemma_boundary_from_unique(bytes, a + 1, e);
    }
}

/// One step backward from the end of a unit leads to its start.
pub proof fn lemma_step_backward(
    bytes: Seq<u8>,
    left: Map<usize, usize>,
    right: Map<usize, usize>,
    units: Seq<Seq<u8>>,
    k: int,
)
    requires
        represents(bytes, left, right, units),
        0 <= k < units.len(),
    ensures
        step_backward(bytes, right, start(units, k + 1)) == start(units, k),
        0 <= start(units, k) < start(units, k + 1) <= bytes.len(),
{
    lemma_unit_bytes(units, k);
    lemma_start_is_boundary(units, k);
    lemma_start_is_boundary(units, k + 1);
    assert(unit_recorded(units, left, right, k));
    let a = start(units, k);
    let e = start(units, k + 1);
    if !right.contains_key(e as usize) {
        assert forall|j: int| a < j <= e - 1 implies is_continuation_byte(#[trigger] bytes[j]) by {
            assert(bytes[a + (j - a)] == units[k][j - a]);
        }
        lemma_boundary_upto_unique(bytes, e - 1, a);
    }
}

/// The units of a text start and end where they did when one more unit comes behind them.
proof fn lemma_push_keeps_units(units: Seq<Seq<u8>>, piece: Seq<u8>)
    ensures
        forall|a: int| is_unit_start(units, a) ==> is_unit_start(units.push(piece), a),
        forall|e: int| is_unit_end(units, e) ==> is_unit_end(units.push(piece), e),
{
    let units2 = units.push(piece);
    assert(units + seq![piece] =~= units2);
    assert forall|a: int| is_unit_start(units, a) implies is_unit_start(units2, a) by {
        let k = choose|k: int| 0 <= k < units.len() && #[trigger] start(units, k) == a;
        lemma_start_concat(units, seq![piece], k);
        assert(start(units2, k) == a);
    }
    assert forall|e: int| is_unit_end(units, e) implies is_unit_end(units2, e) by {
        let k = choose|k: int| 0 <= k < units.len() && #[trigger] start(units, k + 1) == e;
        lemma_start_concat(units, seq![piece], k + 1);
        assert(start(units2, k + 1) == e);
    }
}

/// The runs that are recorded lie apart: one ends before the next one starts.
pub proof fn lemma_runs_apart(
    bytes: Seq<u8>,
    left: Map<usize, usize>,
    right: Map<usize, usize>,
    units: Seq<Seq<u8>>,
    a: usize,
    b: usize,
)
    requires
        represents(bytes, left, right, units),
        left.contains_key(a),
        left.contains_key(b),
        a < b,
    ensures
        a + left[a] <= b,
        is_boundary(bytes, a as int),
        is_boundary(bytes, a + left[a]),
        right.contains_key((a + left[a]) as usize) ==> right[(a + left[a]) as usize] == left[a],
{
    let i = choose|k: int| 0 <= k < units.len() && #[trigger] start(units, k) == a as int;
    let j = choose|k: int| 0 <= k < units.len() && #[trigger] start(units, k) == b as int;
    assert(unit_recorded(units, left, right, i));
    lemma_unit_bytes(units, i);
    lemma_start_is_boundary(units, i);
    lemma_start_is_boundary(units, i + 1);
    if j <= i {
        lemma_start_monotonic(units, j, i);
    } else {
        lemma_start_monotonic(units, i + 1, j);
    }
}

/// A text with one more unit at its end, recorded as a run.
pub proof fn lemma_push_recorded(
    bytes: Seq<u8>,
    left: Map<usize, usize>,
    right: Map<usize, usize>,
    units: Seq<Seq<u8>>,
    piece: Seq<u8>,
)
    requires
        represents(bytes, left, right, units),
        piece.len() > 0,
        !is_continuation_byte(piece[0]),
        bytes.len() + piece.len() <= usize::MAX,
    ensures
        represents(
            bytes + piece,
            left.insert(bytes.len() as usize, piece.len() as usize),
            right.insert((bytes.len() + piece.len()) as usize, piece.len() as usize),
            units.push(piece),
        ),
{
    let units2 = units.push(piece);
    let left2 = left.insert(bytes.len() as usize, piece.len() as usize);
    let right2 = right.insert((bytes.len() + piece.len()) as usize, piece.len() as usize);
    units.lemma_flatten_push(piece);
    lemma_push_keeps_units(units, piece);
    lemma_start_end(units);
    lemma_start_end(units2);
    assert(units2.take(units.len() as int) =~= units);
    assert(start(units2, units.len() as int) == bytes.len());
    assert(units2.take(units.len() as int + 1) =~= units2);
    assert(start(units2, units.len() as int + 1) == bytes.len() + piece.len());
    assert forall|a: usize| #[trigger] left2.contains_key(a) implies is_unit_start(
        units2,
        a as int,
    ) by {
        if a != bytes.len() {
            assert(left.contains_key(a));
        }
    }
    assert forall|e: usize| #[trigger] right2.contains_key(e) implies is_unit_end(
        units2,
        e as int,
    ) by {
        if e != bytes.len() + piece.len() {
            assert(right.contains_key(e));
        }
    }
    assert forall|k: int| 0 <= k < units2.len() implies #[trigger] unit_recorded(
        units2,
        left2,
        right2,
        k,
    ) by {
        lemma_start_concat(units, seq![piece], k);
        lemma_start_concat(units, seq![piece], k + 1);
        assert(units + seq![piece] =~= units2);
        if k < units.len() {
            assert(unit_recorded(units, left, right, k));
            lemma_unit_bytes(units, k);
            lemma_start_is_boundary(units, k);
        } else {
            lemma_start_end(units);
            lemma_start_end(units2);
            assert(units2.take(k + 1) =~= units2);
        }
    }
}

/// The marks of a text with one more unit at its end.
pub proof fn lemma_push_marks(
    bytes: Seq<u8>,
    left: Map<usize, usize>,
    right: Map<usize, usize>,
    units: Seq<Seq<u8>>,
    runs: Seq<bool>,
    piece: Seq<u8>,
    record: bool,
)
    requires
        represents(bytes, left, right, units),
        marks(units, runs, left, right),
        piece.len() > 0,
        bytes.len() + piece.len() <= usize::MAX,
    ensures
        record ==> marks(
            units.push(piece),
            runs.push(true),
            left.insert(bytes.len() as usize, piece.len() as usize),
            right.insert((bytes.len() + piece.len()) as usize, piece.len() as usize),
        ),
        !record ==> marks(units.push(piece), runs.push(false), left, right),
{
    let units2 = units.push(piece);
    let runs2 = runs.push(record);
    let left2 = if record {
        left.insert(bytes.len() as usize, piece.len() as usize)
    } else {
        left
    };
    let right2 = if record {
        right.insert((bytes.len() + piece.len()) as usize, piece.len() as usize)
    } else {
        right
    };
    assert(units + seq![piece] =~= units2);
    lemma_start_end(units);
    assert forall|k: int| 0 <= k < units2.len() implies #[trigger] marked(
        units2,
        runs2,
        left2,
        right2,
        k,
    ) by {
        lemma_start_concat(units, seq![piece], k);
        lemma_start_concat(units, seq![piece], k + 1);
        if k < units.len() {
            assert(marked(units, runs, left, right, k));
            lemma_unit_bytes(units, k);
            lemma_start_is_boundary(units, k);
        } else {
            lemma_start_zero(seq![piece]);
            lemma_start_end(seq![piece]);
            seq![piece].lemma_flatten_singleton();
            assert(start(units2, k) == bytes.len());
            assert(start(units2, k + 1) == bytes.len() + piece.len());
            assert(runs2[k] == record);
            assert(!left.contains_key(bytes.len() as usize));
            assert(!right.contains_key((bytes.len() + piece.len()) as usize));
        }
    }
}

/// A text with one more unit at its end, a single character that is not recorded.
pub proof fn lemma_push_plain(
    bytes: Seq<u8>,
    left: Map<usize, usize>,
    right: Map<usize, usize>,
    units: Seq<Seq<u8>>,
    piece: Seq<u8>,
)
    requires
        represents(bytes, left, right, units),
        piece.len() > 0,
        !is_continuation_byte(piece[0]),
        single_char(piece),
        bytes.len() + piece.len() <= usize::MAX,
    ensures
        represents(bytes + piece, left, right, units.push(piece)),
{
    let units2 = units.push(piece);
    units.lemma_flatten_push(piece);
    lemma_push_keeps_units(units, piece);
    assert forall|k: int| 0 <= k < units2.len() implies #[trigger] unit_recorded(
        units2,
        left,
        right,
        k,
    ) by {
        lemma_start_concat(units, seq![piece], k);
        lemma_start_concat(units, seq![piece], k + 1);
        assert(units + seq![piece] =~= units2);
        if k < units.len() {
            assert(unit_recorded(units, left, right, k));
        } else {
            lemma_start_end(units);
            lemma_start_end(units2);
            assert(units2.take(k + 1) =~= units2);
        }
    }
}

/// The first character of a text ends where the rest of its characters begin.
pub proof fn lemma_char_units(bytes: Seq<u8>)
    requires
        valid_utf8(bytes),
        bytes.len() <= usize::MAX,
    ensures
        represents(bytes, Map::empty(), Map::empty(), char_units(bytes)),
    decreases bytes.len(),
{
    let left = Map::<usize, usize>::empty();
    if bytes.len() == 0 {
        assert(char_units(bytes).flatten() =~= bytes);
    } else {
        let n = char_end(bytes, 0);
        lemma_boundary_from(bytes, 1);
        lemma_boundary_is_char_boundary(bytes, n);
        lemma_boundary_is_char_boundary(bytes, 0);
        valid_utf8_split(bytes, n);
        let head = bytes.take(n);
        let tail = bytes.skip(n);
        assert(tail == bytes.subrange(n, bytes.len() as int));
        lemma_char_units(tail);
        let rest = char_units(tail);
        let units = seq![head] + rest;
        assert(char_units(bytes) == units);
        lemma_flatten_concat(seq![head], rest);
        seq![head].lemma_flatten_singleton();
        assert(units.flatten() =~= bytes);
        assert(single_char(head));
        assert forall|k: int| 0 <= k < units.len() implies #[trigger] unit_recorded(
            units,
            left,
            left,
            k,
        ) by {
            if k > 0 {
                assert(unit_recorded(rest, left, left, k - 1));
                assert(units[k] == rest[k - 1]);
            }
        }
        assert(units_ok(units)) by {
            assert forall|k: int| 0 <= k < units.len() implies (#[trigger] units[k]).len() > 0
                && !is_continuation_byte(units[k][0]) by {
                if k > 0 {
                    assert(units[k] == rest[k - 1]);
                }
            }
        }
    }
}

/// The units of a text into which no replacement was made, laid end to end, are that text.
pub proof fn lemma_char_units_text(bytes: Seq<u8>)
    ensures
        char_units(bytes).flatten() == bytes,
    decreases bytes.len(),
{
    if bytes.len() == 0 {
        assert(char_units(bytes).flatten() =~= bytes);
    } else {
        let n = char_end(bytes, 0);
        lemma_boundary_from(bytes, 1);
        let head = bytes.take(n);
        let tail = bytes.skip(n);
        lemma_char_units_text(tail);
        lemma_flatten_concat(seq![head], char_units(tail));
        seq![head].lemma_flatten_singleton();
        assert(head + tail =~= bytes);
    }
}

/// The encoding of two texts, one after the other, is the two encodings, one after the other.
pub proof fn lemma_encode_concat(a: Seq<char>, b: Seq<char>)
    ensures
        encode_utf8(a + b) == encode_utf8(a) + encode_utf8(b),
    decreases a.len(),
{
    if a.len() == 0 {
        assert(a + b =~= b);
        assert(encode_utf8(a) + encode_utf8(b) =~= encode_utf8(b));
    } else {
        assert((a + b).drop_first() =~= a.drop_first() + b);
        lemma_encode_concat(a.drop_first(), b);
        assert(encode_utf8(a + b) =~= encode_utf8(a) + encode_utf8(b));
    }
}

/// The first byte of a text that is not empty starts a character.
pub proof fn lemma_first_byte(chars: Seq<char>)
    requires
        encode_utf8(chars).len() > 0,
    ensures
        !is_continuation_byte(encode_utf8(chars)[0]),
{
    encode_utf8_valid_utf8(chars);
    lemma_boundary_is_char_boundary(encode_utf8(chars), 0);
}

} // verus!
