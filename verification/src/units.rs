//! The logical model of a text: a sequence of units.
//!
//! A unit is what a window may not split: one character, or one atomic run
//! that a replacement put into the text. Each unit is the sequence of its
//! UTF-8 bytes; the text is the units laid end to end.

use vstd::prelude::*;
use vstd::seq_lib::*;
use vstd::utf8::*;

verus! {

/// The byte offset at which unit `k` starts; for `k == units.len()`, the length of the text.
pub open spec fn start(units: Seq<Seq<u8>>, k: int) -> int {
    units.take(k).flatten().len() as int
}

/// Every unit holds at least one byte, and its first byte starts a character.
pub open spec fn units_ok(units: Seq<Seq<u8>>) -> bool {
    forall|k: int|
        0 <= k < units.len() ==> (#[trigger] units[k]).len() > 0 && !is_continuation_byte(
            units[k][0],
        )
}

/// A unit that holds one character: after its first byte come continuation bytes only.
pub open spec fn single_char(u: Seq<u8>) -> bool {
    forall|j: int| 1 <= j < u.len() ==> is_continuation_byte(#[trigger] u[j])
}

/// `n` copies of `units`, one after the other.
pub open spec fn repeated(units: Seq<Seq<u8>>, n: nat) -> Seq<Seq<u8>>
    decreases n,
{
    if n == 0 {
        Seq::empty()
    } else {
        repeated(units, (n - 1) as nat) + units
    }
}

/// The index of the unit that holds byte `offset`; the number of units where `offset` is at or
/// past the end of the text.
pub open spec fn unit_index(units: Seq<Seq<u8>>, offset: int) -> int
    decreases units.len(),
{
    if units.len() == 0 || offset < units[0].len() {
        0
    } else {
        1 + unit_index(units.drop_first(), offset - units[0].len())
    }
}

/// The first unit starts at offset 0.
pub proof fn lemma_start_zero(units: Seq<Seq<u8>>)
    ensures
        start(units, 0) == 0,
{
    assert(units.take(0) =~= Seq::<Seq<u8>>::empty());
}

/// Past the last unit the text ends.
pub proof fn lemma_start_end(units: Seq<Seq<u8>>)
    ensures
        start(units, units.len() as int) == units.flatten().len(),
{
    assert(units.take(units.len() as int) =~= units);
}

/// A unit ends where the next one starts.
pub proof fn lemma_start_succ(units: Seq<Seq<u8>>, k: int)
    requires
        0 <= k < units.len(),
    ensures
        start(units, k + 1) == start(units, k) + units[k].len(),
        units.take(k + 1).flatten() == units.take(k).flatten() + units[k],
{
    assert(units.take(k + 1) =~= units.take(k).push(units[k]));
    units.take(k).lemma_flatten_push(units[k]);
}

/// The text is what comes before unit `k`, followed by the rest.
pub proof fn lemma_flatten_split(units: Seq<Seq<u8>>, k: int)
    requires
        0 <= k <= units.len(),
    ensures
        units.flatten() == units.take(k).flatten() + units.skip(k).flatten(),
        units.skip(k).flatten().len() == units.flatten().len() - start(units, k),
{
    assert(units =~= units.take(k) + units.skip(k));
    lemma_flatten_concat(units.take(k), units.skip(k));
}

/// Later units start at later offsets.
pub proof fn lemma_start_monotonic(units: Seq<Seq<u8>>, i: int, j: int)
    requires
        0 <= i <= j <= units.len(),
    ensures
        start(units, i) <= start(units, j),
        start(units, j) <= units.flatten().len(),
        units_ok(units) ==> start(units, j) - start(units, i) >= j - i,
    decreases j - i,
{
    if i < j {
        lemma_start_monotonic(units, i, j - 1);
        lemma_start_succ(units, j - 1);
    }
    lemma_flatten_split(units, j);
}

/// The bytes of the units `i` to `j` are the text between their offsets.
pub proof fn lemma_subrange_flatten(units: Seq<Seq<u8>>, i: int, j: int)
    requires
        0 <= i <= j <= units.len(),
    ensures
        units.subrange(i, j).flatten() == units.flatten().subrange(
            start(units, i),
            start(units, j),
        ),
{
    lemma_start_monotonic(units, i, j);
    lemma_flatten_split(units, j);
    let head = units.take(j);
    assert(head.take(i) =~= units.take(i));
    assert(head.skip(i) =~= units.subrange(i, j));
    lemma_flatten_split(head, i);
    assert(units.subrange(i, j).flatten() =~= units.flatten().subrange(
        start(units, i),
        start(units, j),
    ));
}

/// Byte `j` of unit `k` is byte `start(units, k) + j` of the text.
pub proof fn lemma_unit_bytes(units: Seq<Seq<u8>>, k: int)
    requires
        0 <= k < units.len(),
    ensures
        0 <= start(units, k),
        start(units, k + 1) == start(units, k) + units[k].len(),
        start(units, k + 1) <= units.flatten().len(),
        units[k] == units.flatten().subrange(start(units, k), start(units, k + 1)),
        forall|j: int|
            0 <= j < units[k].len() ==> units.flatten()[start(units, k) + j]
                == #[trigger] units[k][j],
{
    lemma_start_succ(units, k);
    lemma_start_monotonic(units, k, k + 1);
    lemma_subrange_flatten(units, k, k + 1);
    assert(units.subrange(k, k + 1) =~= seq![units[k]]);
    seq![units[k]].lemma_flatten_singleton();
}

/// Offsets of units in a concatenation.
pub proof fn lemma_start_concat(a: Seq<Seq<u8>>, b: Seq<Seq<u8>>, k: int)
    requires
        0 <= k <= a.len() + b.len(),
    ensures
        (a + b).flatten() == a.flatten() + b.flatten(),
        k <= a.len() ==> start(a + b, k) == start(a, k),
        k >= a.len() ==> start(a + b, k) == a.flatten().len() + start(b, k - a.len()),
{
    lemma_flatten_concat(a, b);
    if k <= a.len() {
        assert((a + b).take(k) =~= a.take(k));
    } else {
        assert((a + b).take(k) =~= a + b.take(k - a.len()));
        lemma_flatten_concat(a, b.take(k - a.len()));
    }
    if k == a.len() {
        lemma_start_zero(b);
        lemma_start_end(a);
    }
}

/// Distinct units start at distinct offsets.
pub proof fn lemma_start_injective(units: Seq<Seq<u8>>, i: int, j: int)
    requires
        units_ok(units),
        0 <= i <= units.len(),
        0 <= j <= units.len(),
        start(units, i) == start(units, j),
    ensures
        i == j,
{
    if i < j {
        lemma_start_monotonic(units, i, j);
    } else if j < i {
        lemma_start_monotonic(units, j, i);
    }
}

/// The unit that holds an offset is the one that starts at or before it and ends after it.
pub proof fn lemma_unit_index(units: Seq<Seq<u8>>, offset: int, k: int)
    requires
        0 <= k <= units.len(),
        start(units, k) <= offset,
        k < units.len() ==> offset < start(units, k + 1),
    ensures
        unit_index(units, offset) == k,
    decreases units.len(),
{
    lemma_start_zero(units);
    if units.len() == 0 {
    } else if k == 0 {
        lemma_start_succ(units, 0);
    } else {
        let rest = units.drop_first();
        lemma_start_concat(seq![units[0]], rest, k);
        assert(seq![units[0]] + rest =~= units);
        seq![units[0]].lemma_flatten_singleton();
        if k < units.len() {
            lemma_start_concat(seq![units[0]], rest, k + 1);
        }
        lemma_start_monotonic(units, 1, k);
        lemma_start_succ(units, 0);
        lemma_unit_index(rest, offset - units[0].len(), k - 1);
    }
}

/// The unit that holds an offset within the text starts at or before it and ends after it.
pub proof fn lemma_unit_index_holds(units: Seq<Seq<u8>>, offset: int)
    requires
        0 <= offset < units.flatten().len(),
    ensures
        0 <= unit_index(units, offset) < units.len(),
        start(units, unit_index(units, offset)) <= offset < start(
            units,
            unit_index(units, offset) + 1,
        ),
    decreases units.len(),
{
    lemma_start_zero(units);
    if units.len() == 0 {
    } else if offset < units[0].len() {
        lemma_start_succ(units, 0);
    } else {
        let rest = units.drop_first();
        let k = unit_index(rest, offset - units[0].len());
        assert(seq![units[0]] + rest =~= units);
        seq![units[0]].lemma_flatten_singleton();
        lemma_flatten_concat(seq![units[0]], rest);
        lemma_unit_index_holds(rest, offset - units[0].len());
        lemma_start_concat(seq![units[0]], rest, k + 1);
        lemma_start_concat(seq![units[0]], rest, k + 2);
    }
}

/// The number of units and of bytes in `n` copies of some units.
pub proof fn lemma_repeated_len(units: Seq<Seq<u8>>, n: nat)
    ensures
        repeated(units, n).len() == n * units.len(),
        repeated(units, n).flatten().len() == n * units.flatten().len(),
    decreases n,
{
    if n > 0 {
        lemma_repeated_len(units, (n - 1) as nat);
        lemma_flatten_concat(repeated(units, (n - 1) as nat), units);
        assert(n * units.len() == (n - 1) * units.len() + units.len()) by (nonlinear_arith);
        assert(n * units.flatten().len() == (n - 1) * units.flatten().len()
            + units.flatten().len()) by (nonlinear_arith);
    } else {
        assert(0 * units.len() == 0) by (nonlinear_arith);
        assert(0 * units.flatten().len() == 0) by (nonlinear_arith);
    }
}

} // verus!
