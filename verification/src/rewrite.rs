//! What a replacement rule makes of a text.
//!
//! A rule replaces the occurrences of its pattern, found from left to right
//! and not overlapping, by its replacement. Each replacement that is not empty
//! becomes one unit. Where an occurrence starts or ends inside a unit, what is
//! left of that unit on either side stays one unit.

use crate::boundary::{is_boundary, lemma_boundary_is_char_boundary};
use crate::units::{lemma_unit_index_holds, start, unit_index};
use vstd::prelude::*;
use vstd::seq_lib::*;
use vstd::utf8::*;

verus! {

/// Whether `pat` stands in `bytes` at offset `j`.
pub open spec fn matches_at(bytes: Seq<u8>, pat: Seq<u8>, j: int) -> bool {
    0 <= j && j + pat.len() <= bytes.len() && bytes.subrange(j, j + pat.len()) == pat
}

/// The first offset from `from` and before `to` at which `pat` stands in `bytes`; `to` where
/// there is none.
pub open spec fn first_match(bytes: Seq<u8>, pat: Seq<u8>, from: int, to: int) -> int
    decreases to - from,
{
    if from >= to {
        to
    } else if matches_at(bytes, pat, from) {
        from
    } else {
        first_match(bytes, pat, from + 1, to)
    }
}

/// The offset at which the unit that holds byte `pos` ends.
pub open spec fn unit_end(units: Seq<Seq<u8>>, pos: int) -> int {
    start(units, unit_index(units, pos) + 1)
}

/// The bytes from `from` to `to` as one unit; no unit where there are none.
pub open spec fn piece(bytes: Seq<u8>, from: int, to: int) -> Seq<Seq<u8>> {
    if from < to {
        seq![bytes.subrange(from, to)]
    } else {
        Seq::empty()
    }
}

/// A replacement as one unit; no unit where it is empty.
pub open spec fn run(rep: Seq<u8>) -> Seq<Seq<u8>> {
    if rep.len() > 0 {
        seq![rep]
    } else {
        Seq::empty()
    }
}

/// The units that the rule makes of the text from byte `pos` on.
pub open spec fn rewrite_from(units: Seq<Seq<u8>>, pat: Seq<u8>, rep: Seq<u8>, pos: int) -> Seq<
    Seq<u8>,
>
    decreases units.flatten().len() - pos,
{
    let bytes = units.flatten();
    let end = unit_end(units, pos);
    let j = first_match(bytes, pat, pos, end);
    if !(0 <= pos < end <= bytes.len()) || pat.len() == 0 {
        Seq::empty()
    } else if j < end {
        proof {
            lemma_first_match(bytes, pat, pos, end);
        }
        piece(bytes, pos, j) + run(rep) + rewrite_from(units, pat, rep, j + pat.len())
    } else {
        seq![bytes.subrange(pos, end)] + rewrite_from(units, pat, rep, end)
    }
}

/// The mark of what is left of unit `k` between `from` and `to`: that of the unit.
pub open spec fn piece_mark(runs: Seq<bool>, k: int, from: int, to: int) -> Seq<bool> {
    if from < to {
        seq![runs[k]]
    } else {
        Seq::empty()
    }
}

/// The mark of a replacement: it is a run.
pub open spec fn run_mark(rep: Seq<u8>) -> Seq<bool> {
    if rep.len() > 0 {
        seq![true]
    } else {
        Seq::empty()
    }
}

/// The marks of the units that the rule makes of the text from byte `pos` on: a replacement
/// is a run, and what was a run, or is left of one, stays one.
pub open spec fn rewrite_runs_from(
    units: Seq<Seq<u8>>,
    runs: Seq<bool>,
    pat: Seq<u8>,
    rep: Seq<u8>,
    pos: int,
) -> Seq<bool>
    decreases units.flatten().len() - pos,
{
    let bytes = units.flatten();
    let k = unit_index(units, pos);
    let end = unit_end(units, pos);
    let j = first_match(bytes, pat, pos, end);
    if !(0 <= pos < end <= bytes.len()) || pat.len() == 0 {
        Seq::empty()
    } else if j < end {
        proof {
            lemma_first_match(bytes, pat, pos, end);
        }
        piece_mark(runs, k, pos, j) + run_mark(rep) + rewrite_runs_from(
            units,
            runs,
            pat,
            rep,
            j + pat.len(),
        )
    } else {
        seq![runs[k]] + rewrite_runs_from(units, runs, pat, rep, end)
    }
}

/// The marks of the units that the rule `pat` to `rep` makes of a text.
pub open spec fn rewrite_runs(
    units: Seq<Seq<u8>>,
    runs: Seq<bool>,
    pat: Seq<u8>,
    rep: Seq<u8>,
) -> Seq<bool> {
    rewrite_runs_from(units, runs, pat, rep, 0)
}

/// The marks of the units that the rules make of a text.
pub open spec fn apply_rules_runs(
    units: Seq<Seq<u8>>,
    runs: Seq<bool>,
    rules: Seq<(Seq<u8>, Seq<u8>)>,
) -> Seq<bool>
    decreases rules.len(),
{
    if rules.len() == 0 {
        runs
    } else {
        apply_rules_runs(
            rewrite(units, rules[0].0, rules[0].1),
            rewrite_runs(units, runs, rules[0].0, rules[0].1),
            rules.drop_first(),
        )
    }
}

/// The units that the rule `pat` to `rep` makes of a text.
pub open spec fn rewrite(units: Seq<Seq<u8>>, pat: Seq<u8>, rep: Seq<u8>) -> Seq<Seq<u8>> {
    rewrite_from(units, pat, rep, 0)
}

/// The units that the rules make of a text, each applied to what the one before it made.
pub open spec fn apply_rules(units: Seq<Seq<u8>>, rules: Seq<(Seq<u8>, Seq<u8>)>) -> Seq<Seq<u8>>
    decreases rules.len(),
{
    if rules.len() == 0 {
        units
    } else {
        apply_rules(rewrite(units, rules[0].0, rules[0].1), rules.drop_first())
    }
}

/// The text from byte `pos` on, with each occurrence of `pat` replaced by `rep`.
pub open spec fn replace_from(bytes: Seq<u8>, pat: Seq<u8>, rep: Seq<u8>, pos: int) -> Seq<u8>
    decreases bytes.len() - pos,
{
    if pos < 0 || pos >= bytes.len() || pat.len() == 0 {
        Seq::empty()
    } else if matches_at(bytes, pat, pos) {
        rep + replace_from(bytes, pat, rep, pos + pat.len())
    } else {
        seq![bytes[pos]] + replace_from(bytes, pat, rep, pos + 1)
    }
}

/// What a search for `pat` between `from` and `to` finds.
pub proof fn lemma_first_match(bytes: Seq<u8>, pat: Seq<u8>, from: int, to: int)
    requires
        from <= to,
    ensures
        from <= first_match(bytes, pat, from, to) <= to,
        first_match(bytes, pat, from, to) < to ==> matches_at(
            bytes,
            pat,
            first_match(bytes, pat, from, to),
        ),
        forall|i: int| from <= i < first_match(bytes, pat, from, to) ==> !matches_at(bytes, pat, i),
    decreases to - from,
{
    if from < to && !matches_at(bytes, pat, from) {
        lemma_first_match(bytes, pat, from + 1, to);
    }
}

/// A valid text that starts with another valid text has a boundary where that one ends.
proof fn lemma_prefix_boundary(s: Seq<u8>, p: Seq<u8>)
    requires
        valid_utf8(s),
        valid_utf8(p),
        p.len() <= s.len(),
        s.subrange(0, p.len() as int) == p,
    ensures
        is_char_boundary(s, p.len() as int),
    decreases p.len(),
{
    if p.len() > 0 {
        assert(s[0] == s.subrange(0, p.len() as int)[0]);
        let l = length_of_first_scalar(p);
        assert(l == length_of_first_scalar(s));
        assert(1 <= l <= p.len());
        let s_rest = pop_first_scalar(s);
        let p_rest = pop_first_scalar(p);
        assert(s_rest.subrange(0, p_rest.len() as int) =~= p_rest) by {
            assert forall|i: int| 0 <= i < p_rest.len() implies s_rest[i] == p_rest[i] by {
                assert(s[l + i] == s.subrange(0, p.len() as int)[l + i]);
            }
        }
        lemma_prefix_boundary(s_rest, p_rest);
    }
}

/// An occurrence of a valid pattern in a valid text starts and ends at boundaries of the text.
pub proof fn lemma_match_boundaries(bytes: Seq<u8>, pat: Seq<u8>, j: int)
    requires
        valid_utf8(bytes),
        valid_utf8(pat),
        pat.len() > 0,
        matches_at(bytes, pat, j),
    ensures
        is_boundary(bytes, j),
        is_boundary(bytes, j + pat.len()),
{
    lemma_boundary_is_char_boundary(pat, 0);
    assert(bytes[j] == bytes.subrange(j, j + pat.len())[0]);
    lemma_boundary_is_char_boundary(bytes, j);
    valid_utf8_split(bytes, j);
    let s = bytes.subrange(j, bytes.len() as int);
    assert(s.subrange(0, pat.len() as int) =~= pat);
    lemma_prefix_boundary(s, pat);
    lemma_boundary_is_char_boundary(s, pat.len() as int);
    if j + pat.len() < bytes.len() {
        assert(s[pat.len() as int] == bytes[j + pat.len()]);
    }
}

/// Where nothing is found between `pos` and `to`, the text between them stays as it is.
pub proof fn lemma_replace_copy(bytes: Seq<u8>, pat: Seq<u8>, rep: Seq<u8>, pos: int, to: int)
    requires
        0 <= pos <= to <= bytes.len(),
        pat.len() > 0,
        forall|i: int| pos <= i < to ==> !matches_at(bytes, pat, i),
    ensures
        replace_from(bytes, pat, rep, pos) == bytes.subrange(pos, to) + replace_from(
            bytes,
            pat,
            rep,
            to,
        ),
    decreases to - pos,
{
    if pos < to {
        lemma_replace_copy(bytes, pat, rep, pos + 1, to);
        assert(seq![bytes[pos]] + bytes.subrange(pos + 1, to) =~= bytes.subrange(pos, to));
        assert(replace_from(bytes, pat, rep, pos) =~= bytes.subrange(pos, to) + replace_from(
            bytes,
            pat,
            rep,
            to,
        ));
    } else {
        assert(bytes.subrange(pos, to) + replace_from(bytes, pat, rep, to) =~= replace_from(
            bytes,
            pat,
            rep,
            to,
        ));
    }
}

/// The text of what a rule makes is the text with each occurrence replaced: the units never
/// change what is replaced.
pub proof fn lemma_rewrite_text(units: Seq<Seq<u8>>, pat: Seq<u8>, rep: Seq<u8>, pos: int)
    requires
        0 <= pos <= units.flatten().len(),
        pat.len() > 0,
    ensures
        rewrite_from(units, pat, rep, pos).flatten() == replace_from(
            units.flatten(),
            pat,
            rep,
            pos,
        ),
    decreases units.flatten().len() - pos,
{
    let bytes = units.flatten();
    if pos < bytes.len() {
        lemma_unit_index_holds(units, pos);
        let end = unit_end(units, pos);
        let j = first_match(bytes, pat, pos, end);
        lemma_first_match(bytes, pat, pos, end);
        crate::units::lemma_start_monotonic(units, 0, unit_index(units, pos) + 1);
        if j < end {
            let rest = rewrite_from(units, pat, rep, j + pat.len());
            lemma_rewrite_text(units, pat, rep, j + pat.len());
            lemma_replace_copy(bytes, pat, rep, pos, j);
            lemma_flatten_concat(piece(bytes, pos, j) + run(rep), rest);
            lemma_flatten_concat(piece(bytes, pos, j), run(rep));
            if pos < j {
                piece(bytes, pos, j).lemma_flatten_singleton();
            } else {
                assert(bytes.subrange(pos, j) =~= Seq::<u8>::empty());
            }
            if rep.len() > 0 {
                run(rep).lemma_flatten_singleton();
            } else {
                assert(rep =~= Seq::<u8>::empty());
            }
            assert(rewrite_from(units, pat, rep, pos).flatten() =~= replace_from(
                bytes,
                pat,
                rep,
                pos,
            ));
        } else {
            let rest = rewrite_from(units, pat, rep, end);
            lemma_rewrite_text(units, pat, rep, end);
            lemma_replace_copy(bytes, pat, rep, pos, end);
            lemma_flatten_concat(seq![bytes.subrange(pos, end)], rest);
            seq![bytes.subrange(pos, end)].lemma_flatten_singleton();
        }
    }
}

} // verus!
