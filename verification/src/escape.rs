//! Texts with atomic runs, and the replacement rules that make them.

use crate::boundary::{is_boundary, next_boundary, prev_boundary, substring};
use crate::error::ConstructionError;
use crate::layout::{
    char_units, lemma_char_units, lemma_encode_concat, lemma_first_byte, lemma_push_marks,
    lemma_push_plain, lemma_push_recorded, lemma_start_is_boundary, lemma_step_forward, marked,
    marks, represents, step_backward, step_forward, unit_recorded, unmarked,
};
use crate::model::{cycle_runs, cycle_units, has_empty_pattern, rule_bytes};
use crate::rewrite::{
    apply_rules, apply_rules_runs, first_match, lemma_first_match, lemma_match_boundaries,
    matches_at, piece, piece_mark, rewrite, rewrite_from, rewrite_runs, rewrite_runs_from, run,
    run_mark,
};
use crate::units::{
    lemma_start_end, lemma_start_injective, lemma_start_monotonic, lemma_start_zero,
    lemma_unit_bytes, lemma_unit_index, single_char, start, units_ok,
};
use std::collections::BTreeMap;
use vstd::prelude::*;
use vstd::string::*;
use vstd::utf8::*;

verus! {

/// A text together with the boundary maps of its atomic runs.
pub struct EscapedText {
    pub(crate) text: String,
    pub(crate) left_bounds: BTreeMap<usize, usize>,
    pub(crate) right_bounds: BTreeMap<usize, usize>,
    pub(crate) units: Ghost<Seq<Seq<u8>>>,
    pub(crate) runs: Ghost<Seq<bool>>,
}

impl View for EscapedText {
    type V = Seq<Seq<u8>>;

    /// The units of the text.
    closed spec fn view(&self) -> Seq<Seq<u8>> {
        self.units@
    }
}

/// One step forward of a cursor that stands at `p`, before the end of the text.
pub fn cursor_forward(bytes: &[u8], left: &BTreeMap<usize, usize>, p: usize) -> (r: usize)
    requires
        p < bytes@.len(),
        forall|a: usize| #[trigger] left@.contains_key(a) ==> a + left@[a] <= bytes@.len(),
    ensures
        r == step_forward(bytes@, left@, p as int),
{
    // the length of a slice is a number that the machine holds
    let _len = bytes.len();
    match left.get(&p) {
        Some(n) => p + *n,
        None => next_boundary(bytes, p + 1),
    }
}

/// One step backward of a cursor that stands at `p`, after the start of the text.
pub fn cursor_backward(bytes: &[u8], right: &BTreeMap<usize, usize>, p: usize) -> (r: usize)
    requires
        0 < p,
        forall|e: usize| #[trigger] right@.contains_key(e) ==> right@[e] <= e,
    ensures
        r == step_backward(bytes@, right@, p as int),
{
    match right.get(&p) {
        Some(n) => p - *n,
        None => prev_boundary(bytes, p - 1),
    }
}

/// Whether `pat` stands in `bytes` at offset `j`.
pub fn matches(bytes: &[u8], pat: &[u8], j: usize) -> (r: bool)
    ensures
        r == matches_at(bytes@, pat@, j as int),
{
    let n = bytes.len();
    let m = pat.len();
    if j > n || m > n - j {
        return false;
    }
    let mut i: usize = 0;
    while i < m
        invariant
            i <= m,
            j + m <= n,
            n == bytes@.len(),
            m == pat@.len(),
            forall|t: int| 0 <= t < i ==> bytes@[j + t] == pat@[t],
        decreases m - i,
    {
        if bytes[j + i] != pat[i] {
            proof {
                assert(bytes@.subrange(j as int, j + m)[i as int] == bytes@[j + i]);
            }
            return false;
        }
        i += 1;
    }
    proof {
        assert(bytes@.subrange(j as int, j + m) =~= pat@);
    }
    true
}

/// The first offset from `from` and before `to` at which `pat` stands in `bytes`; `to` where
/// there is none.
pub fn find_match(bytes: &[u8], pat: &[u8], from: usize, to: usize) -> (r: usize)
    requires
        from <= to,
    ensures
        r == first_match(bytes@, pat@, from as int, to as int),
        from <= r <= to,
{
    let mut j = from;
    while j < to
        invariant
            from <= j <= to,
            first_match(bytes@, pat@, from as int, to as int) == first_match(
                bytes@,
                pat@,
                j as int,
                to as int,
            ),
        decreases to - j,
    {
        if matches(bytes, pat, j) {
            return j;
        }
        j += 1;
    }
    to
}

impl EscapedText {
    #[verifier::type_invariant]
    pub(crate) open spec fn inv(&self) -> bool {
        &&& represents(
            encode_utf8(self.text@),
            self.left_bounds@,
            self.right_bounds@,
            self.units@,
        )
        &&& marks(self.units@, self.runs@, self.left_bounds@, self.right_bounds@)
    }

    /// Which units the maps record: for each unit, whether a replacement put it into the
    /// text.
    pub closed spec fn runs(&self) -> Seq<bool> {
        self.runs@
    }

    /// The empty text.
    pub fn new() -> (r: Self)
        ensures
            r@ == Seq::<Seq<u8>>::empty(),
            r.runs() == Seq::<bool>::empty(),
    {
        EscapedText {
            text: String::new(),
            left_bounds: BTreeMap::new(),
            right_bounds: BTreeMap::new(),
            units: Ghost(Seq::empty()),
            runs: Ghost(Seq::empty()),
        }
    }

    /// A text into which no replacement was made: each character is a unit.
    pub fn from_text(content: String) -> (r: Self)
        ensures
            r@ == char_units(encode_utf8(content@)),
            r.runs() == unmarked(r@.len()),
    {
        // the length of a string is a number that the machine holds
        let _len = content.as_str().as_bytes().len();
        proof {
            encode_utf8_valid_utf8(content@);
            lemma_char_units(encode_utf8(content@));
        }
        let ghost units = char_units(encode_utf8(content@));
        let ghost runs = unmarked(units.len());
        proof {
            assert forall|k: int| 0 <= k < units.len() implies #[trigger] marked(
                units,
                runs,
                Map::<usize, usize>::empty(),
                Map::<usize, usize>::empty(),
                k,
            ) by {}
        }
        EscapedText {
            text: content,
            left_bounds: BTreeMap::new(),
            right_bounds: BTreeMap::new(),
            units: Ghost(units),
            runs: Ghost(runs),
        }
    }

    /// The text as a string.
    pub fn as_str(&self) -> (r: &str)
        ensures
            r.spec_bytes() == self@.flatten(),
    {
        proof {
            use_type_invariant(self);
        }
        self.text.as_str()
    }

    /// This text with `piece` as one more unit at its end.
    pub(crate) fn push_unit(self, piece: &str, record: bool) -> (r: Self)
        requires
            piece.spec_bytes().len() > 0,
            record || single_char(piece.spec_bytes()),
        ensures
            r@ == self@.push(piece.spec_bytes()),
            r.runs() == self.runs().push(record),
    {
        proof {
            use_type_invariant(&self);
        }
        let EscapedText { mut text, mut left_bounds, mut right_bounds, units, runs } = self;
        let ghost old_text = text@;
        let from = text.as_str().as_bytes().len();
        text.append(piece);
        let to = text.as_str().as_bytes().len();
        proof {
            lemma_encode_concat(old_text, piece@);
            lemma_first_byte(piece@);
            lemma_push_marks(
                encode_utf8(old_text),
                left_bounds@,
                right_bounds@,
                units@,
                runs@,
                piece.spec_bytes(),
                record,
            );
            if record {
                lemma_push_recorded(
                    encode_utf8(old_text),
                    left_bounds@,
                    right_bounds@,
                    units@,
                    piece.spec_bytes(),
                );
            } else {
                lemma_push_plain(
                    encode_utf8(old_text),
                    left_bounds@,
                    right_bounds@,
                    units@,
                    piece.spec_bytes(),
                );
            }
        }
        if record {
            left_bounds.insert(from, to - from);
            right_bounds.insert(to, to - from);
        }
        EscapedText {
            text,
            left_bounds,
            right_bounds,
            units: Ghost(units@.push(piece.spec_bytes())),
            runs: Ghost(runs@.push(record)),
        }
    }

    /// What the rule `pat` to `rep` makes of this text. A rule with an empty pattern is
    /// refused.
    pub fn apply_rule(&self, pat: &str, rep: &str) -> (r: Result<EscapedText, ConstructionError>)
        ensures
            match r {
                Ok(t) => pat.spec_bytes().len() > 0 && t@ == rewrite(
                    self@,
                    pat.spec_bytes(),
                    rep.spec_bytes(),
                ) && t.runs() == rewrite_runs(
                    self@,
                    self.runs(),
                    pat.spec_bytes(),
                    rep.spec_bytes(),
                ) && units_ok(t@),
                Err(e) => pat.spec_bytes().len() == 0 && e == ConstructionError::EmptyPattern,
            },
    {
        if pat.as_bytes().len() == 0 {
            return Err(ConstructionError::EmptyPattern);
        }
        let r = self.rewritten(pat, rep);
        proof {
            use_type_invariant(&r);
        }
        Ok(r)
    }

    /// What the rule `pat` to `rep` makes of this text.
    fn rewritten(&self, pat: &str, rep: &str) -> (r: EscapedText)
        requires
            pat.spec_bytes().len() > 0,
        ensures
            r@ == rewrite(self@, pat.spec_bytes(), rep.spec_bytes()),
            r.runs() == rewrite_runs(self@, self.runs(), pat.spec_bytes(), rep.spec_bytes()),
    {
        proof {
            use_type_invariant(self);
            encode_utf8_valid_utf8(self.text@);
            encode_utf8_valid_utf8(pat@);
        }
        let ghost runs = self.runs@;
        let text = self.text.as_str();
        let bytes = text.as_bytes();
        let pb = pat.as_bytes();
        let n = bytes.len();
        let m = pb.len();
        let rep_len = rep.as_bytes().len();
        let ghost units = self.units@;
        let ghost p = pat.spec_bytes();
        let ghost q = rep.spec_bytes();
        let mut out = EscapedText::new();
        let mut pos: usize = 0;
        let mut end: usize = 0;
        let mut in_run = false;
        let ghost mut k: int = 0;
        proof {
            lemma_start_zero(units);
            lemma_start_end(units);
            lemma_start_is_boundary(units, 0);
        }
        if n > 0 {
            in_run = self.left_bounds.contains_key(&pos);
            end = cursor_forward(bytes, &self.left_bounds, pos);
            proof {
                lemma_step_forward(bytes@, self.left_bounds@, self.right_bounds@, units, 0);
            }
        }
        assert(out@ + rewrite_from(units, p, q, 0) =~= rewrite(units, p, q));
        assert(out.runs() + rewrite_runs_from(units, runs, p, q, 0) =~= rewrite_runs(
            units,
            runs,
            p,
            q,
        ));
        while pos < n
            invariant
                represents(bytes@, self.left_bounds@, self.right_bounds@, units),
                marks(units, runs, self.left_bounds@, self.right_bounds@),
                out.runs() + rewrite_runs_from(units, runs, p, q, pos as int) == rewrite_runs(
                    units,
                    runs,
                    p,
                    q,
                ),
                valid_utf8(bytes@),
                valid_utf8(p),
                bytes@ == text.spec_bytes(),
                pb@ == p,
                p.len() > 0,
                m == p.len(),
                n == bytes@.len(),
                q == rep.spec_bytes(),
                rep_len == q.len(),
                pos <= n,
                is_boundary(bytes@, pos as int),
                pos < n ==> 0 <= k < units.len() && start(units, k) <= pos < start(units, k + 1)
                    && end == start(units, k + 1) && in_run == self.left_bounds@.contains_key(
                    start(units, k) as usize,
                ),
                out@ + rewrite_from(units, p, q, pos as int) == rewrite(units, p, q),
            decreases n - pos,
        {
            proof {
                lemma_unit_index(units, pos as int, k);
                lemma_first_match(bytes@, p, pos as int, end as int);
                lemma_unit_bytes(units, k);
                lemma_start_is_boundary(units, k + 1);
            }
            let j = find_match(bytes, pb, pos, end);
            let ghost out0 = out@;
            let ghost rest0 = rewrite_from(units, p, q, pos as int);
            let ghost marks0 = out.runs();
            let ghost later0 = rewrite_runs_from(units, runs, p, q, pos as int);
            let ghost k0 = k;
            proof {
                assert(marked(units, runs, self.left_bounds@, self.right_bounds@, k));
                if j < end {
                    lemma_match_boundaries(bytes@, p, j as int);
                }
            }
            if j > pos {
                let frag = substring(text, pos, j);
                proof {
                    if !in_run {
                        // what is left of a single character is that character
                        let part = frag.spec_bytes();
                        let d = pos - start(units, k);
                        assert(unit_recorded(units, self.left_bounds@, self.right_bounds@, k));
                        assert forall|i: int| 1 <= i < part.len() implies is_continuation_byte(
                            #[trigger] part[i],
                        ) by {
                            assert(part[i] == bytes@[pos + i]);
                            assert(bytes@[start(units, k) + (d + i)] == units[k][d + i]);
                        }
                    }
                }
                out = out.push_unit(frag, in_run);
            }
            assert(out@ =~= out0 + piece(bytes@, pos as int, j as int));
            assert(out.runs() =~= marks0 + piece_mark(runs, k0, pos as int, j as int));
            if j < end {
                if rep_len > 0 {
                    out = out.push_unit(rep, true);
                }
                assert(out@ =~= out0 + piece(bytes@, pos as int, j as int) + run(q));
                assert(out.runs() =~= marks0 + piece_mark(runs, k0, pos as int, j as int)
                    + run_mark(q));
                let target = j + m;
                while end <= target && end < n
                    invariant
                        represents(bytes@, self.left_bounds@, self.right_bounds@, units),
                        marks(units, runs, self.left_bounds@, self.right_bounds@),
                        n == bytes@.len(),
                        0 <= k < units.len(),
                        end == start(units, k + 1),
                        start(units, k) <= target,
                        end <= n,
                        in_run == self.left_bounds@.contains_key(start(units, k) as usize),
                    decreases n - end,
                {
                    proof {
                        lemma_start_end(units);
                        if k + 1 >= units.len() {
                            assert(units.take(k + 1) =~= units);
                        }
                        lemma_step_forward(
                            bytes@,
                            self.left_bounds@,
                            self.right_bounds@,
                            units,
                            k + 1,
                        );
                    }
                    in_run = self.left_bounds.contains_key(&end);
                    end = cursor_forward(bytes, &self.left_bounds, end);
                    proof {
                        k = k + 1;
                    }
                }
                pos = target;
                assert(out@ + rewrite_from(units, p, q, pos as int) =~= out0 + rest0);
                assert(out.runs() + rewrite_runs_from(units, runs, p, q, pos as int) =~= marks0
                    + later0);
            } else {
                pos = end;
                if pos < n {
                    proof {
                        lemma_start_end(units);
                        if k + 1 >= units.len() {
                            assert(units.take(k + 1) =~= units);
                        }
                        lemma_step_forward(
                            bytes@,
                            self.left_bounds@,
                            self.right_bounds@,
                            units,
                            k + 1,
                        );
                    }
                    in_run = self.left_bounds.contains_key(&pos);
                    end = cursor_forward(bytes, &self.left_bounds, pos);
                    proof {
                        k = k + 1;
                    }
                }
                assert(out@ + rewrite_from(units, p, q, pos as int) =~= out0 + rest0);
                assert(out.runs() + rewrite_runs_from(units, runs, p, q, pos as int) =~= marks0
                    + later0);
            }
        }
        assert(out@ =~= out@ + rewrite_from(units, p, q, pos as int));
        assert(out.runs() =~= out.runs() + rewrite_runs_from(units, runs, p, q, pos as int));
        out
    }

    /// The number of units.
    pub fn count_units(&self) -> (r: usize)
        ensures
            r == self@.len(),
            units_ok(self@),
    {
        proof {
            use_type_invariant(self);
        }
        let bytes = self.text.as_str().as_bytes();
        let n = bytes.len();
        let ghost units = self.units@;
        let mut p: usize = 0;
        let mut c: usize = 0;
        proof {
            lemma_start_zero(units);
            lemma_start_end(units);
        }
        while p < n
            invariant
                represents(bytes@, self.left_bounds@, self.right_bounds@, units),
                n == bytes@.len(),
                0 <= c <= units.len(),
                p == start(units, c as int),
                p <= n,
            decreases n - p,
        {
            proof {
                lemma_start_end(units);
                lemma_start_monotonic(units, 0, c as int);
                lemma_step_forward(bytes@, self.left_bounds@, self.right_bounds@, units, c as int);
            }
            p = cursor_forward(bytes, &self.left_bounds, p);
            c += 1;
        }
        proof {
            lemma_start_injective(units, c as int, units.len() as int);
        }
        c
    }

    /// This text with the first `count` units of `src` at its end.
    pub(crate) fn append_units(self, src: &EscapedText, count: usize) -> (r: Self)
        requires
            count <= src@.len(),
        ensures
            r@ == self@ + src@.take(count as int),
            r.runs() == self.runs() + src.runs().take(count as int),
            units_ok(r@),
    {
        proof {
            use_type_invariant(src);
        }
        let text = src.text.as_str();
        let bytes = text.as_bytes();
        let ghost units = src.units@;
        let ghost runs = src.runs@;
        let ghost base = self@;
        let ghost base_runs = self.runs();
        let mut out = self;
        let mut p: usize = 0;
        let mut c: usize = 0;
        proof {
            lemma_start_zero(units);
            assert(base + units.take(0) =~= base);
            assert(base_runs + runs.take(0) =~= base_runs);
        }
        while c < count
            invariant
                represents(bytes@, src.left_bounds@, src.right_bounds@, units),
                marks(units, runs, src.left_bounds@, src.right_bounds@),
                out.runs() == base_runs + runs.take(c as int),
                bytes@ == text.spec_bytes(),
                c <= count <= units.len(),
                p == start(units, c as int),
                out@ == base + units.take(c as int),
            decreases count - c,
        {
            proof {
                lemma_step_forward(bytes@, src.left_bounds@, src.right_bounds@, units, c as int);
                lemma_start_is_boundary(units, c as int);
                lemma_start_is_boundary(units, c + 1);
                lemma_unit_bytes(units, c as int);
                assert(unit_recorded(units, src.left_bounds@, src.right_bounds@, c as int));
                assert(marked(units, runs, src.left_bounds@, src.right_bounds@, c as int));
            }
            let record = src.left_bounds.contains_key(&p);
            let e = cursor_forward(bytes, &src.left_bounds, p);
            let frag = substring(text, p, e);
            out = out.push_unit(frag, record);
            proof {
                assert(units.take(c + 1) =~= units.take(c as int).push(units[c as int]));
                assert(out@ =~= base + units.take(c + 1));
                assert(runs.take(c + 1) =~= runs.take(c as int).push(runs[c as int]));
                assert(out.runs() =~= base_runs + runs.take(c + 1));
            }
            p = e;
            c += 1;
        }
        proof {
            use_type_invariant(&out);
        }
        out
    }

    /// The text and its two boundary maps.
    pub fn parts(&self) -> (r: (&str, &BTreeMap<usize, usize>, &BTreeMap<usize, usize>))
        ensures
            represents(r.0.spec_bytes(), r.1@, r.2@, self@),
            marks(self@, self.runs(), r.1@, r.2@),
    {
        proof {
            use_type_invariant(self);
        }
        (self.text.as_str(), &self.left_bounds, &self.right_bounds)
    }
}

/// Applies the rules to the content, each to what the one before it made, and records what
/// they put into the text. A rule with an empty pattern is refused.
pub fn apply_replacements(content: String, rules: &[(&str, &str)]) -> (r: Result<
    EscapedText,
    ConstructionError,
>)
    ensures
        match r {
            Ok(t) => !has_empty_pattern(rule_bytes(rules@)) && t@ == cycle_units(
                content@,
                rule_bytes(rules@),
            ) && t.runs() == cycle_runs(content@, rule_bytes(rules@)) && units_ok(t@),
            Err(e) => has_empty_pattern(rule_bytes(rules@)) && e == ConstructionError::EmptyPattern,
        },
{
    let ghost views = rule_bytes(rules@);
    let ghost chars = content@;
    let mut text = EscapedText::from_text(content);
    let mut i: usize = 0;
    proof {
        assert(views.skip(0) =~= views);
    }
    while i < rules.len()
        invariant
            i <= rules@.len(),
            views == rule_bytes(rules@),
            forall|t: int| 0 <= t < i ==> (#[trigger] views[t]).0.len() > 0,
            apply_rules(text@, views.skip(i as int)) == cycle_units(chars, views),
            apply_rules_runs(text@, text.runs(), views.skip(i as int)) == cycle_runs(chars, views),
        decreases rules@.len() - i,
    {
        proof {
            assert(views.skip(i as int).drop_first() =~= views.skip(i + 1));
            assert(views.skip(i as int)[0] == views[i as int]);
        }
        match text.apply_rule(rules[i].0, rules[i].1) {
            Ok(t) => {
                text = t;
            },
            Err(e) => {
                proof {
                    assert(views[i as int].0.len() == 0);
                }
                return Err(e);
            },
        }
        i += 1;
    }
    proof {
        use_type_invariant(&text);
    }
    Ok(text)
}

} // verus!
