//! The running text: a text replicated so that every window is one slice of it.

use crate::boundary::{is_boundary, lemma_boundary_from, lemma_boundary_upto, substring};
use crate::error::ConstructionError;
use crate::escape::{apply_replacements, cursor_backward, cursor_forward, EscapedText};
use crate::layout::{
    bounds_sane, lemma_start_is_boundary, lemma_step_backward, lemma_step_forward, represents,
};
use crate::model::{
    construct, cycle_units, has_empty_pattern, lemma_backing_len, rule_bytes, CursorView,
    IterView, TextView,
};
use crate::units::{
    lemma_start_end, lemma_start_injective, lemma_start_monotonic, lemma_start_zero,
    lemma_subrange_flatten, lemma_unit_index, repeated, start, unit_index,
};
use std::collections::BTreeMap;
use std::ops::Range;
use vstd::prelude::*;
use vstd::string::*;
use vstd::utf8::*;

verus! {

/// A text that is shown through a window of a fixed width.
pub struct RunningText {
    text: EscapedText,
    w: usize,
    repeat: bool,
}

impl View for RunningText {
    type V = TextView;

    closed spec fn view(&self) -> TextView {
        TextView { units: self.text@, width: self.w as nat, repeat: self.repeat }
    }
}

impl RunningText {
    #[verifier::type_invariant]
    spec fn inv(&self) -> bool {
        self.repeat ==> 1 <= self.w <= self.text@.len()
    }

    /// Makes a running text of `content`, after the rules `escapes` have been applied to it in
    /// their order. The text runs where `repeat` asks for it or where it has more units than
    /// the window has.
    pub fn new(content: String, w: usize, repeat: bool, escapes: &[(&str, &str)]) -> (r: Result<
        RunningText,
        ConstructionError,
    >)
        ensures
            match r {
                Ok(rt) => construct(content@, w as nat, repeat, rule_bytes(escapes@)) == Ok::<
                    TextView,
                    ConstructionError,
                >(rt@) && rt@.wf(),
                Err(e) => construct(content@, w as nat, repeat, rule_bytes(escapes@)) == Err::<
                    TextView,
                    ConstructionError,
                >(e),
            },
    {
        if w == 0 {
            return Err(ConstructionError::ZeroWidth);
        }
        let ghost rules = rule_bytes(escapes@);
        let ghost chars = content@;
        let text = match apply_replacements(content, escapes) {
            Ok(text) => text,
            Err(e) => {
                return Err(e);
            },
        };
        let ghost cycle = text@;
        let count = text.count_units();
        if !repeat && count <= w {
            return Ok(RunningText { text, w, repeat: false });
        }
        if count == 0 {
            return Err(ConstructionError::EmptyContent);
        }
        let q = (w - 1) / count;
        let r = (w - 1) % count;
        let mut out = EscapedText::new();
        let mut c: usize = 0;
        while c <= q
            invariant
                w > 0,
                !has_empty_pattern(rules),
                c <= q + 1,
                q < w,
                count == cycle.len(),
                cycle == text@,
                out@ == repeated(cycle, c as nat),
            decreases q + 1 - c,
        {
            out = out.append_units(&text, count);
            proof {
                assert(cycle.take(count as int) =~= cycle);
            }
            c += 1;
        }
        out = out.append_units(&text, r);
        proof {
            lemma_backing_len(cycle, w as nat);
        }
        Ok(RunningText { text: out, w, repeat: true })
    }
}

/// A cursor that walks a text by its units, in either direction.
#[derive(Clone, Copy)]
pub struct RunIndex<'a> {
    s: &'a str,
    offset: usize,
    left_escape_bounds: &'a BTreeMap<usize, usize>,
    right_escape_bounds: &'a BTreeMap<usize, usize>,
    end: bool,
}

impl<'a> View for RunIndex<'a> {
    type V = CursorView;

    closed spec fn view(&self) -> CursorView {
        CursorView {
            bytes: self.s.spec_bytes(),
            left: self.left_escape_bounds@,
            right: self.right_escape_bounds@,
            offset: self.offset as int,
            end: self.end,
        }
    }
}

impl<'a> RunIndex<'a> {
    #[verifier::type_invariant]
    spec fn inv(&self) -> bool {
        self@.wf()
    }

    /// A cursor on the text `s` that stands at `offset`.
    pub fn new(
        s: &'a str,
        offset: usize,
        left_escape_bounds: &'a BTreeMap<usize, usize>,
        right_escape_bounds: &'a BTreeMap<usize, usize>,
    ) -> (r: Self)
        requires
            offset <= s.spec_bytes().len(),
            bounds_sane(s.spec_bytes().len() as int, left_escape_bounds@, right_escape_bounds@),
        ensures
            r@ == (CursorView {
                bytes: s.spec_bytes(),
                left: left_escape_bounds@,
                right: right_escape_bounds@,
                offset: offset as int,
                end: false,
            }),
    {
        // the length of a string is a number that the machine holds
        let _len = s.as_bytes().len();
        Self { s, offset, left_escape_bounds, right_escape_bounds, end: false }
    }

    /// The offset at which the cursor stands.
    pub fn peek(&self) -> (r: usize)
        ensures
            r == self@.offset,
    {
        self.offset
    }

    /// Steps forward, and hands out the offset at which the cursor stood.
    pub fn next(&mut self) -> (r: Option<usize>)
        ensures
            r == old(self)@.current(),
            final(self)@ == old(self)@.stepped_forward(),
            final(self)@.wf(),
    {
        proof {
            use_type_invariant(&*self);
        }
        if self.end {
            return None;
        }
        let i = self.offset;
        let bytes = self.s.as_bytes();
        if i < bytes.len() {
            proof {
                lemma_boundary_from(bytes@, i + 1);
            }
            self.offset = cursor_forward(bytes, self.left_escape_bounds, i);
        } else {
            self.end = true;
        }
        Some(i)
    }

    /// Steps backward, and hands out the offset at which the cursor stood.
    pub fn next_back(&mut self) -> (r: Option<usize>)
        ensures
            r == old(self)@.current(),
            final(self)@ == old(self)@.stepped_backward(),
            final(self)@.wf(),
    {
        proof {
            use_type_invariant(&*self);
        }
        if self.end {
            return None;
        }
        let i = self.offset;
        let bytes = self.s.as_bytes();
        if i > 0 {
            proof {
                lemma_boundary_upto(bytes@, i - 1);
            }
            self.offset = cursor_backward(bytes, self.right_escape_bounds, i);
        } else {
            self.end = true;
        }
        Some(i)
    }
}

/// The cursor on a text that stands at `offset` and can go on.
pub open spec fn cursor_at(
    bytes: Seq<u8>,
    left: Map<usize, usize>,
    right: Map<usize, usize>,
    offset: int,
) -> CursorView {
    CursorView { bytes, left, right, offset, end: false }
}

/// The offset `n` units after the start of unit `k`, where the text has that many units.
fn probe_forward<'a>(
    s: &'a str,
    left: &'a BTreeMap<usize, usize>,
    right: &'a BTreeMap<usize, usize>,
    from: usize,
    n: usize,
    Ghost(units): Ghost<Seq<Seq<u8>>>,
    Ghost(k): Ghost<int>,
) -> (r: Option<usize>)
    requires
        represents(s.spec_bytes(), left@, right@, units),
        0 <= k <= units.len(),
        from == start(units, k),
    ensures
        k + n <= units.len() ==> r is Some && r.unwrap() == start(units, k + n),
        k + n > units.len() ==> r is None,
{
    proof {
        lemma_start_is_boundary(units, k);
    }
    let mut c = RunIndex::new(s, from, left, right);
    let mut i: usize = 0;
    while i < n
        invariant
            represents(s.spec_bytes(), left@, right@, units),
            i <= n,
            0 <= k,
            k + i <= units.len(),
            c@ == cursor_at(s.spec_bytes(), left@, right@, start(units, k + i)),
        decreases n - i,
    {
        proof {
            lemma_start_end(units);
            lemma_start_is_boundary(units, k + i);
            if k + i < units.len() {
                lemma_step_forward(s.spec_bytes(), left@, right@, units, k + i);
            }
        }
        c.next();
        if c.end {
            return None;
        }
        i += 1;
    }
    proof {
        lemma_start_is_boundary(units, k + n);
    }
    Some(c.peek())
}

/// The offset `n` units before the start of unit `k`, where that many units come before it.
fn probe_backward<'a>(
    s: &'a str,
    left: &'a BTreeMap<usize, usize>,
    right: &'a BTreeMap<usize, usize>,
    from: usize,
    n: usize,
    Ghost(units): Ghost<Seq<Seq<u8>>>,
    Ghost(k): Ghost<int>,
) -> (r: Option<usize>)
    requires
        represents(s.spec_bytes(), left@, right@, units),
        0 <= k <= units.len(),
        from == start(units, k),
    ensures
        n <= k ==> r is Some && r.unwrap() == start(units, k - n),
        n > k ==> r is None,
{
    proof {
        lemma_start_is_boundary(units, k);
    }
    let mut c = RunIndex::new(s, from, left, right);
    let mut i: usize = 0;
    while i < n
        invariant
            represents(s.spec_bytes(), left@, right@, units),
            i <= n,
            i <= k <= units.len(),
            c@ == cursor_at(s.spec_bytes(), left@, right@, start(units, k - i)),
        decreases n - i,
    {
        proof {
            lemma_start_zero(units);
            lemma_start_is_boundary(units, k - i);
            if k - i > 0 {
                lemma_step_backward(s.spec_bytes(), left@, right@, units, k - i - 1);
            }
        }
        c.next_back();
        if c.end {
            return None;
        }
        i += 1;
    }
    proof {
        lemma_start_is_boundary(units, k - n);
    }
    Some(c.peek())
}

/// The offset at which the unit that holds byte `idx` starts.
fn floor_unit(
    s: &str,
    left: &BTreeMap<usize, usize>,
    right: &BTreeMap<usize, usize>,
    idx: usize,
    Ghost(units): Ghost<Seq<Seq<u8>>>,
) -> (r: usize)
    requires
        represents(s.spec_bytes(), left@, right@, units),
    ensures
        0 <= unit_index(units, idx as int) <= units.len(),
        r == start(units, unit_index(units, idx as int)),
{
    let bytes = s.as_bytes();
    let n = bytes.len();
    let mut p: usize = 0;
    let ghost mut k: int = 0;
    proof {
        lemma_start_zero(units);
        lemma_start_end(units);
    }
    loop
        invariant
            represents(bytes@, left@, right@, units),
            bytes@ == s.spec_bytes(),
            n == bytes@.len(),
            n == start(units, units.len() as int),
            0 <= k <= units.len(),
            p == start(units, k),
            p <= idx,
        ensures
            0 <= k <= units.len(),
            p == start(units, k),
            unit_index(units, idx as int) == k,
        decreases n - p,
    {
        if p >= n {
            proof {
                lemma_start_is_boundary(units, k);
                lemma_unit_index(units, idx as int, k);
            }
            break ;
        }
        proof {
            lemma_start_is_boundary(units, k);
            lemma_step_forward(bytes@, left@, right@, units, k);
        }
        let e = cursor_forward(bytes, left, p);
        if e > idx {
            proof {
                lemma_unit_index(units, idx as int, k);
            }
            break ;
        }
        p = e;
        proof {
            k = k + 1;
        }
    }
    p
}

/// An iterator over the windows of a running text, in either direction.
pub struct RunIter<'a> {
    s: &'a str,
    init_left_off: usize,
    init_right_off: usize,
    left_escape_bounds: &'a BTreeMap<usize, usize>,
    right_escape_bounds: &'a BTreeMap<usize, usize>,
    left_off: RunIndex<'a>,
    right_off: RunIndex<'a>,
    repeat: bool,
    model: Ghost<IterView>,
}

impl<'a> View for RunIter<'a> {
    type V = IterView;

    closed spec fn view(&self) -> IterView {
        self.model@
    }
}

/// The offset at which the last window of a text starts; 0 where the text does not run.
pub open spec fn left_anchor(text: TextView) -> int {
    if text.repeat {
        start(text.units, text.cycle() - 1)
    } else {
        0
    }
}

/// The offset at which the first window of a text ends; the end of the text where the text
/// does not run.
pub open spec fn right_anchor(text: TextView) -> int {
    if text.repeat {
        start(text.units, text.width as int)
    } else {
        text.bytes().len() as int
    }
}

impl RunningText {
    /// The offsets at which the last window starts and the first window ends.
    fn anchors(&self) -> (r: (usize, usize))
        ensures
            r.0 == left_anchor(self@),
            r.1 == right_anchor(self@),
            self@.wf(),
    {
        proof {
            use_type_invariant(self);
        }
        let (s, left, right) = self.text.parts();
        let ghost units = self.text@;
        let len = s.as_bytes().len();
        proof {
            lemma_start_end(units);
            lemma_start_zero(units);
        }
        if !self.repeat {
            return (0, len);
        }
        let last = probe_backward(
            s,
            left,
            right,
            len,
            self.w,
            Ghost(units),
            Ghost(units.len() as int),
        );
        let first = probe_forward(s, left, right, 0, self.w, Ghost(units), Ghost(0));
        (last.unwrap(), first.unwrap())
    }

    /// The iterator over this text that stands at unit `pos`.
    fn iter_from(
        &self,
        Ghost(pos): Ghost<nat>,
        anchors: (usize, usize),
        left_off: usize,
        right_off: usize,
    ) -> (r: RunIter<'_>)
        requires
            (IterView { text: self@, pos }).wf(),
            anchors.0 == left_anchor(self@),
            anchors.1 == right_anchor(self@),
            left_off == (IterView { text: self@, pos }).range().0,
            right_off == (IterView { text: self@, pos }).range().1,
        ensures
            r@ == (IterView { text: self@, pos }),
            r@.wf(),
    {
        proof {
            use_type_invariant(self);
        }
        let (s, left, right) = self.text.parts();
        let ghost units = self.text@;
        proof {
            lemma_start_end(units);
            lemma_start_zero(units);
            if self.repeat {
                lemma_start_monotonic(units, pos as int, pos + self.w);
                lemma_start_monotonic(units, 0, pos as int);
            }
        }
        RunIter {
            s,
            init_left_off: anchors.0,
            init_right_off: anchors.1,
            left_escape_bounds: left,
            right_escape_bounds: right,
            left_off: RunIndex::new(s, left_off, left, right),
            right_off: RunIndex::new(s, right_off, left, right),
            repeat: self.repeat,
            model: Ghost(IterView { text: self@, pos }),
        }
    }

    /// The backing text.
    pub fn as_str(&self) -> (r: &str)
        ensures
            r.spec_bytes() == self@.bytes(),
            r@ == self@.chars(),
    {
        let r = self.text.as_str();
        proof {
            encode_utf8_decode_utf8(r@);
        }
        r
    }

    /// An iterator that stands at the start of the text.
    pub fn iter(&self) -> (r: RunIter<'_>)
        ensures
            r@ == self@.iter(),
            r@.wf(),
    {
        proof {
            use_type_invariant(self);
            lemma_start_zero(self.text@);
        }
        let anchors = self.anchors();
        self.iter_from(Ghost(0), anchors, 0, anchors.1)
    }

    /// An iterator that stands at the unit that holds byte `idx` of the backing text; at the
    /// start of the text where no window starts at that unit.
    pub fn iter_at(&self, idx: usize) -> (r: RunIter<'_>)
        ensures
            r@ == self@.iter_at(idx as int),
            r@.wf(),
    {
        proof {
            use_type_invariant(self);
            lemma_start_zero(self.text@);
        }
        let anchors = self.anchors();
        if !self.repeat {
            return self.iter_from(Ghost(0), anchors, 0, anchors.1);
        }
        let (s, left, right) = self.text.parts();
        let ghost units = self.text@;
        let off = floor_unit(s, left, right, idx, Ghost(units));
        let ghost k = unit_index(units, idx as int);
        match probe_forward(s, left, right, off, self.w, Ghost(units), Ghost(k)) {
            Some(off_right) => self.iter_from(Ghost(k as nat), anchors, off, off_right),
            None => self.iter_from(Ghost(0), anchors, 0, anchors.1),
        }
    }
}

impl<'a> RunIter<'a> {
    #[verifier::type_invariant]
    spec fn inv(&self) -> bool {
        let v = self.model@;
        let units = v.text.units;
        let bytes = self.s.spec_bytes();
        &&& v.wf()
        &&& self.repeat == v.text.repeat
        &&& represents(bytes, self.left_escape_bounds@, self.right_escape_bounds@, units)
        &&& self.left_off@ == cursor_at(
            bytes,
            self.left_escape_bounds@,
            self.right_escape_bounds@,
            v.range().0,
        )
        &&& self.right_off@ == cursor_at(
            bytes,
            self.left_escape_bounds@,
            self.right_escape_bounds@,
            v.range().1,
        )
        &&& self.init_left_off == left_anchor(v.text)
        &&& self.init_right_off == right_anchor(v.text)
    }

    /// The byte offsets of the window that the next step hands out.
    pub fn range(&self) -> (r: Range<usize>)
        ensures
            r.start == self@.range().0,
            r.end == self@.range().1,
    {
        proof {
            use_type_invariant(self);
        }
        self.left_off.peek()..self.right_off.peek()
    }

    /// The window that the next step hands out.
    pub fn get(&self) -> (r: &'a str)
        ensures
            r.spec_bytes() == self@.window(),
    {
        proof {
            use_type_invariant(self);
            self.lemma_window();
        }
        substring(self.s, self.left_off.peek(), self.right_off.peek())
    }

    /// The window of an iterator is the text between the offsets of its range.
    proof fn lemma_window(&self)
        requires
            self.inv(),
        ensures
            0 <= self@.range().0 <= self@.range().1 <= self.s.spec_bytes().len(),
            is_boundary(self.s.spec_bytes(), self@.range().0),
            is_boundary(self.s.spec_bytes(), self@.range().1),
            self@.window() == self.s.spec_bytes().subrange(self@.range().0, self@.range().1),
    {
        let v = self.model@;
        let units = v.text.units;
        let bytes = self.s.spec_bytes();
        if v.text.repeat {
            lemma_start_is_boundary(units, v.pos as int);
            lemma_start_is_boundary(units, (v.pos + v.text.width) as int);
            lemma_start_monotonic(units, v.pos as int, (v.pos + v.text.width) as int);
            lemma_subrange_flatten(units, v.pos as int, (v.pos + v.text.width) as int);
        } else {
            lemma_start_is_boundary(units, 0);
            lemma_start_is_boundary(units, units.len() as int);
            lemma_start_zero(units);
            lemma_start_end(units);
            assert(bytes.subrange(0, bytes.len() as int) =~= bytes);
        }
    }

    /// Hands out the window at which the iterator stands, and steps forward by one unit; from
    /// the last window of the text it steps to the first. A text that does not run is handed
    /// out whole, and the iterator stays as it is.
    pub fn next(&mut self) -> (r: Option<&'a str>)
        ensures
            r is Some,
            r.unwrap().spec_bytes() == old(self)@.window(),
            final(self)@ == old(self)@.advanced(),
            final(self)@.wf(),
            !old(self)@.text.repeat ==> *final(self) == *old(self),
    {
        proof {
            use_type_invariant(&*self);
            self.lemma_window();
        }
        if !self.repeat {
            return Some(self.s);
        }
        let ghost v = self.model@;
        let ghost units = v.text.units;
        let ghost bytes = self.s.spec_bytes();
        let ghost last: int = (v.pos + v.text.width) as int;
        let mut left = self.left_off;
        let mut right = self.right_off;
        proof {
            lemma_start_end(units);
            lemma_start_zero(units);
            if start(units, last) == start(units, units.len() as int) {
                lemma_start_injective(units, last, units.len() as int);
            }
            lemma_step_forward(bytes, left@.left, left@.right, units, v.pos as int);
            if last < units.len() {
                lemma_step_forward(bytes, left@.left, left@.right, units, last);
            }
            lemma_start_monotonic(units, 0, v.text.width as int);
        }
        let l = left.next().unwrap();
        let r = right.next().unwrap();
        if right.end {
            left = RunIndex::new(self.s, 0, self.left_escape_bounds, self.right_escape_bounds);
            right =
            RunIndex::new(
                self.s,
                self.init_right_off,
                self.left_escape_bounds,
                self.right_escape_bounds,
            );
        }
        let win = substring(self.s, l, r);
        *self =
        RunIter {
            s: self.s,
            init_left_off: self.init_left_off,
            init_right_off: self.init_right_off,
            left_escape_bounds: self.left_escape_bounds,
            right_escape_bounds: self.right_escape_bounds,
            left_off: left,
            right_off: right,
            repeat: true,
            model: Ghost(v.advanced()),
        };
        Some(win)
    }

    /// Hands out the window at which the iterator stands, and steps backward by one unit; from
    /// the first window of the text it steps to the last. A text that does not run is handed
    /// out whole, and the iterator stays as it is.
    pub fn next_back(&mut self) -> (r: Option<&'a str>)
        ensures
            r is Some,
            r.unwrap().spec_bytes() == old(self)@.window(),
            final(self)@ == old(self)@.retreated(),
            final(self)@.wf(),
            !old(self)@.text.repeat ==> *final(self) == *old(self),
    {
        proof {
            use_type_invariant(&*self);
            self.lemma_window();
        }
        if !self.repeat {
            return Some(self.s);
        }
        let ghost v = self.model@;
        let ghost units = v.text.units;
        let ghost bytes = self.s.spec_bytes();
        let ghost last: int = (v.pos + v.text.width) as int;
        let mut left = self.left_off;
        let mut right = self.right_off;
        proof {
            lemma_start_end(units);
            lemma_start_zero(units);
            if start(units, v.pos as int) == 0 {
                lemma_start_injective(units, v.pos as int, 0);
            }
            lemma_step_backward(bytes, left@.left, left@.right, units, last - 1);
            if v.pos > 0 {
                lemma_step_backward(bytes, left@.left, left@.right, units, v.pos - 1);
            }
            lemma_start_monotonic(units, 0, v.text.cycle() - 1);
            lemma_start_monotonic(units, v.text.cycle() - 1, units.len() as int);
        }
        let l = left.next_back().unwrap();
        let r = right.next_back().unwrap();
        if left.end {
            left =
            RunIndex::new(
                self.s,
                self.init_left_off,
                self.left_escape_bounds,
                self.right_escape_bounds,
            );
            right =
            RunIndex::new(
                self.s,
                self.s.as_bytes().len(),
                self.left_escape_bounds,
                self.right_escape_bounds,
            );
        }
        let win = substring(self.s, l, r);
        *self =
        RunIter {
            s: self.s,
            init_left_off: self.init_left_off,
            init_right_off: self.init_right_off,
            left_escape_bounds: self.left_escape_bounds,
            right_escape_bounds: self.right_escape_bounds,
            left_off: left,
            right_off: right,
            repeat: true,
            model: Ghost(v.retreated()),
        };
        Some(win)
    }
}

} // verus!
