//! What a running text and an iterator over it are, as mathematical values.

use crate::error::ConstructionError;
use crate::layout::{bounds_sane, char_units, step_backward, step_forward, unmarked};
use crate::rewrite::{apply_rules, apply_rules_runs};
use crate::units::{lemma_repeated_len, repeated, start, unit_index, units_ok};
use vstd::prelude::*;
use vstd::string::*;
use vstd::utf8::*;

verus! {

/// A running text: its units, the width of a window in units, and whether it runs.
pub struct TextView {
    /// The units of the backing text.
    pub units: Seq<Seq<u8>>,
    /// The number of units in a window.
    pub width: nat,
    /// Whether the text runs; a text that does not run is shown whole.
    pub repeat: bool,
}

/// An iterator over a running text: the text, and the unit at which the next window starts.
pub struct IterView {
    pub text: TextView,
    pub pos: nat,
}

/// A cursor: the text and the maps that it walks by, where it stands, and whether it has
/// found that it cannot go on.
pub struct CursorView {
    pub bytes: Seq<u8>,
    pub left: Map<usize, usize>,
    pub right: Map<usize, usize>,
    pub offset: int,
    pub end: bool,
}

impl CursorView {
    /// The cursor stands within the text, and the recorded runs lie within it.
    pub open spec fn wf(self) -> bool {
        &&& bounds_sane(self.bytes.len() as int, self.left, self.right)
        &&& 0 <= self.offset <= self.bytes.len() <= usize::MAX
    }

    /// What a step hands out: the offset before the step, unless the cursor cannot go on.
    pub open spec fn current(self) -> Option<usize> {
        if self.end {
            None
        } else {
            Some(self.offset as usize)
        }
    }

    /// The cursor after a step forward: at the end of the text it finds that it cannot go on.
    pub open spec fn stepped_forward(self) -> CursorView {
        if self.end {
            self
        } else if self.offset < self.bytes.len() {
            CursorView { offset: step_forward(self.bytes, self.left, self.offset), ..self }
        } else {
            CursorView { end: true, ..self }
        }
    }

    /// The cursor after a step backward: at the start of the text it finds that it cannot go
    /// on.
    pub open spec fn stepped_backward(self) -> CursorView {
        if self.end {
            self
        } else if self.offset > 0 {
            CursorView { offset: step_backward(self.bytes, self.right, self.offset), ..self }
        } else {
            CursorView { end: true, ..self }
        }
    }
}

/// The rules as pairs of byte sequences.
pub open spec fn rule_bytes(rules: Seq<(&str, &str)>) -> Seq<(Seq<u8>, Seq<u8>)> {
    rules.map_values(|r: (&str, &str)| (r.0.spec_bytes(), r.1.spec_bytes()))
}

/// Whether the pattern of some rule is empty.
pub open spec fn has_empty_pattern(rules: Seq<(Seq<u8>, Seq<u8>)>) -> bool {
    exists|i: int| 0 <= i < rules.len() && (#[trigger] rules[i]).0.len() == 0
}

/// The units of one cycle: what the rules make of the content.
pub open spec fn cycle_units(content: Seq<char>, rules: Seq<(Seq<u8>, Seq<u8>)>) -> Seq<Seq<u8>> {
    apply_rules(char_units(encode_utf8(content)), rules)
}

/// The marks of the units of one cycle: which of them the rules put into the text.
pub open spec fn cycle_runs(content: Seq<char>, rules: Seq<(Seq<u8>, Seq<u8>)>) -> Seq<bool> {
    apply_rules_runs(
        char_units(encode_utf8(content)),
        unmarked(char_units(encode_utf8(content)).len()),
        rules,
    )
}

/// The backing text of a text that runs: as many whole cycles, and as much of one more, that a
/// window of `width` units that starts anywhere in the first cycle lies within it.
pub open spec fn backing(cycle: Seq<Seq<u8>>, width: nat) -> Seq<Seq<u8>>
    recommends
        cycle.len() > 0,
        width > 0,
{
    let q = (width - 1) / (cycle.len() as int);
    let r = (width - 1) % (cycle.len() as int);
    repeated(cycle, (q + 1) as nat) + cycle.take(r)
}

/// The number of units in the backing text of a text that runs.
pub proof fn lemma_backing_len(cycle: Seq<Seq<u8>>, width: nat)
    requires
        cycle.len() > 0,
        width > 0,
    ensures
        backing(cycle, width).len() == cycle.len() + width - 1,
{
    let n = cycle.len() as int;
    let q = (width - 1) / n;
    let r = (width - 1) % n;
    lemma_repeated_len(cycle, (q + 1) as nat);
    assert(0 <= r < n && 0 <= q && (q + 1) * n + r == n + width - 1) by (nonlinear_arith)
        requires
            n > 0,
            width >= 1,
            q == (width - 1) / n,
            r == (width - 1) % n,
    ;
}

/// The running text that is made of a cycle.
pub open spec fn text_of(cycle: Seq<Seq<u8>>, width: nat, repeat: bool) -> TextView {
    if repeat || cycle.len() > width {
        TextView { units: backing(cycle, width), width, repeat: true }
    } else {
        TextView { units: cycle, width, repeat: false }
    }
}

/// What making a running text comes to: the text, or the first of the reasons against it.
pub open spec fn construct(
    content: Seq<char>,
    width: nat,
    repeat: bool,
    rules: Seq<(Seq<u8>, Seq<u8>)>,
) -> Result<TextView, ConstructionError> {
    if width == 0 {
        Err(ConstructionError::ZeroWidth)
    } else if has_empty_pattern(rules) {
        Err(ConstructionError::EmptyPattern)
    } else if repeat && cycle_units(content, rules).len() == 0 {
        Err(ConstructionError::EmptyContent)
    } else {
        Ok(text_of(cycle_units(content, rules), width, repeat))
    }
}

impl TextView {
    /// A text that runs has at least one window.
    pub open spec fn wf(self) -> bool {
        &&& units_ok(self.units)
        &&& self.repeat ==> 1 <= self.width <= self.units.len()
    }

    /// The bytes of the backing text.
    pub open spec fn bytes(self) -> Seq<u8> {
        self.units.flatten()
    }

    /// The backing text.
    pub open spec fn chars(self) -> Seq<char> {
        decode_utf8(self.bytes())
    }

    /// The number of windows in the backing text, which is the number of units in a cycle.
    pub open spec fn cycle(self) -> int {
        self.units.len() - self.width + 1
    }

    /// The window that starts at unit `pos`; the whole text where it does not run.
    pub open spec fn window(self, pos: int) -> Seq<u8> {
        if self.repeat {
            self.units.subrange(pos, pos + self.width).flatten()
        } else {
            self.units.flatten()
        }
    }

    /// The iterator at the start of the text.
    pub open spec fn iter(self) -> IterView {
        IterView { text: self, pos: 0 }
    }

    /// The iterator at the unit that holds byte `offset`; at the start of the text where no
    /// window starts at that unit.
    pub open spec fn iter_at(self, offset: int) -> IterView {
        let k = unit_index(self.units, offset);
        if self.repeat && k + self.width <= self.units.len() {
            IterView { text: self, pos: k as nat }
        } else {
            IterView { text: self, pos: 0 }
        }
    }
}

impl IterView {
    /// The next window starts within the first cycle.
    pub open spec fn wf(self) -> bool {
        &&& self.text.wf()
        &&& if self.text.repeat {
            self.pos < self.text.cycle()
        } else {
            self.pos == 0
        }
    }

    /// The byte offsets at which the next window starts and ends.
    pub open spec fn range(self) -> (int, int) {
        if self.text.repeat {
            (
                start(self.text.units, self.pos as int),
                start(self.text.units, (self.pos + self.text.width) as int),
            )
        } else {
            (0, self.text.bytes().len() as int)
        }
    }

    /// The bytes of the next window.
    pub open spec fn window(self) -> Seq<u8> {
        self.text.window(self.pos as int)
    }

    /// The iterator after one step forward.
    pub open spec fn advanced(self) -> IterView {
        if !self.text.repeat {
            self
        } else if self.pos + 1 >= self.text.cycle() {
            IterView { text: self.text, pos: 0 }
        } else {
            IterView { text: self.text, pos: self.pos + 1 }
        }
    }

    /// The iterator after one step backward.
    pub open spec fn retreated(self) -> IterView {
        if !self.text.repeat {
            self
        } else if self.pos == 0 {
            IterView { text: self.text, pos: (self.text.cycle() - 1) as nat }
        } else {
            IterView { text: self.text, pos: (self.pos - 1) as nat }
        }
    }

    /// The iterator after `n` steps forward.
    pub open spec fn forward(self, n: nat) -> IterView
        decreases n,
    {
        if n == 0 {
            self
        } else {
            self.forward((n - 1) as nat).advanced()
        }
    }

    /// The iterator after `n` steps backward.
    pub open spec fn backward(self, n: nat) -> IterView
        decreases n,
    {
        if n == 0 {
            self
        } else {
            self.backward((n - 1) as nat).retreated()
        }
    }
}

} // verus!
