//! What holds of every running text and of every iterator over one.

use crate::error::ConstructionError;
use crate::layout::{char_units, lemma_char_units_text};
use crate::model::{
    backing, construct, cycle_units, has_empty_pattern, lemma_backing_len, text_of, IterView,
    TextView,
};
use crate::rewrite::{apply_rules, lemma_rewrite_text, replace_from, rewrite};
use crate::units::{
    lemma_repeated_len, lemma_start_end, lemma_start_monotonic, lemma_start_zero,
    lemma_unit_index, repeated, start,
};
use vstd::arithmetic::div_mod::{lemma_fundamental_div_mod, lemma_fundamental_div_mod_converse};
use vstd::prelude::*;
use vstd::utf8::*;

verus! {

/// The text that the rules make of `bytes`, each applied to what the one before it made.
pub open spec fn replace_all(bytes: Seq<u8>, rules: Seq<(Seq<u8>, Seq<u8>)>) -> Seq<u8>
    decreases rules.len(),
{
    if rules.len() == 0 {
        bytes
    } else {
        replace_all(replace_from(bytes, rules[0].0, rules[0].1, 0), rules.drop_first())
    }
}

/// The window that the `n`-th step forward hands out, counted from 0.
pub open spec fn forward_window(v: IterView, n: nat) -> Seq<u8> {
    v.forward(n).window()
}

/// The window that the `n`-th step backward hands out, counted from 0.
pub open spec fn backward_window(v: IterView, n: nat) -> Seq<u8> {
    v.backward(n).window()
}

/// The units of a text do not change what the rules make of its bytes: the text of the cycle
/// is the content with the rules applied to it one after the other.
pub proof fn lemma_cycle_text(content: Seq<char>, rules: Seq<(Seq<u8>, Seq<u8>)>)
    requires
        !has_empty_pattern(rules),
    ensures
        cycle_units(content, rules).flatten() == replace_all(encode_utf8(content), rules),
{
    lemma_char_units_text(encode_utf8(content));
    lemma_apply_rules_text(char_units(encode_utf8(content)), rules);
}

/// The text of what the rules make of some units is what they make of the text of the units.
pub proof fn lemma_apply_rules_text(units: Seq<Seq<u8>>, rules: Seq<(Seq<u8>, Seq<u8>)>)
    requires
        !has_empty_pattern(rules),
    ensures
        apply_rules(units, rules).flatten() == replace_all(units.flatten(), rules),
    decreases rules.len(),
{
    if rules.len() > 0 {
        assert(rules[0].0.len() > 0);
        lemma_rewrite_text(units, rules[0].0, rules[0].1, 0);
        let rest = rules.drop_first();
        assert forall|i: int| 0 <= i < rest.len() implies (#[trigger] rest[i]).0.len() != 0 by {
            assert(rest[i] == rules[i + 1]);
        }
        lemma_apply_rules_text(rewrite(units, rules[0].0, rules[0].1), rest);
    }
}

/// A step forward and a step backward undo each other.
pub proof fn lemma_advance_retreat(v: IterView)
    requires
        v.wf(),
    ensures
        v.advanced().wf(),
        v.retreated().wf(),
        v.advanced().retreated() == v,
        v.retreated().advanced() == v,
{
}

/// Steps forward lead from one valid iterator to another over the same text.
pub proof fn lemma_forward_wf(v: IterView, n: nat)
    requires
        v.wf(),
    ensures
        v.forward(n).wf(),
        v.forward(n).text == v.text,
    decreases n,
{
    if n > 0 {
        lemma_forward_wf(v, (n - 1) as nat);
    }
}

/// Steps backward lead from one valid iterator to another over the same text.
pub proof fn lemma_backward_wf(v: IterView, n: nat)
    requires
        v.wf(),
    ensures
        v.backward(n).wf(),
        v.backward(n).text == v.text,
    decreases n,
{
    if n > 0 {
        lemma_backward_wf(v, (n - 1) as nat);
    }
}

/// `k` steps forward and then `n` more are `k + n` steps forward.
pub proof fn lemma_forward_add(v: IterView, k: nat, n: nat)
    ensures
        v.forward(k).forward(n) == v.forward(k + n),
    decreases n,
{
    if n > 0 {
        lemma_forward_add(v, k, (n - 1) as nat);
    }
}

/// Where `n` steps forward lead: the windows come round after one cycle.
pub proof fn lemma_forward_pos(v: IterView, n: nat)
    requires
        v.wf(),
        v.text.repeat,
    ensures
        v.forward(n).text == v.text,
        v.forward(n).pos == ((v.pos + n) as int) % v.text.cycle(),
    decreases n,
{
    let c = v.text.cycle();
    if n == 0 {
        lemma_fundamental_div_mod_converse(v.pos as int, c, 0, v.pos as int);
    } else {
        lemma_forward_pos(v, (n - 1) as nat);
        let x = v.pos + n - 1;
        lemma_fundamental_div_mod(x, c);
        let q = x / c;
        let p = x % c;
        assert(0 <= p < c) by (nonlinear_arith)
            requires
                p == x % c,
                c > 0,
        ;
        if p + 1 >= c {
            assert(x + 1 == (q + 1) * c + 0) by (nonlinear_arith)
                requires
                    x == c * q + p,
                    p + 1 == c,
            ;
            lemma_fundamental_div_mod_converse(x + 1, c, q + 1, 0);
        } else {
            assert(x + 1 == q * c + (p + 1)) by (nonlinear_arith)
                requires
                    x == c * q + p,
            ;
            lemma_fundamental_div_mod_converse(x + 1, c, q, p + 1);
        }
    }
}

/// Static fit. A content that fits the window, and is not asked to run, does not run: the text
/// is the content with the rules applied, and every step forward hands out that whole text
/// and leaves the iterator as it was.
pub proof fn lemma_static_fit(
    content: Seq<char>,
    rules: Seq<(Seq<u8>, Seq<u8>)>,
    width: nat,
    n: nat,
)
    requires
        width >= 1,
        width >= cycle_units(content, rules).len(),
        !has_empty_pattern(rules),
    ensures
        construct(content, width, false, rules) is Ok,
        !construct(content, width, false, rules)->Ok_0.repeat,
        construct(content, width, false, rules)->Ok_0.iter().forward(n) == construct(
            content,
            width,
            false,
            rules,
        )->Ok_0.iter(),
        forward_window(construct(content, width, false, rules)->Ok_0.iter(), n) == replace_all(
            encode_utf8(content),
            rules,
        ),
{
    let text = construct(content, width, false, rules)->Ok_0;
    lemma_idle(text.iter(), n);
    lemma_cycle_text(content, rules);
}

/// No-repeat idempotence. Over a text that does not run, no number of steps in either
/// direction changes the iterator, and every step hands out the same window.
pub proof fn lemma_idle(v: IterView, n: nat)
    requires
        !v.text.repeat,
    ensures
        v.forward(n) == v,
        v.backward(n) == v,
        forward_window(v, n) == v.text.bytes(),
        backward_window(v, n) == v.text.bytes(),
    decreases n,
{
    if n > 0 {
        lemma_idle(v, (n - 1) as nat);
    }
}

/// Full-cycle closure. After as many steps forward as a cycle has units, the iterator stands
/// where it stood.
pub proof fn lemma_cycle_closure(v: IterView)
    requires
        v.wf(),
        v.text.repeat,
    ensures
        v.forward(v.text.cycle() as nat) == v,
        forward_window(v, v.text.cycle() as nat) == v.window(),
{
    let c = v.text.cycle();
    lemma_forward_pos(v, c as nat);
    lemma_fundamental_div_mod_converse(v.pos + c, c, 1, v.pos as int);
}

/// The cycle of a text that runs has as many windows as the content, with the rules applied,
/// has units.
pub proof fn lemma_cycle_len(cycle: Seq<Seq<u8>>, width: nat, repeat: bool)
    requires
        width >= 1,
        cycle.len() > 0,
        repeat || cycle.len() > width,
    ensures
        text_of(cycle, width, repeat).repeat,
        text_of(cycle, width, repeat).cycle() == cycle.len(),
        text_of(cycle, width, repeat).units.len() == cycle.len() + width - 1,
{
    lemma_backing_len(cycle, width);
}

/// Bidirectional symmetry. From where `n` steps forward have led, the steps backward hand out
/// the windows that the steps forward handed out, in reverse order: the `k`-th step backward
/// hands out the window of the `n - k`-th step forward.
pub proof fn lemma_symmetry(v: IterView, n: nat, k: nat)
    requires
        v.wf(),
        k <= n,
    ensures
        v.forward(n).backward(k) == v.forward((n - k) as nat),
        backward_window(v.forward(n), k) == forward_window(v, (n - k) as nat),
    decreases k,
{
    if k > 0 {
        lemma_symmetry(v, n, (k - 1) as nat);
        lemma_forward_wf(v, (n - k) as nat);
        lemma_advance_retreat(v.forward((n - k) as nat));
        assert(v.forward((n - k + 1) as nat) == v.forward((n - k) as nat).advanced());
    }
}

/// Bidirectional symmetry over one cycle. The iterator at the last window of the text is where
/// one cycle less one step forward leads from the start; from there the steps backward hand
/// out the windows of one cycle in reverse order.
pub proof fn lemma_symmetry_anchors(text: TextView, k: nat)
    requires
        text.wf(),
        text.repeat,
        k < text.cycle(),
    ensures
        text.iter().forward((text.cycle() - 1) as nat) == (IterView {
            text,
            pos: (text.cycle() - 1) as nat,
        }),
        backward_window(IterView { text, pos: (text.cycle() - 1) as nat }, k) == forward_window(
            text.iter(),
            (text.cycle() - 1 - k) as nat,
        ),
{
    let c = text.cycle();
    lemma_forward_pos(text.iter(), (c - 1) as nat);
    lemma_fundamental_div_mod_converse(c - 1, c, 0, c - 1);
    lemma_symmetry(text.iter(), (c - 1) as nat, k);
}

/// Escape atomicity. No window starts or ends inside a unit: whatever a replacement put into
/// the text is in a window whole, or not at all.
pub proof fn lemma_window_whole_units(v: IterView, k: int)
    requires
        v.wf(),
        0 <= k < v.text.units.len(),
    ensures
        !(start(v.text.units, k) < v.range().0 < start(v.text.units, k + 1)),
        !(start(v.text.units, k) < v.range().1 < start(v.text.units, k + 1)),
{
    let units = v.text.units;
    lemma_start_zero(units);
    lemma_start_end(units);
    lemma_start_monotonic(units, 0, k);
    lemma_start_monotonic(units, k + 1, units.len() as int);
    if v.text.repeat {
        let a = v.pos as int;
        let b = (v.pos + v.text.width) as int;
        if k < a {
            lemma_start_monotonic(units, k + 1, a);
        } else {
            lemma_start_monotonic(units, a, k);
        }
        if k < b {
            lemma_start_monotonic(units, k + 1, b);
        } else {
            lemma_start_monotonic(units, b, k);
        }
    }
}

/// Resume equivalence. An iterator made at the offset at which another one stands is that
/// iterator: after `k` steps from the start, a fresh iterator at the offset that was reached
/// hands out in `n` steps what the first one hands out in its steps `k` to `k + n`.
pub proof fn lemma_resume(text: TextView, k: nat, n: nat)
    requires
        text.wf(),
    ensures
        text.iter_at(text.iter().forward(k).range().0) == text.iter().forward(k),
        text.iter_at(text.iter().forward(k).range().0).forward(n) == text.iter().forward(k + n),
        forward_window(text.iter_at(text.iter().forward(k).range().0), n) == forward_window(
            text.iter(),
            k + n,
        ),
{
    let v = text.iter().forward(k);
    lemma_forward_wf(text.iter(), k);
    lemma_resume_at(v);
    lemma_forward_add(text.iter(), k, n);
}

/// An iterator made at the offset at which another one stands is that iterator.
pub proof fn lemma_resume_at(v: IterView)
    requires
        v.wf(),
    ensures
        v.text.iter_at(v.range().0) == v,
{
    let units = v.text.units;
    if v.text.repeat {
        lemma_start_monotonic(units, v.pos as int, v.pos as int + 1);
        lemma_unit_index(units, start(units, v.pos as int), v.pos as int);
    }
}

/// Boundary. A content of exactly as many units as the window has, which is not asked to run,
/// is shown whole; with one unit more than the window has, it runs.
pub proof fn lemma_boundary(content: Seq<char>, rules: Seq<(Seq<u8>, Seq<u8>)>, width: nat)
    requires
        width >= 1,
        !has_empty_pattern(rules),
    ensures
        cycle_units(content, rules).len() == width ==> construct(content, width, false, rules)
            == Ok::<TextView, ConstructionError>(
            TextView { units: cycle_units(content, rules), width, repeat: false },
        ),
        cycle_units(content, rules).len() == width + 1 ==> construct(
            content,
            width,
            false,
            rules,
        ) == Ok::<TextView, ConstructionError>(
            TextView { units: backing(cycle_units(content, rules), width), width, repeat: true },
        ),
{
}

/// Unit `i` of `n` copies of a cycle is unit `i % cycle.len()` of the cycle.
pub proof fn lemma_repeated_index(cycle: Seq<Seq<u8>>, n: nat, i: int)
    requires
        0 <= i < n * cycle.len(),
    ensures
        repeated(cycle, n).len() == n * cycle.len(),
        repeated(cycle, n)[i] == cycle[i % (cycle.len() as int)],
    decreases n,
{
    let c = cycle.len() as int;
    lemma_repeated_len(cycle, n);
    if n > 0 {
        lemma_repeated_len(cycle, (n - 1) as nat);
        assert(n * c == (n - 1) * c + c) by (nonlinear_arith);
        if i < (n - 1) * c {
            lemma_repeated_index(cycle, (n - 1) as nat, i);
        } else {
            lemma_fundamental_div_mod_converse(i, c, n - 1, i - (n - 1) * c);
        }
    }
}

/// The backing text is the cycle, over and over: unit `i` of it is unit `i % cycle.len()` of
/// the cycle. So the window at unit `pos` holds the `width` units that follow `pos` round the
/// cycle.
pub proof fn lemma_backing_periodic(cycle: Seq<Seq<u8>>, width: nat, i: int)
    requires
        cycle.len() > 0,
        width >= 1,
        0 <= i < cycle.len() + width - 1,
    ensures
        backing(cycle, width).len() == cycle.len() + width - 1,
        backing(cycle, width)[i] == cycle[i % (cycle.len() as int)],
{
    let c = cycle.len() as int;
    let q = (width - 1) / c;
    let r = (width - 1) % c;
    lemma_backing_len(cycle, width);
    lemma_repeated_len(cycle, (q + 1) as nat);
    if i < (q + 1) * c {
        lemma_repeated_index(cycle, (q + 1) as nat, i);
    } else {
        assert(0 <= r < c && (q + 1) * c + r == c + width - 1) by (nonlinear_arith)
            requires
                c > 0,
                width >= 1,
                q == (width - 1) / c,
                r == (width - 1) % c,
        ;
        lemma_fundamental_div_mod_converse(i, c, q + 1, i - (q + 1) * c);
    }
}

/// The units of `width` units that follow unit `pos` round the cycle.
pub open spec fn cyclic_units(cycle: Seq<Seq<u8>>, pos: int, width: nat) -> Seq<Seq<u8>> {
    Seq::new(width, |j: int| cycle[(pos + j) % (cycle.len() as int)])
}

/// Every window of a text that runs is a window onto the cycle, over and over: the window at
/// unit `pos` holds the `width` units that follow `pos` round the cycle.
pub proof fn lemma_window_is_cyclic(cycle: Seq<Seq<u8>>, width: nat, repeat: bool, pos: int)
    requires
        width >= 1,
        cycle.len() > 0,
        repeat || cycle.len() > width,
        0 <= pos < cycle.len(),
    ensures
        text_of(cycle, width, repeat).window(pos) == cyclic_units(cycle, pos, width).flatten(),
{
    let text = text_of(cycle, width, repeat);
    lemma_backing_len(cycle, width);
    let window = text.units.subrange(pos, pos + width);
    let round = cyclic_units(cycle, pos, width);
    assert forall|j: int| 0 <= j < width implies #[trigger] window[j] == round[j] by {
        lemma_backing_periodic(cycle, width, pos + j);
    }
    assert(window =~= round);
}

} // verus!
