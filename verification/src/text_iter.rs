//! One fragment of the display: a source and how its content is to run.

use crate::error::ConstructionError;
use crate::model::{construct, rule_bytes, TextView};
use crate::running_text::RunningText;
use crate::text_source::TextSource;
use vstd::prelude::*;
use vstd::string::*;
use vstd::utf8::*;

verus! {

/// How the content of a fragment is to run.
pub struct TextIterView {
    /// The width of the window, in units.
    pub w: usize,
    /// Whether the content runs even where it fits the window.
    pub repeat: bool,
    /// What stands between the end of the content and its start, where the content runs.
    pub separator: Seq<char>,
    /// The replacement rules, in their order.
    pub replacements: Seq<(Seq<char>, Seq<char>)>,
    /// Whether the content runs to the right.
    pub right: bool,
}

impl TextIterView {
    /// The content with the separator behind it, where the content will run.
    pub open spec fn joined(self, content: Seq<char>) -> Seq<char> {
        if self.repeat || content.len() > self.w {
            content + self.separator
        } else {
            content
        }
    }

    /// The rules as pairs of byte sequences.
    pub open spec fn rules(self) -> Seq<(Seq<u8>, Seq<u8>)> {
        self.replacements.map_values(
            |r: (Seq<char>, Seq<char>)| (encode_utf8(r.0), encode_utf8(r.1)),
        )
    }
}

/// A source of content, and how that content is to run.
pub struct TextIter {
    source: Box<dyn TextSource>,
    w: usize,
    repeat: bool,
    separator: String,
    replacements: Vec<(String, String)>,
    right: bool,
}

impl View for TextIter {
    type V = TextIterView;

    closed spec fn view(&self) -> TextIterView {
        TextIterView {
            w: self.w,
            repeat: self.repeat,
            separator: self.separator@,
            replacements: self.replacements@.map_values(|r: (String, String)| (r.0@, r.1@)),
            right: self.right,
        }
    }
}

/// The rules as pairs of string slices.
fn as_pairs<'a>(rules: &'a Vec<(String, String)>) -> (r: Vec<(&'a str, &'a str)>)
    ensures
        r@.len() == rules@.len(),
        forall|i: int|
            0 <= i < r@.len() ==> (#[trigger] r@[i]).0@ == rules@[i].0@ && r@[i].1@ == rules@[i].1@,
{
    let mut out: Vec<(&'a str, &'a str)> = Vec::new();
    let mut i: usize = 0;
    while i < rules.len()
        invariant
            i <= rules@.len(),
            out@.len() == i,
            forall|t: int|
                0 <= t < i ==> (#[trigger] out@[t]).0@ == rules@[t].0@ && out@[t].1@
                    == rules@[t].1@,
        decreases rules@.len() - i,
    {
        out.push((rules[i].0.as_str(), rules[i].1.as_str()));
        i += 1;
    }
    out
}

impl TextIter {
    /// A fragment that shows the content of `source` through a window of `w` units.
    pub fn new(
        source: Box<dyn TextSource>,
        w: usize,
        repeat: bool,
        separator: String,
        replacements: Vec<(String, String)>,
        right: bool,
    ) -> (r: Self)
        ensures
            r@ == (TextIterView {
                w,
                repeat,
                separator: separator@,
                replacements: replacements@.map_values(|r: (String, String)| (r.0@, r.1@)),
                right,
            }),
    {
        Self { source, w, repeat, separator, replacements, right }
    }

    /// The source that the fragment holds, to ask it or to put another in its place.
    pub fn source(&mut self) -> (r: &mut Box<dyn TextSource>)
        ensures
            *r == *old(self).spec_source(),
            *final(self).spec_source() == *final(r),
            final(self)@ == old(self)@,
    {
        &mut self.source
    }

    /// The source that the fragment holds.
    pub closed spec fn spec_source(&self) -> &Box<dyn TextSource> {
        &self.source
    }

    /// Whether the content runs to the right.
    pub fn right(&self) -> (r: bool)
        ensures
            r == self@.right,
    {
        self.right
    }

    /// The running text of `content`. Where the content will run, the separator is put behind
    /// it first.
    pub fn new_text(&self, content: String) -> (r: Result<RunningText, ConstructionError>)
        ensures
            match r {
                Ok(rt) => construct(
                    self@.joined(content@),
                    self@.w as nat,
                    self@.repeat,
                    self@.rules(),
                ) == Ok::<TextView, ConstructionError>(rt@) && rt@.wf(),
                Err(e) => construct(
                    self@.joined(content@),
                    self@.w as nat,
                    self@.repeat,
                    self@.rules(),
                ) == Err::<TextView, ConstructionError>(e),
            },
    {
        let mut content = content;
        if self.repeat || content.as_str().unicode_len() > self.w {
            content.append(self.separator.as_str());
        }
        let pairs = as_pairs(&self.replacements);
        proof {
            assert(rule_bytes(pairs@) =~= self@.rules());
        }
        RunningText::new(content, self.w, self.repeat, pairs.as_slice())
    }
}

} // verus!
