//! The record of where an iterator stands, by which a later run takes up where this one ended.
//!
//! The record is one line: the offset at which the next window starts, a space, and the
//! backing text. Where the backing text has changed since the record was written, the later
//! run starts at the start of the text.

use crate::chars::{find_char, lemma_find_char, position, same_text, text_between, to_chars};
use crate::decimal::{
    digits, is_digit, lemma_digits_round_trip, number_of, parse_decimal, write_decimal,
};
use crate::model::IterView;
use crate::running_text::{RunIter, RunningText};
use vstd::prelude::*;
use vstd::string::*;
use vstd::utf8::*;

verus! {

/// The record of the offset `offset` into the backing text `text`.
pub open spec fn record_text(offset: nat, text: Seq<char>) -> Seq<char> {
    digits(offset) + seq![' '] + text
}

/// The offset and the backing text that the record `line` holds; none where it is no record.
pub open spec fn record_of(line: Seq<char>) -> Option<(usize, Seq<char>)> {
    let space = find_char(line, ' ', 0);
    if space < line.len() {
        match number_of(line.subrange(0, space)) {
            Some(offset) => Some((offset, line.subrange(space + 1, line.len() as int))),
            None => None,
        }
    } else {
        None
    }
}

/// The offset at which to take up a text of which `line` is the record: the offset of the
/// record where the record is of the backing text `backing`, and 0 where it is not.
pub open spec fn resume_offset(line: Seq<char>, backing: Seq<char>) -> usize {
    match record_of(line) {
        Some((offset, text)) => if text == backing {
            offset
        } else {
            0
        },
        None => 0,
    }
}

/// Writes the record of the offset `offset` into the backing text `text`.
pub fn write_record(offset: usize, text: &str) -> (r: String)
    ensures
        r@ == record_text(offset as nat, text@),
{
    let mut out = String::new();
    write_decimal(offset as u64, &mut out);
    out.push(' ');
    out.append(text);
    proof {
        assert(out@ =~= record_text(offset as nat, text@));
    }
    out
}

/// Reads a record.
pub fn read_record(line: &str) -> (r: Option<(usize, String)>)
    ensures
        match r {
            Some(p) => record_of(line@) == Some((p.0, p.1@)),
            None => record_of(line@) is None,
        },
{
    let chars = to_chars(line);
    let n = chars.len();
    let space = position(chars.as_slice(), ' ', 0, n);
    proof {
        assert(chars@.subrange(0, n as int) =~= line@);
    }
    if space >= n {
        return None;
    }
    match parse_decimal(chars.as_slice(), 0, space) {
        Some(offset) => Some((offset, text_between(chars.as_slice(), space + 1, n))),
        None => None,
    }
}

/// A record that was written is read as it was written.
pub proof fn lemma_record_round_trip(offset: usize, text: Seq<char>)
    ensures
        record_of(record_text(offset as nat, text)) == Some((offset, text)),
{
    let d = digits(offset as nat);
    let line = record_text(offset as nat, text);
    lemma_digits_round_trip(offset as nat);
    lemma_find_char(line, ' ', 0);
    let space = find_char(line, ' ', 0);
    assert(line[d.len() as int] == ' ');
    assert forall|i: int| 0 <= i < d.len() implies line[i] != ' ' by {
        assert(line[i] == d[i]);
        assert(is_digit(d[i]));
    }
    assert(space == d.len());
    assert(line.subrange(0, space) =~= d);
    assert(line.subrange(space + 1, line.len() as int) =~= text);
}

/// Resume by record. The record of where an iterator stands leads a later run, over the same
/// backing text, to an iterator that stands there too.
pub proof fn lemma_resume_by_record(v: IterView, backing: Seq<char>)
    requires
        v.wf(),
        v.range().0 <= usize::MAX,
    ensures
        v.text.iter_at(
            resume_offset(record_text(v.range().0 as nat, backing), backing) as int,
        ) == v,
{
    crate::layout::lemma_start_is_boundary(v.text.units, v.pos as int);
    lemma_record_round_trip(v.range().0 as usize, backing);
    crate::laws::lemma_resume_at(v);
}

impl RunningText {
    /// The record of where `it`, an iterator over this text, stands.
    pub fn record(&self, it: &RunIter<'_>) -> (r: String)
        ensures
            r@ == record_text(it@.range().0 as nat, self@.chars()),
    {
        write_record(it.range().start, self.as_str())
    }

    /// An iterator that takes up the text where the record `line` says; at the start of the
    /// text where `line` is no record of this backing text.
    pub fn resume(&self, line: &str) -> (r: RunIter<'_>)
        ensures
            r@ == self@.iter_at(resume_offset(line@, self@.chars()) as int),
            r@.wf(),
    {
        match read_record(line) {
            Some((offset, text)) => {
                if same_text(text.as_str(), self.as_str()) {
                    self.iter_at(offset)
                } else {
                    self.iter_at(0)
                }
            },
            None => self.iter_at(0),
        }
    }
}

} // verus!
