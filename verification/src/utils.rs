//! Small services on content.

use vstd::prelude::*;
use vstd::string::*;

verus! {

/// What becomes of one character of a content: a carriage return goes, a newline becomes the
/// replacement, anything else stays.
pub open spec fn newline_unit(c: char, replacement: Seq<char>) -> Seq<char> {
    if c == '\r' {
        Seq::empty()
    } else if c == '\n' {
        replacement
    } else {
        seq![c]
    }
}

/// A content without its carriage returns and with each newline replaced.
pub open spec fn newline_replaced(text: Seq<char>, replacement: Seq<char>) -> Seq<char> {
    text.flat_map(|c: char| newline_unit(c, replacement))
}

/// Takes the carriage returns out of `text` and puts `replacement` in the place of each
/// newline, in one pass over the text.
pub fn replace_newline(text: &mut String, replacement: &str)
    ensures
        final(text)@ == newline_replaced(old(text)@, replacement@),
{
    let mut out = String::new();
    let ghost f = |c: char| newline_unit(c, replacement@);
    let ghost chars = text@;
    proof {
        assert(chars.take(0) =~= Seq::<char>::empty());
        assert(Seq::<char>::empty().flat_map(f) =~= Seq::<char>::empty());
    }
    for c in it: text.as_str().chars()
        invariant
            it.seq() == chars,
            f == (|c: char| newline_unit(c, replacement@)),
            out@ == chars.take(it.index() as int).flat_map(f),
    {
        let ghost before = out@;
        proof {
            let i = it.index() as int;
            assert(chars.take(i + 1) =~= chars.take(i).push(c));
            chars.take(i).lemma_flat_map_push(f, c);
        }
        if c == '\r' {
            proof {
                assert(out@ + newline_unit(c, replacement@) =~= out@);
            }
        } else if c == '\n' {
            out.append(replacement);
        } else {
            out.push(c);
            proof {
                assert(out@ =~= before + seq![c]);
            }
        }
    }
    proof {
        assert(chars.take(chars.len() as int) =~= chars);
    }
    *text = out;
}

} // verus!
