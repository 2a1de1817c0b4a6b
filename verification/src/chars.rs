//! Texts as sequences of characters.

use vstd::prelude::*;
use vstd::string::*;

verus! {

/// The first index from `from` at which `c` stands in `s`; the length of `s` where there is
/// none.
pub open spec fn find_char(s: Seq<char>, c: char, from: int) -> int
    decreases s.len() - from,
{
    if from >= s.len() {
        s.len() as int
    } else if from >= 0 && s[from] == c {
        from
    } else {
        find_char(s, c, from + 1)
    }
}

/// What a search for `c` finds.
pub proof fn lemma_find_char(s: Seq<char>, c: char, from: int)
    requires
        0 <= from <= s.len(),
    ensures
        from <= find_char(s, c, from) <= s.len(),
        find_char(s, c, from) < s.len() ==> s[find_char(s, c, from)] == c,
        forall|i: int| from <= i < find_char(s, c, from) ==> s[i] != c,
    decreases s.len() - from,
{
    if from < s.len() && s[from] != c {
        lemma_find_char(s, c, from + 1);
    }
}

/// A search in a part of a text finds what the search in the whole text finds there.
pub proof fn lemma_find_shift(s: Seq<char>, c: char, from: int, to: int, at: int)
    requires
        0 <= from <= at <= to <= s.len(),
    ensures
        find_char(s.subrange(0, to), c, at) == from + find_char(s.subrange(from, to), c, at - from),
    decreases to - at,
{
    if at < to {
        assert(s.subrange(0, to)[at] == s.subrange(from, to)[at - from]);
        if s[at] != c {
            lemma_find_shift(s, c, from, to, at + 1);
        }
    }
}

/// The characters of a string.
pub fn to_chars(s: &str) -> (v: Vec<char>)
    ensures
        v@ == s@,
{
    let mut v: Vec<char> = Vec::new();
    for c in it: s.chars()
        invariant
            it.seq() == s@,
            v@ == s@.take(it.index() as int),
    {
        proof {
            assert(s@.take(it.index() + 1) =~= s@.take(it.index() as int).push(c));
        }
        v.push(c);
    }
    proof {
        assert(s@.take(s@.len() as int) =~= s@);
    }
    v
}

/// The characters from `from` to `to` as a string.
pub fn text_between(chars: &[char], from: usize, to: usize) -> (r: String)
    requires
        from <= to <= chars@.len(),
    ensures
        r@ == chars@.subrange(from as int, to as int),
{
    let mut out = String::new();
    let mut i = from;
    while i < to
        invariant
            from <= i <= to <= chars@.len(),
            out@ == chars@.subrange(from as int, i as int),
        decreases to - i,
    {
        out.push(chars[i]);
        proof {
            assert(chars@.subrange(from as int, i + 1) =~= chars@.subrange(
                from as int,
                i as int,
            ).push(chars@[i as int]));
        }
        i += 1;
    }
    out
}

/// Whether the characters from `from` to `to` are those of `word`.
pub fn is_word(chars: &[char], from: usize, to: usize, word: &str) -> (r: bool)
    requires
        from <= to <= chars@.len(),
    ensures
        r == (chars@.subrange(from as int, to as int) == word@),
{
    let n = word.unicode_len();
    if to - from != n {
        return false;
    }
    let mut i: usize = 0;
    while i < n
        invariant
            i <= n,
            n == word@.len(),
            to - from == n,
            to <= chars@.len(),
            forall|t: int| 0 <= t < i ==> chars@[from + t] == word@[t],
        decreases n - i,
    {
        if chars[from + i] != word.get_char(i) {
            proof {
                assert(chars@.subrange(from as int, to as int)[i as int] == chars@[from + i]);
            }
            return false;
        }
        i += 1;
    }
    proof {
        assert(chars@.subrange(from as int, to as int) =~= word@);
    }
    true
}

/// The first index from `from` and before `to` at which `c` stands; `to` where there is none.
pub fn position(chars: &[char], c: char, from: usize, to: usize) -> (r: usize)
    requires
        from <= to <= chars@.len(),
    ensures
        r == find_char(chars@.subrange(0, to as int), c, from as int),
        from <= r <= to,
{
    let ghost s = chars@.subrange(0, to as int);
    let mut i = from;
    while i < to
        invariant
            from <= i <= to <= chars@.len(),
            s == chars@.subrange(0, to as int),
            find_char(s, c, from as int) == find_char(s, c, i as int),
        decreases to - i,
    {
        if chars[i] == c {
            return i;
        }
        i += 1;
    }
    to
}

/// Whether two strings hold the same text.
pub fn same_text(a: &str, b: &str) -> (r: bool)
    ensures
        r == (a@ == b@),
{
    let x = a.as_bytes();
    let y = b.as_bytes();
    proof {
        vstd::utf8::encode_utf8_decode_utf8(a@);
        vstd::utf8::encode_utf8_decode_utf8(b@);
    }
    if x.len() != y.len() {
        return false;
    }
    let r = crate::escape::matches(x, y, 0);
    proof {
        assert(x@.subrange(0, y@.len() as int) =~= x@);
    }
    r
}

} // verus!
