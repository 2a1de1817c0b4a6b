//! Numbers as decimal text.

use vstd::prelude::*;
use vstd::string::*;

verus! {

/// `String::push` appends the character to the end of the string.
pub assume_specification[ std::string::String::push ](s: &mut std::string::String, c: char)
    ensures
        final(s)@ == old(s)@.push(c),
;

/// The character of the decimal digit `d`.
pub open spec fn digit_char(d: int) -> char {
    (48 + d) as u8 as char
}

/// The decimal digits of `n`, the first one not 0 unless `n` is 0.
pub open spec fn digits(n: nat) -> Seq<char>
    decreases n,
{
    if n < 10 {
        seq![digit_char(n as int)]
    } else {
        digits(n / 10).push(digit_char((n % 10) as int))
    }
}

/// The decimal text of `n`, with a minus sign before it where `n` is negative.
pub open spec fn signed_digits(n: int) -> Seq<char> {
    if n < 0 {
        seq!['-'] + digits((-n) as nat)
    } else {
        digits(n as nat)
    }
}

/// Appends the decimal digits of `n` to `f`.
pub fn write_decimal(n: u64, f: &mut String)
    ensures
        final(f)@ == old(f)@ + digits(n as nat),
    decreases n,
{
    if n >= 10 {
        write_decimal(n / 10, f);
    }
    let d: u8 = (n % 10) as u8;
    f.push((48u8 + d) as char);
    proof {
        assert(f@ =~= old(f)@ + digits(n as nat));
    }
}

/// Appends the decimal text of `n` to `f`.
pub fn write_signed(n: i64, f: &mut String)
    ensures
        final(f)@ == old(f)@ + signed_digits(n as int),
{
    if n < 0 {
        f.push('-');
        let m: u64 = if n == i64::MIN {
            9223372036854775808u64
        } else {
            (-n) as u64
        };
        write_decimal(m, f);
        proof {
            assert(f@ =~= old(f)@ + signed_digits(n as int));
        }
    } else {
        write_decimal(n as u64, f);
    }
}

/// Whether `c` is a decimal digit.
pub open spec fn is_digit(c: char) -> bool {
    '0' <= c <= '9'
}

/// The number that the decimal digits `s` write.
pub open spec fn digits_value(s: Seq<char>) -> nat
    decreases s.len(),
{
    if s.len() == 0 {
        0
    } else {
        digits_value(s.drop_last()) * 10 + (s.last() as u32 - 48) as nat
    }
}

/// Whether `s` holds decimal digits only.
pub open spec fn all_digits(s: Seq<char>) -> bool {
    forall|i: int| 0 <= i < s.len() ==> is_digit(#[trigger] s[i])
}

/// The number that `s` writes: decimal digits, at least one, where the number is one that the
/// machine can hold.
pub open spec fn number_of(s: Seq<char>) -> Option<usize> {
    if s.len() > 0 && all_digits(s) && digits_value(s) <= usize::MAX {
        Some(digits_value(s) as usize)
    } else {
        None
    }
}

/// The number that digits write is no less than the number that the first of them write.
proof fn lemma_digits_value_grows(s: Seq<char>, k: int)
    requires
        0 <= k <= s.len(),
    ensures
        digits_value(s.take(k)) <= digits_value(s),
    decreases s.len() - k,
{
    if k < s.len() {
        lemma_digits_value_grows(s, k + 1);
        assert(s.take(k + 1).drop_last() =~= s.take(k));
    } else {
        assert(s.take(k) =~= s);
    }
}

/// The digits of a number write that number.
pub proof fn lemma_digits_round_trip(n: nat)
    ensures
        digits(n).len() > 0,
        all_digits(digits(n)),
        digits_value(digits(n)) == n,
    decreases n,
{
    if n < 10 {
        assert(digits(n).drop_last() =~= Seq::<char>::empty());
        assert(digits_value(digits(n).drop_last()) == 0);
    } else {
        lemma_digits_round_trip(n / 10);
        assert(digits(n).drop_last() =~= digits(n / 10));
    }
}

/// Reads a number from the characters between `from` and `to`.
pub fn parse_decimal(chars: &[char], from: usize, to: usize) -> (r: Option<usize>)
    requires
        from <= to <= chars@.len(),
    ensures
        r == number_of(chars@.subrange(from as int, to as int)),
{
    let ghost d = chars@.subrange(from as int, to as int);
    if from == to {
        return None;
    }
    let mut acc: usize = 0;
    let mut i = from;
    proof {
        assert(d.take(0) =~= Seq::<char>::empty());
    }
    while i < to
        invariant
            from <= i <= to <= chars@.len(),
            d == chars@.subrange(from as int, to as int),
            acc == digits_value(d.take(i - from)),
            forall|t: int| 0 <= t < i - from ==> is_digit(#[trigger] d[t]),
        decreases to - i,
    {
        let c = chars[i];
        proof {
            assert(d[i - from] == c);
            assert(d.take(i - from + 1).drop_last() =~= d.take(i - from));
            assert(d.take(i - from + 1).last() == c);
            lemma_digits_value_grows(d, i - from + 1);
        }
        if !('0' <= c && c <= '9') {
            return None;
        }
        let digit: usize = (c as u32 - 48) as usize;
        if acc > (usize::MAX - digit) / 10 {
            proof {
                assert(acc * 10 + digit > usize::MAX) by (nonlinear_arith)
                    requires
                        acc > (usize::MAX - digit) / 10,
                        0 <= digit <= 9,
                ;
            }
            return None;
        }
        proof {
            assert(acc * 10 + digit <= usize::MAX) by (nonlinear_arith)
                requires
                    acc <= (usize::MAX - digit) / 10,
                    0 <= digit <= 9,
            ;
        }
        acc = acc * 10 + digit;
        i += 1;
    }
    proof {
        assert(d.take(to - from) =~= d);
    }
    Some(acc)
}

} // verus!
