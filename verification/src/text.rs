//! Text as sequences of characters, and numbers written in decimal.

use vstd::prelude::*;
use vstd::string::{StrSliceExecFns, StringExecFns};

verus! {

/// The characters of `s`, in order.
pub fn to_chars(s: &str) -> (v: Vec<char>)
    ensures
        v@ == s@,
{
    let mut v: Vec<char> = Vec::new();
    for c in it: s.chars()
        invariant
            v@ == it.seq().take(it.index() as int),
            it.seq() == s@,
    {
        v.push(c);
    }
    v
}

/// Calls `String::push` of the standard library.
///
/// Trusted: the string afterwards is the string before with `c` at its end.
#[verifier::external_body]
pub(crate) fn push_char(s: &mut String, c: char)
    ensures
        final(s)@ == old(s)@.push(c),
{
    s.push(c)
}

/// The character that writes a digit below ten.
pub open spec fn decimal_digit(d: nat) -> char {
    (('0' as nat) + d) as char
}

/// A number written in decimal, without sign and without leading zeros.
pub open spec fn decimal(n: nat) -> Seq<char>
    decreases n,
{
    if n < 10 {
        seq![decimal_digit(n)]
    } else {
        decimal(n / 10).push(decimal_digit(n % 10))
    }
}

/// Writes `n` in decimal at the end of `s`.
pub fn push_decimal(s: &mut String, n: u64)
    ensures
        final(s)@ == old(s)@ + decimal(n as nat),
    decreases n,
{
    if n >= 10 {
        push_decimal(s, n / 10);
    }
    let digit: u8 = (n % 10) as u8;
    push_char(s, (48u8 + digit) as char);
    proof {
        if n >= 10 {
            assert(s@ =~= old(s)@ + decimal(n as nat));
        } else {
            assert(s@ =~= old(s)@ + decimal(n as nat));
        }
    }
}

/// `n` written in decimal.
pub fn decimal_string(n: u64) -> (s: String)
    ensures
        s@ == decimal(n as nat),
{
    let mut s = String::new();
    push_decimal(&mut s, n);
    assert(s@ =~= decimal(n as nat));
    s
}

/// Whether the code point of `c` lies between those of `lo` and `hi`, both
/// included.
pub open spec fn in_range(c: char, lo: char, hi: char) -> bool {
    lo as u32 <= c as u32 <= hi as u32
}

/// A decimal digit, `0` to `9`.
pub open spec fn is_digit(c: char) -> bool {
    in_range(c, '0', '9')
}

/// The value of a decimal digit.
pub open spec fn digit_value(c: char) -> nat {
    (c as u32 - '0' as u32) as nat
}

/// The number that a sequence of decimal digits spells.
pub open spec fn decimal_value(digits: Seq<char>) -> nat
    decreases digits.len(),
{
    if digits.len() == 0 {
        0
    } else {
        10 * decimal_value(digits.drop_last()) + digit_value(digits.last())
    }
}

/// Whether every character of `s` is a decimal digit.
pub open spec fn all_digits(s: Seq<char>) -> bool {
    forall|i: int| 0 <= i < s.len() ==> is_digit(#[trigger] s[i])
}

/// How many characters stand at the start of `s` before the first `mark`:
/// all, if `s` has no `mark`.
pub open spec fn run_before(s: Seq<char>, mark: char) -> nat
    decreases s.len(),
{
    if s.len() == 0 || s[0] == mark {
        0
    } else {
        1 + run_before(s.drop_first(), mark)
    }
}

/// The run before the first `mark` holds no `mark`, and ends at the end of
/// the text or at a `mark`.
pub proof fn lemma_run_before(s: Seq<char>, mark: char)
    ensures
        run_before(s, mark) <= s.len(),
        forall|i: int| 0 <= i < run_before(s, mark) ==> s[i] != mark,
        run_before(s, mark) < s.len() ==> s[run_before(s, mark) as int] == mark,
    decreases s.len(),
{
    if s.len() > 0 && s[0] != mark {
        lemma_run_before(s.drop_first(), mark);
        assert forall|i: int| 0 <= i < run_before(s, mark) implies s[i] != mark by {
            if i > 0 {
                assert(s.drop_first()[i - 1] == s[i]);
            }
        }
    }
}

/// The place of the first `mark` at or after `from`, or the length of the
/// text if there is none.
pub(crate) fn find_from(chars: &Vec<char>, from: usize, mark: char) -> (place: usize)
    requires
        from <= chars.len(),
    ensures
        place == from + run_before(chars@.skip(from as int), mark),
        place <= chars.len(),
{
    let mut i: usize = from;
    while i < chars.len() && chars[i] != mark
        invariant
            from <= i <= chars.len(),
            from + run_before(chars@.skip(from as int), mark) == i + run_before(
                chars@.skip(i as int),
                mark,
            ),
        decreases chars.len() - i,
    {
        proof {
            assert(chars@.skip(i as int)[0] == chars@[i as int]);
            assert(chars@.skip(i as int).drop_first() =~= chars@.skip(i + 1));
        }
        i += 1;
    }
    proof {
        if i < chars.len() {
            assert(chars@.skip(i as int)[0] == chars@[i as int]);
        }
    }
    i
}

/// The parts into which the occurrences of `mark` cut the text. There is
/// one part more than there are marks; a part may be empty.
pub open spec fn pieces(s: Seq<char>, mark: char) -> Seq<Seq<char>>
    decreases s.len(),
{
    let first = run_before(s, mark);
    if first >= s.len() {
        seq![s]
    } else {
        seq![s.take(first as int)] + pieces(s.skip(first as int + 1), mark)
    }
}

/// The texts of a sequence of string slices.
pub open spec fn part_views(parts: Seq<&str>) -> Seq<Seq<char>> {
    parts.map_values(|part: &str| part@)
}

/// Cuts the text at every occurrence of `mark`.
pub fn split<'a>(text: &'a str, mark: char) -> (parts: Vec<&'a str>)
    ensures
        part_views(parts@) == pieces(text@, mark),
{
    let chars = to_chars(text);
    let mut parts: Vec<&'a str> = Vec::new();
    let mut at: usize = 0;
    proof {
        assert(text@.skip(0) =~= text@);
        assert(part_views(parts@) =~= Seq::<Seq<char>>::empty());
    }
    loop
        invariant_except_break
            at <= chars.len(),
            part_views(parts@) + pieces(text@.skip(at as int), mark) == pieces(text@, mark),
        invariant
            chars@ == text@,
        ensures
            part_views(parts@) == pieces(text@, mark),
        decreases chars.len() - at,
    {
        let end = find_from(&chars, at, mark);
        let part = text.substring_char(at, end);
        let ghost before = parts@;
        let ghost rest = text@.skip(at as int);
        parts.push(part);
        proof {
            assert(part_views(parts@) =~= part_views(before).push(part@));
            assert(rest.take(run_before(rest, mark) as int) =~= part@);
        }
        if end >= chars.len() {
            proof {
                assert(rest =~= part@);
                assert(part_views(before) + seq![rest] =~= part_views(parts@));
            }
            break ;
        }
        proof {
            assert(rest.skip(run_before(rest, mark) as int + 1) =~= text@.skip(end + 1));
            assert(part_views(before) + (seq![part@] + pieces(text@.skip(end + 1), mark))
                =~= part_views(parts@) + pieces(text@.skip(end + 1), mark));
        }
        at = end + 1;
    }
    parts
}

} // verus!
