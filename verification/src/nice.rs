//! Nice and naughty texts: a text is nice when it has three vowels and a
//! doubled byte, and none of four forbidden pairs.

use crate::password::Password;
use crate::text::to_chars;
use vstd::prelude::*;
use vstd::utf8::encode_utf8;

verus! {

/// One of `a`, `e`, `i`, `o`, `u`, `y`.
pub open spec fn is_vowel(c: char) -> bool {
    c == 'a' || c == 'e' || c == 'i' || c == 'o' || c == 'u' || c == 'y'
}

/// The number of vowels in `s`.
pub open spec fn count_vowels(s: Seq<char>) -> nat
    decreases s.len(),
{
    if s.len() == 0 {
        0
    } else {
        count_vowels(s.drop_last()) + if is_vowel(s.last()) {
            1nat
        } else {
            0nat
        }
    }
}

/// Whether two neighbouring bytes are the same.
pub open spec fn has_doubled_byte(bytes: Seq<u8>) -> bool {
    exists|i: int| 0 <= i < bytes.len() - 1 && #[trigger] bytes[i] == bytes[i + 1]
}

/// Whether `first` stands somewhere in `s` with `second` right after it.
pub open spec fn has_pair(s: Seq<char>, first: char, second: char) -> bool {
    exists|i: int| 0 <= i < s.len() - 1 && #[trigger] s[i] == first && s[i + 1] == second
}

/// Whether `s` holds one of `ab`, `cd`, `pq` and `xy`.
pub open spec fn has_forbidden_pair(s: Seq<char>) -> bool {
    has_pair(s, 'a', 'b') || has_pair(s, 'c', 'd') || has_pair(s, 'p', 'q') || has_pair(s, 'x', 'y')
}

/// Whether the text is nice: at least three vowels, two neighbouring bytes
/// of its UTF-8 form that are the same, and no forbidden pair.
pub open spec fn is_nice(s: Seq<char>) -> bool {
    count_vowels(s) >= 3 && has_doubled_byte(encode_utf8(s)) && !has_forbidden_pair(s)
}

fn vowel_count(chars: &Vec<char>) -> (count: usize)
    ensures
        count == count_vowels(chars@),
{
    let mut count: usize = 0;
    let mut i: usize = 0;
    while i < chars.len()
        invariant
            i <= chars.len(),
            count <= i,
            count == count_vowels(chars@.take(i as int)),
        decreases chars.len() - i,
    {
        let c: char = chars[i];
        proof {
            assert(chars@.take(i + 1).drop_last() =~= chars@.take(i as int));
        }
        if c == 'a' || c == 'e' || c == 'i' || c == 'o' || c == 'u' || c == 'y' {
            count += 1;
        }
        i += 1;
    }
    proof {
        assert(chars@.take(i as int) =~= chars@);
    }
    count
}

fn contains_doubled_byte(bytes: &[u8]) -> (found: bool)
    ensures
        found == has_doubled_byte(bytes@),
{
    let mut i: usize = 1;
    while i < bytes.len()
        invariant
            1 <= i,
            forall|k: int| 0 <= k < i - 1 && k < bytes@.len() - 1 ==> #[trigger] bytes@[k] != bytes@[k + 1],
        decreases bytes.len() - i,
    {
        if bytes[i - 1] == bytes[i] {
            return true;
        }
        i += 1;
    }
    false
}

fn contains_pair(chars: &Vec<char>, first: char, second: char) -> (found: bool)
    ensures
        found == has_pair(chars@, first, second),
{
    let mut i: usize = 1;
    while i < chars.len()
        invariant
            1 <= i,
            forall|k: int|
                0 <= k < i - 1 && k < chars@.len() - 1 ==> !(#[trigger] chars@[k] == first && chars@[k + 1]
                    == second),
        decreases chars.len() - i,
    {
        if chars[i - 1] == first && chars[i] == second {
            return true;
        }
        i += 1;
    }
    false
}

/// Whether the password is nice.
pub fn check_password(password: &Password) -> (nice: bool)
    ensures
        nice == is_nice(password.input@),
{
    let text: &str = password.input.as_str();
    let chars = to_chars(text);
    let has_three_vowels = vowel_count(&chars) >= 3;
    let has_double_letter = contains_doubled_byte(text.as_bytes());
    let no_forbidden_substrings = !(contains_pair(&chars, 'a', 'b') || contains_pair(&chars, 'c', 'd')
        || contains_pair(&chars, 'p', 'q') || contains_pair(&chars, 'x', 'y'));
    has_three_vowels && has_double_letter && no_forbidden_substrings
}

} // verus!
