//! Counting elves and shelves in a text.

use crate::text::to_chars;
use vstd::prelude::*;

verus! {

/// How often `elf`, `elf on a shelf` and a shelf without an elf on it occur.
#[derive(Clone, Copy, Debug, PartialEq, Eq, Structural)]
pub struct ElfCount {
    pub elf: usize,
    pub elf_on_a_shelf: usize,
    pub shelf_with_no_elf_on_it: usize,
}

/// Whether `s` begins with `pattern`.
pub open spec fn starts_with(s: Seq<char>, pattern: Seq<char>) -> bool {
    pattern.len() <= s.len() && s.take(pattern.len() as int) == pattern
}

/// How often `pattern` occurs in `s`, the occurrences being found from left
/// to right and not overlapping. The empty pattern occurs nowhere.
pub open spec fn occurrences(s: Seq<char>, pattern: Seq<char>) -> nat
    decreases s.len(),
{
    if s.len() == 0 || pattern.len() == 0 {
        0
    } else if starts_with(s, pattern) {
        1 + occurrences(s.skip(pattern.len() as int), pattern)
    } else {
        occurrences(s.drop_first(), pattern)
    }
}

/// The shelves without an elf: those that are left when each `elf on a
/// shelf` has taken one.
pub open spec fn bare_shelves(s: Seq<char>) -> nat {
    let shelves = occurrences(s, "shelf"@);
    let taken = occurrences(s, "elf on a shelf"@);
    if shelves >= taken {
        (shelves - taken) as nat
    } else {
        0
    }
}

fn starts_at(text: &Vec<char>, at: usize, pattern: &Vec<char>) -> (found: bool)
    requires
        at <= text.len(),
    ensures
        found == starts_with(text@.skip(at as int), pattern@),
{
    if pattern.len() > text.len() - at {
        return false;
    }
    let mut k: usize = 0;
    while k < pattern.len()
        invariant
            k <= pattern.len(),
            at + pattern.len() <= text.len(),
            forall|j: int| 0 <= j < k ==> text@[at + j] == pattern@[j],
        decreases pattern.len() - k,
    {
        if text[at + k] != pattern[k] {
            proof {
                let head = text@.skip(at as int).take(pattern@.len() as int);
                assert(head[k as int] == text@[at + k]);
            }
            return false;
        }
        k += 1;
    }
    proof {
        assert(text@.skip(at as int).take(pattern@.len() as int) =~= pattern@);
    }
    true
}

/// How often `pattern` occurs in `text`, without overlap.
pub fn count_occurrences(text: &Vec<char>, pattern: &Vec<char>) -> (count: usize)
    ensures
        count == occurrences(text@, pattern@),
{
    if pattern.len() == 0 {
        return 0;
    }
    let mut count: usize = 0;
    let mut at: usize = 0;
    proof {
        assert(text@.skip(0) =~= text@);
    }
    while at < text.len()
        invariant
            at <= text.len(),
            count <= at,
            pattern.len() > 0,
            count + occurrences(text@.skip(at as int), pattern@) == occurrences(text@, pattern@),
        decreases text.len() - at,
    {
        if starts_at(text, at, pattern) {
            proof {
                assert(text@.skip(at as int).skip(pattern@.len() as int) =~= text@.skip(
                    at + pattern@.len(),
                ));
            }
            count += 1;
            at += pattern.len();
        } else {
            proof {
                assert(text@.skip(at as int).drop_first() =~= text@.skip(at + 1));
            }
            at += 1;
        }
    }
    count
}

/// Counts `elf`, `elf on a shelf` and the shelves without an elf in `text`.
pub fn count_elf(text: &str) -> (count: ElfCount)
    ensures
        count.elf == occurrences(text@, "elf"@),
        count.elf_on_a_shelf == occurrences(text@, "elf on a shelf"@),
        count.shelf_with_no_elf_on_it == bare_shelves(text@),
{
    let chars = to_chars(text);
    let elf_count = count_occurrences(&chars, &to_chars("elf"));
    let elf_on_shelf_count = count_occurrences(&chars, &to_chars("elf on a shelf"));
    let shelf_count = count_occurrences(&chars, &to_chars("shelf"));
    ElfCount {
        elf: elf_count,
        elf_on_a_shelf: elf_on_shelf_count,
        shelf_with_no_elf_on_it: if shelf_count >= elf_on_shelf_count {
            shelf_count - elf_on_shelf_count
        } else {
            0
        },
    }
}

} // verus!
