//! The cube of the exclusive-or of a list of numbers.

use crate::text::{all_digits, decimal_value, part_views, pieces, split};
use vstd::prelude::*;

verus! {

/// The exclusive-or of all the numbers.
pub open spec fn xor_all(nums: Seq<i64>) -> i64
    decreases nums.len(),
{
    if nums.len() == 0 {
        0
    } else {
        xor_all(nums.drop_last()) ^ nums.last()
    }
}

/// The exclusive-or of all the numbers.
pub fn xor_fold(nums: &Vec<i64>) -> (x: i64)
    ensures
        x == xor_all(nums@),
{
    let mut x: i64 = 0;
    let mut i: usize = 0;
    while i < nums.len()
        invariant
            i <= nums.len(),
            x == xor_all(nums@.take(i as int)),
        decreases nums.len() - i,
    {
        proof {
            assert(nums@.take(i + 1).drop_last() =~= nums@.take(i as int));
        }
        x = x ^ nums[i];
        i += 1;
    }
    proof {
        assert(nums@.take(i as int) =~= nums@);
    }
    x
}

/// The number that a text spells in decimal: digits, with one sign before
/// them or none, and a value that fits in 64 bits. Every other text spells
/// no number.
pub open spec fn parsed_i64(s: Seq<char>) -> Option<i64> {
    let signed = s.len() > 0 && (s[0] == '+' || s[0] == '-');
    let digits = if signed {
        s.drop_first()
    } else {
        s
    };
    let value = if s.len() > 0 && s[0] == '-' {
        -(decimal_value(digits) as int)
    } else {
        decimal_value(digits) as int
    };
    if digits.len() > 0 && all_digits(digits) && i64::MIN <= value <= i64::MAX {
        Some(value as i64)
    } else {
        None
    }
}

/// Calls `str::parse` of the standard library, for `i64`.
///
/// Trusted: the call succeeds exactly on decimal digits with an optional
/// sign before them whose value fits in 64 bits, and gives that value.
#[verifier::external_body]
fn parse_i64(text: &str) -> (n: Option<i64>)
    ensures
        n == parsed_i64(text@),
{
    match text.parse::<i64>() {
        Ok(n) => Some(n),
        Err(_) => None,
    }
}

/// The numbers that the texts spell, one for one, or `None` if one of the
/// texts spells none.
pub open spec fn parsed_all(texts: Seq<Seq<char>>) -> Option<Seq<i64>> {
    if forall|i: int| 0 <= i < texts.len() ==> parsed_i64(#[trigger] texts[i]) is Some {
        Some(Seq::new(texts.len(), |i: int| parsed_i64(texts[i])->0))
    } else {
        None
    }
}

/// The third power of `x`, where it fits in 64 bits.
pub open spec fn cube(x: i64) -> Option<i64> {
    if i64::MIN <= x * x * x <= i64::MAX {
        Some((x * x * x) as i64)
    } else {
        None
    }
}

/// The cube of the exclusive-or of the numbers that `path` lists with `/`
/// between them.
pub open spec fn cube_of_path(path: Seq<char>) -> Option<i64> {
    match parsed_all(pieces(path, '/')) {
        Some(nums) => cube(xor_all(nums)),
        None => None,
    }
}

/// The third power of `x`, or `None` where it does not fit in 64 bits.
pub fn checked_cube(x: i64) -> (c: Option<i64>)
    ensures
        c == cube(x),
{
    match x.checked_mul(x) {
        Some(square) => {
            let c = square.checked_mul(x);
            assert(square * x == x * x * x);
            c
        },
        None => {
            proof {
                lemma_cube_exceeds_square(x as int);
            }
            None
        },
    }
}

proof fn lemma_cube_exceeds_square(x: int)
    requires
        x * x > i64::MAX || x * x < i64::MIN,
    ensures
        x * x * x > i64::MAX || x * x * x < i64::MIN,
{
    let square = x * x;
    assert(square >= 0) by (nonlinear_arith)
        requires
            square == x * x,
    ;
    assert(x >= 2 || x <= -2) by (nonlinear_arith)
        requires
            x * x > 1,
    ;
    if x >= 2 {
        assert(square * x >= square) by (nonlinear_arith)
            requires
                x >= 2,
                square >= 0,
        ;
    } else {
        assert(square * x <= -2 * square) by (nonlinear_arith)
            requires
                x <= -2,
                square >= 0,
        ;
    }
}

/// Reads the numbers that `nums` lists with `/` between them and cubes
/// their exclusive-or. `None` where a part of the list is no number, or
/// where the cube does not fit in 64 bits.
pub fn cube_bits(nums: &str) -> (result: Option<i64>)
    ensures
        result == cube_of_path(nums@),
{
    let strings = split(nums, '/');
    let mut numbers: Vec<i64> = Vec::new();
    let mut i: usize = 0;
    while i < strings.len()
        invariant
            i <= strings.len(),
            part_views(strings@) == pieces(nums@, '/'),
            numbers@.len() == i,
            forall|k: int|
                0 <= k < i ==> parsed_i64(#[trigger] part_views(strings@)[k]) == Some(numbers@[k]),
        decreases strings.len() - i,
    {
        let string: &str = strings[i];
        assert(part_views(strings@)[i as int] == string@);
        match parse_i64(string) {
            Some(number) => numbers.push(number),
            None => { return None; },
        }
        i += 1;
    }
    proof {
        assert(numbers@ =~= parsed_all(pieces(nums@, '/'))->0);
    }
    checked_cube(xor_fold(&numbers))
}

} // verus!
