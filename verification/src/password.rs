//! The password game: nine content rules, checked in a fixed order. The
//! outcome of a text is the signal of the first rule it fails.

use crate::digest::{sha256_hex, sha256_hex_digits};
use crate::text::{all_digits, decimal_value, digit_value, in_range, is_digit, to_chars};
use vstd::prelude::*;

verus! {

/// A submitted password.
pub struct Password {
    pub input: String,
}

/// What the cascade says of a text: the signal of the first rule that fails,
/// or `Accepted` when all nine hold.
#[derive(Clone, Copy, Debug, PartialEq, Eq, Structural)]
pub enum ValidationOutcome {
    TooShort,
    MissingCharacterClass,
    TooFewDigits,
    DigitSumMismatch,
    NoRepeatedChar,
    MissingRestrictedSymbol,
    MissingWideCharacter,
    MissingEmoji,
    HashSuffixMismatch,
    Accepted,
}

/// The nine rules, in the order in which they are checked.
#[derive(Clone, Copy, Debug, PartialEq, Eq, Structural)]
pub enum Rule {
    Length,
    CharacterClasses,
    DigitCount,
    DigitSum,
    RepeatedChar,
    RestrictedSymbol,
    WideCharacter,
    Emoji,
    HashSuffix,
}

/// The least number of characters.
pub const MIN_LENGTH: usize = 8;

/// The least number of decimal digits.
pub const MIN_DIGITS: usize = 5;

/// What the digit runs must add up to.
pub const DIGIT_SUM: u32 = 2023;

/// Whether some character of `s` lies between `lo` and `hi`.
pub open spec fn has_in_range(s: Seq<char>, lo: char, hi: char) -> bool {
    exists|i: int| 0 <= i < s.len() && in_range(#[trigger] s[i], lo, hi)
}

/// The number of decimal digits in `s`, each digit counted by itself.
pub open spec fn count_digits(s: Seq<char>) -> nat
    decreases s.len(),
{
    if s.len() == 0 {
        0
    } else {
        count_digits(s.drop_last()) + if is_digit(s.last()) {
            1nat
        } else {
            0nat
        }
    }
}

/// The sum of the digit runs of `s`, where `open` is the value of the digits
/// that stand immediately before `s`: the run that `s` starts with, if any,
/// continues them.
pub open spec fn run_sum_from(open: nat, s: Seq<char>) -> nat
    decreases s.len(),
{
    if s.len() == 0 {
        open
    } else if is_digit(s[0]) {
        run_sum_from(10 * open + digit_value(s[0]), s.drop_first())
    } else {
        open + run_sum_from(0, s.drop_first())
    }
}

/// The sum of all digit runs of `s`, each maximal run of decimal digits read
/// as one number.
pub open spec fn digit_run_sum(s: Seq<char>) -> nat {
    run_sum_from(0, s)
}

/// Whether two neighbouring characters of `s` are the same.
pub open spec fn has_adjacent_repeat(s: Seq<char>) -> bool {
    exists|i: int| 0 <= i < s.len() - 1 && #[trigger] s[i] == s[i + 1]
}

/// A character of the blocks that the eighth rule accepts: emoticons,
/// pictographs, transport symbols, miscellaneous symbols and dingbats.
pub open spec fn is_emoji(c: char) -> bool {
    ||| in_range(c, '\u{1F600}', '\u{1F64F}')
    ||| in_range(c, '\u{1F300}', '\u{1F5FF}')
    ||| in_range(c, '\u{1F680}', '\u{1F6FF}')
    ||| in_range(c, '\u{2600}', '\u{26FF}')
    ||| in_range(c, '\u{2700}', '\u{27BF}')
}

/// Whether some character of `s` is an emoji.
pub open spec fn has_emoji(s: Seq<char>) -> bool {
    exists|i: int| 0 <= i < s.len() && is_emoji(#[trigger] s[i])
}

impl Rule {
    /// The place of the rule in the order of evaluation, from 1 to 9.
    pub open spec fn position(self) -> nat {
        match self {
            Rule::Length => 1,
            Rule::CharacterClasses => 2,
            Rule::DigitCount => 3,
            Rule::DigitSum => 4,
            Rule::RepeatedChar => 5,
            Rule::RestrictedSymbol => 6,
            Rule::WideCharacter => 7,
            Rule::Emoji => 8,
            Rule::HashSuffix => 9,
        }
    }

    /// The signal that the rule gives when it fails.
    pub open spec fn signal(self) -> ValidationOutcome {
        match self {
            Rule::Length => ValidationOutcome::TooShort,
            Rule::CharacterClasses => ValidationOutcome::MissingCharacterClass,
            Rule::DigitCount => ValidationOutcome::TooFewDigits,
            Rule::DigitSum => ValidationOutcome::DigitSumMismatch,
            Rule::RepeatedChar => ValidationOutcome::NoRepeatedChar,
            Rule::RestrictedSymbol => ValidationOutcome::MissingRestrictedSymbol,
            Rule::WideCharacter => ValidationOutcome::MissingWideCharacter,
            Rule::Emoji => ValidationOutcome::MissingEmoji,
            Rule::HashSuffix => ValidationOutcome::HashSuffixMismatch,
        }
    }

    /// Whether the text `s`, taken exactly as it is, satisfies the rule.
    pub open spec fn holds(self, s: Seq<char>) -> bool {
        match self {
            Rule::Length => s.len() >= MIN_LENGTH,
            Rule::CharacterClasses => {
                &&& has_in_range(s, 'A', 'Z')
                &&& has_in_range(s, 'a', 'z')
                &&& has_in_range(s, '0', '9')
            },
            Rule::DigitCount => count_digits(s) >= MIN_DIGITS,
            Rule::DigitSum => digit_run_sum(s) == DIGIT_SUM,
            Rule::RepeatedChar => has_adjacent_repeat(s),
            Rule::RestrictedSymbol => has_in_range(s, '\u{2980}', '\u{2BFF}'),
            Rule::WideCharacter => has_in_range(s, '\u{10000}', '\u{10FFFF}'),
            Rule::Emoji => has_emoji(s),
            Rule::HashSuffix => sha256_hex(s).len() > 0 && sha256_hex(s).last() == 'a',
        }
    }
}

impl ValidationOutcome {
    /// The code of the outcome: the signals of the nine rules have the codes
    /// 0 to 8, in the order of the rules, and acceptance has the code 9.
    pub open spec fn ordinal(self) -> nat {
        match self {
            ValidationOutcome::TooShort => 0,
            ValidationOutcome::MissingCharacterClass => 1,
            ValidationOutcome::TooFewDigits => 2,
            ValidationOutcome::DigitSumMismatch => 3,
            ValidationOutcome::NoRepeatedChar => 4,
            ValidationOutcome::MissingRestrictedSymbol => 5,
            ValidationOutcome::MissingWideCharacter => 6,
            ValidationOutcome::MissingEmoji => 7,
            ValidationOutcome::HashSuffixMismatch => 8,
            ValidationOutcome::Accepted => 9,
        }
    }

    /// The code of the outcome, from 0 to 9.
    pub fn code(&self) -> (code: u8)
        ensures
            code == self.ordinal(),
    {
        match self {
            ValidationOutcome::TooShort => 0,
            ValidationOutcome::MissingCharacterClass => 1,
            ValidationOutcome::TooFewDigits => 2,
            ValidationOutcome::DigitSumMismatch => 3,
            ValidationOutcome::NoRepeatedChar => 4,
            ValidationOutcome::MissingRestrictedSymbol => 5,
            ValidationOutcome::MissingWideCharacter => 6,
            ValidationOutcome::MissingEmoji => 7,
            ValidationOutcome::HashSuffixMismatch => 8,
            ValidationOutcome::Accepted => 9,
        }
    }
}

/// Every outcome has a code of its own, and the code of a rule's signal is
/// one less than the place of the rule.
pub proof fn lemma_codes_are_distinct(a: ValidationOutcome, b: ValidationOutcome, rule: Rule)
    ensures
        a.ordinal() == b.ordinal() ==> a == b,
        rule.signal().ordinal() + 1 == rule.position(),
        rule.signal() != ValidationOutcome::Accepted,
{
}

/// The outcome of the cascade on the text `s`.
pub open spec fn validation_outcome(s: Seq<char>) -> ValidationOutcome {
    if !Rule::Length.holds(s) {
        ValidationOutcome::TooShort
    } else if !Rule::CharacterClasses.holds(s) {
        ValidationOutcome::MissingCharacterClass
    } else if !Rule::DigitCount.holds(s) {
        ValidationOutcome::TooFewDigits
    } else if !Rule::DigitSum.holds(s) {
        ValidationOutcome::DigitSumMismatch
    } else if !Rule::RepeatedChar.holds(s) {
        ValidationOutcome::NoRepeatedChar
    } else if !Rule::RestrictedSymbol.holds(s) {
        ValidationOutcome::MissingRestrictedSymbol
    } else if !Rule::WideCharacter.holds(s) {
        ValidationOutcome::MissingWideCharacter
    } else if !Rule::Emoji.holds(s) {
        ValidationOutcome::MissingEmoji
    } else if !Rule::HashSuffix.holds(s) {
        ValidationOutcome::HashSuffixMismatch
    } else {
        ValidationOutcome::Accepted
    }
}

proof fn lemma_run_grows_by_digit(open: nat, digits: Seq<char>, c: char)
    requires
        all_digits(digits),
        is_digit(c),
    ensures
        run_sum_from(open, digits.push(c)) == 10 * run_sum_from(open, digits) + digit_value(c),
    decreases digits.len(),
{
    let longer = digits.push(c);
    if digits.len() == 0 {
        assert(longer.drop_first() =~= Seq::<char>::empty());
        assert(run_sum_from(10 * open + digit_value(c), longer.drop_first()) == 10 * open
            + digit_value(c));
    } else {
        assert(longer[0] == digits[0]);
        assert(longer.drop_first() =~= digits.drop_first().push(c));
        lemma_run_grows_by_digit(10 * open + digit_value(digits[0]), digits.drop_first(), c);
    }
}

/// A text made of decimal digits only is one run, and its sum is the number
/// that the digits spell.
pub proof fn lemma_single_run(digits: Seq<char>)
    requires
        all_digits(digits),
    ensures
        digit_run_sum(digits) == decimal_value(digits),
    decreases digits.len(),
{
    if digits.len() > 0 {
        let front = digits.drop_last();
        assert(front.push(digits.last()) =~= digits);
        lemma_single_run(front);
        lemma_run_grows_by_digit(0, front, digits.last());
    }
}

proof fn lemma_run_sum_splits_from(open: nat, a: Seq<char>, b: Seq<char>)
    requires
        b.len() == 0 || !is_digit(b[0]) || if a.len() == 0 {
            open == 0
        } else {
            !is_digit(a.last())
        },
    ensures
        run_sum_from(open, a + b) == run_sum_from(open, a) + digit_run_sum(b),
    decreases a.len(),
{
    if a.len() == 0 {
        assert(a + b =~= b);
        if b.len() > 0 && !is_digit(b[0]) {
            assert(run_sum_from(open, b) == open + run_sum_from(0, b.drop_first()));
            assert(digit_run_sum(b) == run_sum_from(0, b.drop_first()));
        }
    } else {
        assert((a + b)[0] == a[0]);
        assert((a + b).drop_first() =~= a.drop_first() + b);
        if a.len() > 1 {
            assert(a.drop_first().last() == a.last());
        }
        if is_digit(a[0]) {
            lemma_run_sum_splits_from(10 * open + digit_value(a[0]), a.drop_first(), b);
        } else {
            lemma_run_sum_splits_from(0, a.drop_first(), b);
        }
    }
}

/// Where no digit run crosses the place at which two texts are joined, the
/// sum of the whole is the sum of the two parts.
pub proof fn lemma_run_sum_splits(a: Seq<char>, b: Seq<char>)
    requires
        a.len() == 0 || !is_digit(a.last()) || b.len() == 0 || !is_digit(b[0]),
    ensures
        digit_run_sum(a + b) == digit_run_sum(a) + digit_run_sum(b),
{
    lemma_run_sum_splits_from(0, a, b);
}

/// A character that is no digit adds nothing to the sum.
pub proof fn lemma_run_sum_skips_other(c: char)
    requires
        !is_digit(c),
    ensures
        digit_run_sum(seq![c]) == 0,
{
    assert(seq![c].drop_first() =~= Seq::<char>::empty());
    assert(run_sum_from(0, seq![c].drop_first()) == 0);
}

/// First failure wins: a text that fails `rule` and satisfies every rule
/// before it gets the signal of `rule`, whatever the later rules say of it.
pub proof fn lemma_first_failure_wins(s: Seq<char>, rule: Rule)
    requires
        !rule.holds(s),
        forall|earlier: Rule| earlier.position() < rule.position() ==> earlier.holds(s),
    ensures
        validation_outcome(s) == rule.signal(),
{
    assert(rule.position() > 1 ==> Rule::Length.holds(s));
    assert(rule.position() > 2 ==> Rule::CharacterClasses.holds(s));
    assert(rule.position() > 3 ==> Rule::DigitCount.holds(s));
    assert(rule.position() > 4 ==> Rule::DigitSum.holds(s));
    assert(rule.position() > 5 ==> Rule::RepeatedChar.holds(s));
    assert(rule.position() > 6 ==> Rule::RestrictedSymbol.holds(s));
    assert(rule.position() > 7 ==> Rule::WideCharacter.holds(s));
    assert(rule.position() > 8 ==> Rule::Emoji.holds(s));
}

/// A text is accepted exactly when it satisfies all nine rules.
pub proof fn lemma_accepted_iff_all_rules_hold(s: Seq<char>)
    ensures
        validation_outcome(s) == ValidationOutcome::Accepted <==> forall|rule: Rule| rule.holds(s),
{
    if validation_outcome(s) == ValidationOutcome::Accepted {
        assert forall|rule: Rule| rule.holds(s) by {
            match rule {
                Rule::Length => {},
                Rule::CharacterClasses => {},
                Rule::DigitCount => {},
                Rule::DigitSum => {},
                Rule::RepeatedChar => {},
                Rule::RestrictedSymbol => {},
                Rule::WideCharacter => {},
                Rule::Emoji => {},
                Rule::HashSuffix => {},
            }
        }
    } else {
        assert(!Rule::Length.holds(s) || !Rule::CharacterClasses.holds(s)
            || !Rule::DigitCount.holds(s) || !Rule::DigitSum.holds(s)
            || !Rule::RepeatedChar.holds(s) || !Rule::RestrictedSymbol.holds(s)
            || !Rule::WideCharacter.holds(s) || !Rule::Emoji.holds(s)
            || !Rule::HashSuffix.holds(s));
    }
}

/// A failure signal names a rule that the text does fail, and no rule before
/// that one fails.
pub proof fn lemma_signal_names_first_failing_rule(s: Seq<char>, rule: Rule)
    requires
        validation_outcome(s) == rule.signal(),
    ensures
        !rule.holds(s),
        forall|earlier: Rule| earlier.position() < rule.position() ==> earlier.holds(s),
{
    assert forall|earlier: Rule| earlier.position() < rule.position() implies earlier.holds(s) by {
        match earlier {
            Rule::Length => {},
            Rule::CharacterClasses => {},
            Rule::DigitCount => {},
            Rule::DigitSum => {},
            Rule::RepeatedChar => {},
            Rule::RestrictedSymbol => {},
            Rule::WideCharacter => {},
            Rule::Emoji => {},
            Rule::HashSuffix => {},
        }
    }
}

/// The outcome is a function of the text: two evaluations of one text, each
/// as `game_password` promises it, agree.
pub proof fn lemma_outcome_is_determined(
    a: Seq<char>,
    b: Seq<char>,
    outcome_a: ValidationOutcome,
    outcome_b: ValidationOutcome,
)
    requires
        a == b,
        outcome_a == validation_outcome(a),
        outcome_b == validation_outcome(b),
    ensures
        outcome_a == outcome_b,
{
}

/// Whether some character of `chars` lies between `lo` and `hi`, both included.
pub fn contains_in_range(chars: &Vec<char>, lo: char, hi: char) -> (found: bool)
    ensures
        found == has_in_range(chars@, lo, hi),
{
    let mut i: usize = 0;
    while i < chars.len()
        invariant
            i <= chars.len(),
            forall|k: int| 0 <= k < i ==> !in_range(#[trigger] chars@[k], lo, hi),
        decreases chars.len() - i,
    {
        let c: char = chars[i];
        if lo as u32 <= c as u32 && c as u32 <= hi as u32 {
            return true;
        }
        i += 1;
    }
    false
}

/// The number of decimal digits among `chars`.
pub fn digit_count(chars: &Vec<char>) -> (count: usize)
    ensures
        count == count_digits(chars@),
{
    let mut count: usize = 0;
    let mut i: usize = 0;
    while i < chars.len()
        invariant
            i <= chars.len(),
            count <= i,
            count == count_digits(chars@.take(i as int)),
        decreases chars.len() - i,
    {
        let c: char = chars[i];
        proof {
            assert(chars@.take(i + 1).drop_last() =~= chars@.take(i as int));
        }
        if '0' as u32 <= c as u32 && c as u32 <= '9' as u32 {
            count += 1;
        }
        i += 1;
    }
    proof {
        assert(chars@.take(i as int) =~= chars@);
    }
    count
}

/// Whether the digit runs of `chars` add up to `expected`.
///
/// The runs may be longer than any machine integer: the sums are followed
/// only up to the first value above `expected`, which no later run can undo.
pub fn digit_runs_sum_to(chars: &Vec<char>, expected: u32) -> (equal: bool)
    ensures
        equal == (digit_run_sum(chars@) == expected),
{
    let cap: u64 = expected as u64 + 1;
    let mut closed: u64 = 0;
    let mut open: u64 = 0;
    let ghost closed_value: nat = 0;
    let ghost open_value: nat = 0;
    let mut i: usize = 0;
    proof {
        assert(chars@.skip(0) =~= chars@);
    }
    while i < chars.len()
        invariant
            i <= chars.len(),
            cap == expected + 1,
            closed == if closed_value < cap { closed_value } else { cap as nat },
            open == if open_value < cap { open_value } else { cap as nat },
            closed_value + run_sum_from(open_value, chars@.skip(i as int)) == digit_run_sum(chars@),
        decreases chars.len() - i,
    {
        let c: char = chars[i];
        proof {
            assert(chars@.skip(i as int)[0] == chars@[i as int]);
            assert(chars@.skip(i as int).drop_first() =~= chars@.skip(i + 1));
        }
        if '0' as u32 <= c as u32 && c as u32 <= '9' as u32 {
            let digit: u64 = (c as u32 - '0' as u32) as u64;
            let next: u64 = 10 * open + digit;
            open = if next < cap { next } else { cap };
            proof {
                open_value = 10 * open_value + digit_value(c);
            }
        } else {
            let next: u64 = closed + open;
            closed = if next < cap { next } else { cap };
            open = 0;
            proof {
                closed_value = closed_value + open_value;
                open_value = 0;
            }
        }
        i += 1;
    }
    closed + open == expected as u64
}

/// Whether two neighbouring characters of `chars` are the same.
pub fn contains_adjacent_repeat(chars: &Vec<char>) -> (found: bool)
    ensures
        found == has_adjacent_repeat(chars@),
{
    let mut i: usize = 1;
    while i < chars.len()
        invariant
            1 <= i,
            forall|k: int| 0 <= k < i - 1 && k < chars@.len() - 1 ==> #[trigger] chars@[k] != chars@[k + 1],
        decreases chars.len() - i,
    {
        if chars[i - 1] == chars[i] {
            return true;
        }
        i += 1;
    }
    false
}

/// Whether some character of `chars` is an emoji.
pub fn contains_emoji(chars: &Vec<char>) -> (found: bool)
    ensures
        found == has_emoji(chars@),
{
    contains_in_range(chars, '\u{1F600}', '\u{1F64F}')
        || contains_in_range(chars, '\u{1F300}', '\u{1F5FF}')
        || contains_in_range(chars, '\u{1F680}', '\u{1F6FF}')
        || contains_in_range(chars, '\u{2600}', '\u{26FF}')
        || contains_in_range(chars, '\u{2700}', '\u{27BF}')
}

/// Whether the hexadecimal SHA-256 digest of the UTF-8 bytes of `text` ends
/// in the digit `a`.
pub fn digest_ends_in_a(text: &str) -> (ends: bool)
    ensures
        ends == Rule::HashSuffix.holds(text@),
{
    let hex = sha256_hex_digits(text);
    hex[63] == 'a'
}

impl Rule {
    /// Whether `text` satisfies the rule.
    pub fn check(self, text: &str) -> (holds: bool)
        ensures
            holds == self.holds(text@),
    {
        let chars = to_chars(text);
        match self {
            Rule::Length => chars.len() >= MIN_LENGTH,
            Rule::CharacterClasses => contains_in_range(&chars, 'A', 'Z') && contains_in_range(
                &chars,
                'a',
                'z',
            ) && contains_in_range(&chars, '0', '9'),
            Rule::DigitCount => digit_count(&chars) >= MIN_DIGITS,
            Rule::DigitSum => digit_runs_sum_to(&chars, DIGIT_SUM),
            Rule::RepeatedChar => contains_adjacent_repeat(&chars),
            Rule::RestrictedSymbol => contains_in_range(&chars, '\u{2980}', '\u{2BFF}'),
            Rule::WideCharacter => contains_in_range(&chars, '\u{10000}', '\u{10FFFF}'),
            Rule::Emoji => contains_emoji(&chars),
            Rule::HashSuffix => digest_ends_in_a(text),
        }
    }

    /// The signal that the rule gives when it fails.
    pub fn failure(self) -> (signal: ValidationOutcome)
        ensures
            signal == self.signal(),
    {
        match self {
            Rule::Length => ValidationOutcome::TooShort,
            Rule::CharacterClasses => ValidationOutcome::MissingCharacterClass,
            Rule::DigitCount => ValidationOutcome::TooFewDigits,
            Rule::DigitSum => ValidationOutcome::DigitSumMismatch,
            Rule::RepeatedChar => ValidationOutcome::NoRepeatedChar,
            Rule::RestrictedSymbol => ValidationOutcome::MissingRestrictedSymbol,
            Rule::WideCharacter => ValidationOutcome::MissingWideCharacter,
            Rule::Emoji => ValidationOutcome::MissingEmoji,
            Rule::HashSuffix => ValidationOutcome::HashSuffixMismatch,
        }
    }
}

/// Checks the nine rules in their order and gives the signal of the first one
/// that fails, or `Accepted`.
pub fn game_password(password: &Password) -> (outcome: ValidationOutcome)
    ensures
        outcome == validation_outcome(password.input@),
{
    let text: &str = password.input.as_str();
    let chars = to_chars(text);
    if chars.len() < MIN_LENGTH {
        ValidationOutcome::TooShort
    } else if !(contains_in_range(&chars, 'A', 'Z') && contains_in_range(&chars, 'a', 'z')
        && contains_in_range(&chars, '0', '9')) {
        ValidationOutcome::MissingCharacterClass
    } else if digit_count(&chars) < MIN_DIGITS {
        ValidationOutcome::TooFewDigits
    } else if !digit_runs_sum_to(&chars, DIGIT_SUM) {
        ValidationOutcome::DigitSumMismatch
    } else if !contains_adjacent_repeat(&chars) {
        ValidationOutcome::NoRepeatedChar
    } else if !contains_in_range(&chars, '\u{2980}', '\u{2BFF}') {
        ValidationOutcome::MissingRestrictedSymbol
    } else if !contains_in_range(&chars, '\u{10000}', '\u{10FFFF}') {
        ValidationOutcome::MissingWideCharacter
    } else if !contains_emoji(&chars) {
        ValidationOutcome::MissingEmoji
    } else if !digest_ends_in_a(text) {
        ValidationOutcome::HashSuffixMismatch
    } else {
        ValidationOutcome::Accepted
    }
}

} // verus!
