//! Analysis of 128-bit time-ordered identifiers: 48 bits of milliseconds
//! since the start of 1970, then 80 bits of payload, written as 26 digits of
//! Crockford's base 32.

use crate::calendar::{calendar_day, utc_calendar_day, utc_now_millis, CalendarDay, Date};
use ulid::Ulid;
use vstd::prelude::*;

verus! {

/// The value of a digit of Crockford's base 32, in either case; `I`, `L`,
/// `O` and `U` are no digits.
pub open spec fn base32_digit(c: char) -> Option<nat> {
    let upper: char = if 'a' <= c <= 'z' {
        ((c as u32) - 32) as char
    } else {
        c
    };
    if '0' <= upper <= '9' {
        Some((upper as u32 - '0' as u32) as nat)
    } else if 'A' <= upper <= 'H' {
        Some((upper as u32 - 'A' as u32 + 10) as nat)
    } else if 'J' <= upper <= 'K' {
        Some((upper as u32 - 'J' as u32 + 18) as nat)
    } else if 'M' <= upper <= 'N' {
        Some((upper as u32 - 'M' as u32 + 20) as nat)
    } else if 'P' <= upper <= 'T' {
        Some((upper as u32 - 'P' as u32 + 22) as nat)
    } else if 'V' <= upper <= 'Z' {
        Some((upper as u32 - 'V' as u32 + 27) as nat)
    } else {
        None
    }
}

/// The number that a sequence of base-32 digits spells, the first digit
/// being the most significant.
pub open spec fn base32_number(digits: Seq<char>) -> nat
    decreases digits.len(),
{
    if digits.len() == 0 {
        0
    } else {
        32 * base32_number(digits.drop_last()) + match base32_digit(digits.last()) {
            Some(d) => d,
            None => 0,
        }
    }
}

/// The identifier that `text` encodes: `text` must be 26 base-32 digits. They
/// spell 130 bits, of which the identifier keeps the lower 128.
pub open spec fn ulid_value(text: Seq<char>) -> Option<u128> {
    if text.len() == 26 && forall|i: int| 0 <= i < text.len() ==> base32_digit(#[trigger] text[i]) is Some {
        Some((base32_number(text) % 0x1_0000_0000_0000_0000_0000_0000_0000_0000nat) as u128)
    } else {
        None
    }
}

/// The number that a sequence of bytes spells, the first byte being the most
/// significant.
pub open spec fn big_endian(bytes: Seq<u8>) -> nat
    decreases bytes.len(),
{
    if bytes.len() == 0 {
        0
    } else {
        256 * big_endian(bytes.drop_last()) + bytes.last() as nat
    }
}

/// Bytes in big-endian order are determined by the number they spell and by
/// how many they are.
pub proof fn lemma_big_endian_is_injective(a: Seq<u8>, b: Seq<u8>)
    requires
        a.len() == b.len(),
        big_endian(a) == big_endian(b),
    ensures
        a == b,
    decreases a.len(),
{
    if a.len() > 0 {
        lemma_big_endian_is_injective(a.drop_last(), b.drop_last());
        assert(a =~= a.drop_last().push(a.last()));
        assert(b =~= b.drop_last().push(b.last()));
    }
    assert(a =~= b);
}

/// The milliseconds since the start of 1970 in the upper 48 bits of `id`.
pub open spec fn timestamp_of(id: u128) -> nat {
    (id as nat) / 0x1_0000_0000_0000_0000_0000
}

/// The error of the `ulid` crate's decoder, of which nothing is read.
#[verifier::external_type_specification]
#[verifier::external_body]
pub struct ExDecodeError(ulid::DecodeError);

/// Calls `Ulid::from_string` of the `ulid` crate and takes the 128-bit value
/// out of the identifier.
///
/// Trusted: the call succeeds exactly on 26 digits of Crockford's base 32,
/// upper or lower case, and the value is the number they spell, cut to 128
/// bits.
#[verifier::external_body]
fn ulid_from_string(text: &str) -> (decoded: Result<u128, ulid::DecodeError>)
    ensures
        match decoded {
            Ok(id) => ulid_value(text@) == Some(id),
            Err(_) => ulid_value(text@) is None,
        },
{
    Ulid::from_string(text).map(|id| id.0)
}

/// Calls `Ulid::timestamp_ms` of the `ulid` crate.
///
/// Trusted: the result is the identifier shifted right by 80 bits.
#[verifier::external_body]
fn ulid_timestamp_ms(id: u128) -> (millis: u64)
    ensures
        millis == timestamp_of(id),
{
    Ulid(id).timestamp_ms()
}

/// Calls `Ulid::to_bytes` of the `ulid` crate.
///
/// Trusted: the 16 bytes are the identifier in big-endian order.
#[verifier::external_body]
fn ulid_to_bytes(id: u128) -> (bytes: [u8; 16])
    ensures
        big_endian(bytes@) == id,
{
    Ulid(id).to_bytes()
}

/// The four counts of an analysis.
#[derive(Clone, Copy, Debug, PartialEq, Eq, Structural)]
pub struct UlidCalc {
    pub christmas_eve: u64,
    pub weekday: u64,
    pub in_the_future: u64,
    pub lsb_is_1: u64,
}

impl UlidCalc {
    /// The four counts as one record.
    pub fn new(
        christmas_counter: u64,
        weekday_counter: u64,
        future_counter: u64,
        lsb_counter: u64,
    ) -> (calc: Self)
        ensures
            calc == (UlidCalc {
                christmas_eve: christmas_counter,
                weekday: weekday_counter,
                in_the_future: future_counter,
                lsb_is_1: lsb_counter,
            }),
    {
        UlidCalc {
            christmas_eve: christmas_counter,
            weekday: weekday_counter,
            in_the_future: future_counter,
            lsb_is_1: lsb_counter,
        }
    }
}

/// Why a batch of identifiers has no analysis.
#[derive(Clone, Copy, Debug, PartialEq, Eq, Structural)]
pub enum AnalysisError {
    /// Some text of the batch is no identifier.
    MalformedIdentifier,
    /// The calendar does not reach the instant given as the present.
    ClockOutOfRange,
    /// The calendar does not reach the timestamp of some identifier.
    TimestampOutOfRange,
}

/// The texts of a sequence of strings.
pub open spec fn texts(strings: Seq<String>) -> Seq<Seq<char>> {
    strings.map_values(|s: String| s@)
}

/// The identifiers that `texts` encode, one for one, or `None` if one of the
/// texts encodes none.
pub open spec fn decode_all(texts: Seq<Seq<char>>) -> Option<Seq<u128>> {
    if forall|i: int| 0 <= i < texts.len() ==> ulid_value(#[trigger] texts[i]) is Some {
        Some(Seq::new(texts.len(), |i: int| ulid_value(texts[i])->0))
    } else {
        None
    }
}

/// The UTC calendar day of the timestamp of `id`.
pub open spec fn day_of(id: u128) -> Option<CalendarDay> {
    utc_calendar_day(timestamp_of(id) as i64)
}

/// Whether the timestamp of `id` lies on a 24th of December.
pub open spec fn on_christmas_eve(id: u128) -> bool {
    day_of(id) matches Some(d) && d.date.christmas_eve()
}

/// Whether the timestamp of `id` lies on the day of the week `weekday`,
/// counted from Monday (0) to Sunday (6).
pub open spec fn on_weekday(id: u128, weekday: u32) -> bool {
    day_of(id) matches Some(d) && d.weekday == weekday
}

/// Whether the timestamp of `id` lies on a calendar day after `today`.
pub open spec fn after_day(id: u128, today: Date) -> bool {
    day_of(id) matches Some(d) && d.date.later_than(today)
}

/// Whether the least-significant bit of `id` is 1.
pub open spec fn low_bit_set(id: u128) -> bool {
    id % 2 == 1
}

/// The number of places of `s` whose item satisfies `p`.
pub open spec fn count_where<T>(s: Seq<T>, p: spec_fn(T) -> bool) -> nat
    decreases s.len(),
{
    if s.len() == 0 {
        0
    } else {
        count_where(s.drop_last(), p) + if p(s.last()) {
            1nat
        } else {
            0nat
        }
    }
}

/// How many of `ids` are stamped on a 24th of December.
pub open spec fn christmas_eve_count(ids: Seq<u128>) -> nat {
    count_where(ids, |id: u128| on_christmas_eve(id))
}

/// How many of `ids` are stamped on the day of the week `weekday`.
pub open spec fn weekday_count(ids: Seq<u128>, weekday: u32) -> nat {
    count_where(ids, |id: u128| on_weekday(id, weekday))
}

/// How many of `ids` are stamped on a calendar day after `today`.
pub open spec fn future_count(ids: Seq<u128>, today: Date) -> nat {
    count_where(ids, |id: u128| after_day(id, today))
}

/// How many of `ids` have their last bit set.
pub open spec fn low_bit_count(ids: Seq<u128>) -> nat {
    count_where(ids, |id: u128| low_bit_set(id))
}

/// The four counts over `ids`. Each identifier is counted by every predicate
/// that it meets.
pub open spec fn tally(ids: Seq<u128>, weekday: u32, today: Date) -> UlidCalc {
    UlidCalc {
        christmas_eve: christmas_eve_count(ids) as u64,
        weekday: weekday_count(ids, weekday) as u64,
        in_the_future: future_count(ids, today) as u64,
        lsb_is_1: low_bit_count(ids) as u64,
    }
}

/// The analysis of a batch of encoded identifiers for a target day of the
/// week, at the instant `now` (milliseconds since the start of 1970). A
/// batch with a text that is no identifier has none.
pub open spec fn analysis(texts: Seq<Seq<char>>, weekday: u32, now: i64) -> Result<
    UlidCalc,
    AnalysisError,
> {
    match decode_all(texts) {
        None => Err(AnalysisError::MalformedIdentifier),
        Some(ids) => match utc_calendar_day(now) {
            None => Err(AnalysisError::ClockOutOfRange),
            Some(today) => if exists|i: int| 0 <= i < ids.len() && day_of(#[trigger] ids[i]) is None {
                Err(AnalysisError::TimestampOutOfRange)
            } else {
                Ok(tally(ids, weekday, today.date))
            },
        },
    }
}

/// No count exceeds the number of items.
pub proof fn lemma_count_where_bound<T>(s: Seq<T>, p: spec_fn(T) -> bool)
    ensures
        count_where(s, p) <= s.len(),
    decreases s.len(),
{
    if s.len() > 0 {
        lemma_count_where_bound(s.drop_last(), p);
    }
}

/// Whether the least-significant bit of the identifier's last byte is set.
pub fn is_lsb_1(ulid_bytes: &[u8; 16]) -> (r: bool)
    ensures
        r == (ulid_bytes[15] % 2 == 1),
{
    let last: u8 = ulid_bytes[15];
    assert(last & 1 == last % 2) by (bit_vector);
    last & 1 == 1
}

/// Decodes every text of the batch, or none if one of them is no identifier.
pub fn decode_ulids(strings: &Vec<String>) -> (ids: Option<Vec<u128>>)
    ensures
        match ids {
            Some(v) => decode_all(texts(strings@)) == Some(v@),
            None => decode_all(texts(strings@)) is None,
        },
{
    let mut ids: Vec<u128> = Vec::new();
    let mut i: usize = 0;
    while i < strings.len()
        invariant
            i <= strings.len(),
            ids@.len() == i,
            forall|k: int| 0 <= k < i ==> ulid_value(#[trigger] texts(strings@)[k]) == Some(ids@[k]),
        decreases strings.len() - i,
    {
        match ulid_from_string(strings[i].as_str()) {
            Ok(id) => {
                assert(texts(strings@)[i as int] == strings@[i as int]@);
                ids.push(id);
            },
            Err(_) => {
                assert(texts(strings@)[i as int] == strings@[i as int]@);
                return None;
            },
        }
        i += 1;
    }
    proof {
        assert(ids@ =~= decode_all(texts(strings@))->0);
    }
    Some(ids)
}

/// Counts, among the identifiers that `strings` encode, those stamped on a
/// 24th of December, those stamped on the day of the week `day` (Monday is
/// 0), those stamped on a calendar day after that of `now`, and those whose
/// last bit is 1. All days are reckoned in UTC.
pub fn analyze_ulids_at(day: u32, strings: &Vec<String>, now: i64) -> (result: Result<
    UlidCalc,
    AnalysisError,
>)
    ensures
        result == analysis(texts(strings@), day, now),
{
    let ids = match decode_ulids(strings) {
        Some(ids) => ids,
        None => { return Err(AnalysisError::MalformedIdentifier); },
    };
    let today = match calendar_day(now) {
        Some(today) => today.date,
        None => { return Err(AnalysisError::ClockOutOfRange); },
    };
    let mut christmas_counter: u64 = 0;
    let mut weekday_counter: u64 = 0;
    let mut future_counter: u64 = 0;
    let mut lsb_counter: u64 = 0;
    let mut i: usize = 0;
    while i < ids.len()
        invariant
            i <= ids.len(),
            decode_all(texts(strings@)) == Some(ids@),
            utc_calendar_day(now) matches Some(t) && t.date == today,
            forall|k: int| 0 <= k < i ==> day_of(#[trigger] ids@[k]) is Some,
            christmas_counter == christmas_eve_count(ids@.take(i as int)),
            weekday_counter == weekday_count(ids@.take(i as int), day),
            future_counter == future_count(ids@.take(i as int), today),
            lsb_counter == low_bit_count(ids@.take(i as int)),
            christmas_counter <= i,
            weekday_counter <= i,
            future_counter <= i,
            lsb_counter <= i,
        decreases ids.len() - i,
    {
        let id: u128 = ids[i];
        let millis: u64 = ulid_timestamp_ms(id);
        assert(millis < 0x1_0000_0000_0000);
        let stamped = match calendar_day(millis as i64) {
            Some(stamped) => stamped,
            None => {
                assert(day_of(ids@[i as int]) is None);
                return Err(AnalysisError::TimestampOutOfRange);
            },
        };
        let bytes = ulid_to_bytes(id);
        proof {
            assert(ids@.take(i + 1).drop_last() =~= ids@.take(i as int));
            assert(ids@.take(i + 1).last() == id);
            assert(big_endian(bytes@) == 256 * big_endian(bytes@.drop_last()) + bytes@[15]);
        }
        if stamped.date.is_christmas_eve() {
            christmas_counter += 1;
        }
        if stamped.weekday == day {
            weekday_counter += 1;
        }
        if stamped.date.is_after(&today) {
            future_counter += 1;
        }
        if is_lsb_1(&bytes) {
            lsb_counter += 1;
        }
        i += 1;
    }
    proof {
        assert(ids@.take(i as int) =~= ids@);
    }
    Ok(UlidCalc::new(christmas_counter, weekday_counter, future_counter, lsb_counter))
}

/// The analysis of the batch at the present instant, as the clock gives it.
pub fn analize_ulids(day: u32, strings: &Vec<String>) -> (result: Result<UlidCalc, AnalysisError>)
    ensures
        exists|now: i64| result == analysis(texts(strings@), day, now),
{
    let now = utc_now_millis();
    analyze_ulids_at(day, strings, now)
}

/// The identifiers of the batch, each as its 16 bytes in big-endian order,
/// the last of the batch first.
pub fn handle_ulids(strings: &Vec<String>) -> (result: Result<Vec<[u8; 16]>, AnalysisError>)
    ensures
        match result {
            Ok(reversed) => {
                &&& decode_all(texts(strings@)) matches Some(ids)
                &&& reversed@.len() == ids.len()
                &&& forall|k: int|
                    0 <= k < ids.len() ==> big_endian(#[trigger] reversed@[k]@) == ids[ids.len() - 1 - k]
            },
            Err(e) => e == AnalysisError::MalformedIdentifier && decode_all(texts(strings@)) is None,
        },
{
    let ids = match decode_ulids(strings) {
        Some(ids) => ids,
        None => { return Err(AnalysisError::MalformedIdentifier); },
    };
    let mut reversed: Vec<[u8; 16]> = Vec::new();
    let mut left: usize = ids.len();
    while left > 0
        invariant
            left <= ids.len(),
            reversed@.len() == ids.len() - left,
            forall|k: int|
                0 <= k < reversed@.len() ==> big_endian(#[trigger] reversed@[k]@) == ids@[ids.len() - 1 - k],
        decreases left,
    {
        left -= 1;
        reversed.push(ulid_to_bytes(ids[left]));
    }
    Ok(reversed)
}

/// Two instants on one calendar day give the same analysis: the count of
/// identifiers in the future changes only when the day does.
pub proof fn lemma_analysis_is_stable_within_a_day(
    texts: Seq<Seq<char>>,
    weekday: u32,
    now: i64,
    later: i64,
)
    requires
        utc_calendar_day(now) matches Some(a) && utc_calendar_day(later) matches Some(b) && a.date
            == b.date,
    ensures
        analysis(texts, weekday, now) == analysis(texts, weekday, later),
{
}

/// Neither the present instant nor the target day of the week has a part in
/// the counts of Christmas Eves and of last bits.
pub proof fn lemma_counts_apart_from_clock(
    ids: Seq<u128>,
    weekday: u32,
    today: Date,
    other_weekday: u32,
    other_day: Date,
)
    ensures
        tally(ids, weekday, today).christmas_eve == tally(ids, other_weekday, other_day).christmas_eve,
        tally(ids, weekday, today).lsb_is_1 == tally(ids, other_weekday, other_day).lsb_is_1,
        tally(ids, weekday, today).weekday == tally(ids, weekday, other_day).weekday,
        tally(ids, weekday, today).in_the_future == tally(ids, other_weekday, today).in_the_future,
{
}

/// An identifier stamped on the present day or before it is not in the
/// future.
pub proof fn lemma_past_is_not_future(id: u128, today: Date)
    requires
        day_of(id) matches Some(d) && (d.date == today || today.later_than(d.date)),
    ensures
        !after_day(id, today),
{
}

/// The analysis is a function of the batch, the target day and the instant:
/// two evaluations of the same three, each as `analyze_ulids_at` promises
/// it, agree.
pub proof fn lemma_analysis_is_determined(
    texts_a: Seq<Seq<char>>,
    texts_b: Seq<Seq<char>>,
    weekday: u32,
    now: i64,
    result_a: Result<UlidCalc, AnalysisError>,
    result_b: Result<UlidCalc, AnalysisError>,
)
    requires
        texts_a == texts_b,
        result_a == analysis(texts_a, weekday, now),
        result_b == analysis(texts_b, weekday, now),
    ensures
        result_a == result_b,
{
}

} // verus!
