use shuttle_christmas::calendar::{calendar_day, CalendarDay, Date};
use shuttle_christmas::ulids::{
    analize_ulids, analyze_ulids_at, decode_ulids, handle_ulids, is_lsb_1, AnalysisError, UlidCalc,
};

// Stamped 2022-12-24 10:00:00 UTC, a Saturday; last bit 1.
const EVE_2022: &str = "01GN1S6E8004HMASW9NF6YY001";
// Stamped 2000-12-24 23:59:59 UTC, a Sunday; last bit 0.
const EVE_2000: &str = "00WEHSNB0R0000000000000002";
// Stamped 2023-06-15 08:30:00 UTC, a Thursday; last bit 1.
const JUNE_2023: &str = "01H2Z2SZT0ZZZZZZZZZZZZZZZZ";
// Stamped 2999-01-01 00:00:00 UTC, a Tuesday; last bit 0.
const YEAR_2999: &str = "0XH219QD001EPW1ZZE00000000";
// Stamped 2024-01-01 00:00:00.005 UTC, a Monday; last bit 1.
const NEW_YEAR_2024: &str = "01HK153X050000000000000007";
// Stamped 2024-01-02 00:00:00 UTC, a Tuesday; last bit 0.
const SECOND_OF_JANUARY_2024: &str = "01HK3QGM000000000000000008";

// 2024-01-01 00:00:00 UTC and the last second of that day.
const START_OF_2024: i64 = 1_704_067_200_000;
const END_OF_FIRST_DAY: i64 = 1_704_153_599_000;

fn batch(texts: &[&str]) -> Vec<String> {
    texts.iter().map(|t| t.to_string()).collect()
}

fn all() -> Vec<String> {
    batch(&[EVE_2022, EVE_2000, JUNE_2023, YEAR_2999, NEW_YEAR_2024, SECOND_OF_JANUARY_2024])
}

#[test]
fn four_counts_of_a_batch() {
    let calc = analyze_ulids_at(1, &all(), START_OF_2024).unwrap();
    assert_eq!(
        calc,
        UlidCalc { christmas_eve: 2, weekday: 2, in_the_future: 2, lsb_is_1: 3 }
    );
}

#[test]
fn counts_are_independent() {
    // The one identifier is counted three times over.
    let calc = analyze_ulids_at(5, &batch(&[EVE_2022]), 0).unwrap();
    assert_eq!(calc, UlidCalc { christmas_eve: 1, weekday: 1, in_the_future: 1, lsb_is_1: 1 });
}

#[test]
fn empty_batch_counts_nothing() {
    let calc = analyze_ulids_at(0, &Vec::new(), START_OF_2024).unwrap();
    assert_eq!(calc, UlidCalc::new(0, 0, 0, 0));
}

#[test]
fn christmas_eve_in_any_year() {
    let calc = analyze_ulids_at(0, &batch(&[EVE_2022, EVE_2000]), START_OF_2024).unwrap();
    assert_eq!(calc.christmas_eve, 2);
    let calc = analyze_ulids_at(0, &batch(&[JUNE_2023, NEW_YEAR_2024]), START_OF_2024).unwrap();
    assert_eq!(calc.christmas_eve, 0);
}

#[test]
fn weekday_runs_from_monday() {
    let expected = [1u64, 2, 0, 1, 0, 1, 1];
    for (day, count) in expected.iter().enumerate() {
        let calc = analyze_ulids_at(day as u32, &all(), START_OF_2024).unwrap();
        assert_eq!(calc.weekday, *count, "day {day}");
    }
    assert_eq!(analyze_ulids_at(7, &all(), START_OF_2024).unwrap().weekday, 0);
}

#[test]
fn future_is_a_later_day_not_a_later_instant() {
    // Five milliseconds after `now`, but on the same day.
    let calc = analyze_ulids_at(0, &batch(&[NEW_YEAR_2024]), START_OF_2024).unwrap();
    assert_eq!(calc.in_the_future, 0);
    // The next day.
    let calc = analyze_ulids_at(0, &batch(&[SECOND_OF_JANUARY_2024]), END_OF_FIRST_DAY).unwrap();
    assert_eq!(calc.in_the_future, 1);
    let calc =
        analyze_ulids_at(0, &batch(&[SECOND_OF_JANUARY_2024]), END_OF_FIRST_DAY + 1000).unwrap();
    assert_eq!(calc.in_the_future, 0);
}

#[test]
fn future_count_is_stable_within_a_day() {
    let at_start = analyze_ulids_at(3, &all(), START_OF_2024).unwrap();
    let at_end = analyze_ulids_at(3, &all(), END_OF_FIRST_DAY).unwrap();
    assert_eq!(at_start, at_end);
    assert_eq!(at_start.in_the_future, 2);
}

#[test]
fn same_batch_same_instant_same_counts() {
    let first = analyze_ulids_at(2, &all(), START_OF_2024);
    let second = analyze_ulids_at(2, &all(), START_OF_2024);
    assert_eq!(first, second);
}

#[test]
fn malformed_identifier_fails_the_batch() {
    for bad in ["", "01GN1S6E8004HMASW9NF6YY00", "01GN1S6E8004HMASW9NF6YY0011", "01GN1S6E8004HMASW9NF6YY00U", "01GN1S6E8004HMASW9NF6YY00é", "ILOU0000000000000000000000"] {
        let strings = batch(&[EVE_2022, bad, JUNE_2023]);
        assert_eq!(analyze_ulids_at(0, &strings, START_OF_2024), Err(AnalysisError::MalformedIdentifier), "{bad}");
        assert_eq!(handle_ulids(&strings), Err(AnalysisError::MalformedIdentifier));
        assert_eq!(decode_ulids(&strings), None);
        assert_eq!(analize_ulids(0, &strings), Err(AnalysisError::MalformedIdentifier));
    }
}

#[test]
fn clock_beyond_the_calendar_fails() {
    assert_eq!(analyze_ulids_at(0, &all(), i64::MAX), Err(AnalysisError::ClockOutOfRange));
    assert_eq!(analyze_ulids_at(0, &all(), i64::MIN), Err(AnalysisError::ClockOutOfRange));
}

#[test]
fn every_timestamp_of_48_bits_has_a_day() {
    // The greatest identifier carries the greatest timestamp.
    let calc = analyze_ulids_at(0, &batch(&["7ZZZZZZZZZZZZZZZZZZZZZZZZZ"]), START_OF_2024);
    assert_eq!(calc.map(|c| (c.in_the_future, c.lsb_is_1)), Ok((1, 1)));
}

#[test]
fn analysis_at_the_present_instant() {
    let calc = analize_ulids(1, &all()).unwrap();
    assert_eq!(calc.christmas_eve, 2);
    assert_eq!(calc.weekday, 2);
    assert_eq!(calc.lsb_is_1, 3);
    // The year 2999 lies ahead; the year 2000 does not.
    assert_eq!(analize_ulids(1, &batch(&[YEAR_2999, EVE_2000])).unwrap().in_the_future, 1);
}

#[test]
fn identifiers_decode_in_either_case() {
    let upper = decode_ulids(&batch(&["01D39ZY06FGSCTVN4T2V9PKHFZ"])).unwrap();
    let lower = decode_ulids(&batch(&["01d39zy06fgsctvn4t2v9pkhfz"])).unwrap();
    assert_eq!(upper, vec![0x0168_d3ff_00cf_8659_add4_9a16_d369_c5ffu128]);
    assert_eq!(upper, lower);
}

#[test]
fn identifier_keeps_the_lower_128_bits() {
    let ids = decode_ulids(&batch(&[
        "00000000000000000000000000",
        "7ZZZZZZZZZZZZZZZZZZZZZZZZZ",
        "ZZZZZZZZZZZZZZZZZZZZZZZZZZ",
        "80000000000000000000000000",
    ]))
    .unwrap();
    assert_eq!(ids, vec![0, u128::MAX, u128::MAX, 0]);
}

#[test]
fn identifiers_come_back_reversed_as_bytes() {
    let bytes = handle_ulids(&batch(&[EVE_2022, EVE_2000, JUNE_2023])).unwrap();
    assert_eq!(
        bytes,
        vec![
            [1, 136, 190, 44, 255, 64, 255, 255, 255, 255, 255, 255, 255, 255, 255, 255],
            [0, 227, 163, 154, 172, 24, 0, 0, 0, 0, 0, 0, 0, 0, 0, 2],
            [1, 133, 67, 147, 57, 0, 1, 35, 69, 103, 137, 171, 205, 239, 0, 1],
        ]
    );
    assert_eq!(handle_ulids(&Vec::new()), Ok(Vec::new()));
}

#[test]
fn last_bit_of_the_last_byte() {
    let mut bytes = [0u8; 16];
    assert!(!is_lsb_1(&bytes));
    bytes[15] = 1;
    assert!(is_lsb_1(&bytes));
    bytes[15] = 0xfe;
    assert!(!is_lsb_1(&bytes));
    bytes[15] = 0xff;
    assert!(is_lsb_1(&bytes));
    bytes = [0xff; 16];
    bytes[15] = 2;
    assert!(!is_lsb_1(&bytes));
}

#[test]
fn calendar_days_in_utc() {
    assert_eq!(
        calendar_day(0),
        Some(CalendarDay { date: Date { year: 1970, month: 1, day: 1 }, weekday: 3 })
    );
    assert_eq!(
        calendar_day(-1),
        Some(CalendarDay { date: Date { year: 1969, month: 12, day: 31 }, weekday: 2 })
    );
    assert_eq!(
        calendar_day(1_671_876_000_000),
        Some(CalendarDay { date: Date { year: 2022, month: 12, day: 24 }, weekday: 5 })
    );
    // The 29th of February 2024.
    assert_eq!(
        calendar_day(1_709_164_800_000),
        Some(CalendarDay { date: Date { year: 2024, month: 2, day: 29 }, weekday: 3 })
    );
    assert_eq!(calendar_day(i64::MAX), None);
}

#[test]
fn calendar_order() {
    let day = |year, month, day| Date { year, month, day };
    assert!(day(2024, 1, 1).is_after(&day(2023, 12, 31)));
    assert!(day(2024, 2, 1).is_after(&day(2024, 1, 31)));
    assert!(day(2024, 2, 2).is_after(&day(2024, 2, 1)));
    assert!(!day(2024, 2, 2).is_after(&day(2024, 2, 2)));
    assert!(!day(2023, 12, 31).is_after(&day(2024, 1, 1)));
    assert!(day(2000, 12, 24).is_christmas_eve());
    assert!(day(-44, 12, 24).is_christmas_eve());
    assert!(!day(2000, 12, 25).is_christmas_eve());
    assert!(!day(2000, 11, 24).is_christmas_eve());
}
