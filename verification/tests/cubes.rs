use shuttle_christmas::cubes::{checked_cube, cube_bits, xor_fold};

#[test]
fn two_numbers() {
    assert_eq!(cube_bits("4/8"), Some(1728));
}

#[test]
fn one_number() {
    assert_eq!(cube_bits("10"), Some(1000));
    assert_eq!(cube_bits("-3"), Some(-27));
    assert_eq!(cube_bits("+3"), Some(27));
    assert_eq!(cube_bits("0"), Some(0));
    assert_eq!(cube_bits("007"), Some(343));
}

#[test]
fn many_numbers() {
    assert_eq!(cube_bits("4/5/8/10"), Some(27));
    assert_eq!(cube_bits("1/2/3"), Some(0));
    assert_eq!(cube_bits("-1/1"), Some(-8));
}

#[test]
fn part_that_is_no_number() {
    for path in ["", "4/", "/4", "4//8", "a", "4/b", "4 /8", "1.5", "--1", "+-1", "-", "+", "٣", "9223372036854775808", "-9223372036854775809", "1_000"] {
        assert_eq!(cube_bits(path), None, "{path}");
    }
}

#[test]
fn ends_of_the_range_are_read() {
    assert_eq!(cube_bits("9223372036854775807/9223372036854775807"), Some(0));
    assert_eq!(cube_bits("-9223372036854775808/-9223372036854775808"), Some(0));
    assert_eq!(cube_bits("9223372036854775807/9223372036854775806"), Some(1));
}

#[test]
fn cube_that_does_not_fit() {
    assert_eq!(cube_bits("2097151"), Some(9223358842721533951));
    assert_eq!(cube_bits("2097152"), None);
    assert_eq!(cube_bits("-2097152"), Some(i64::MIN));
    assert_eq!(cube_bits("-2097153"), None);
    assert_eq!(cube_bits("9223372036854775807"), None);
    assert_eq!(cube_bits("-9223372036854775808"), None);
    assert_eq!(cube_bits("3037000500"), None);
    assert_eq!(checked_cube(i64::MAX), None);
    assert_eq!(checked_cube(-4), Some(-64));
}

#[test]
fn exclusive_or_of_a_list() {
    assert_eq!(xor_fold(&vec![]), 0);
    assert_eq!(xor_fold(&vec![5]), 5);
    assert_eq!(xor_fold(&vec![4, 8]), 12);
    assert_eq!(xor_fold(&vec![-1, 1]), -2);
    assert_eq!(xor_fold(&vec![i64::MIN, i64::MAX]), -1);
}
