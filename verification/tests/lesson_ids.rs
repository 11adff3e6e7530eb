use std::cmp::Ordering;
use typing_practice::lesson_id::precedes;
use typing_practice::{compare_lesson_id, lesson_number_of, PracticeError};

#[test]
fn numbers_are_compared_as_numbers() {
    assert_eq!(compare_lesson_id("02", "10"), Ok(Ordering::Less));
    assert_eq!(compare_lesson_id("10", "02"), Ok(Ordering::Greater));
    // As text "9" would come after "10".
    assert_eq!(compare_lesson_id("9", "10"), Ok(Ordering::Less));
    assert_eq!(compare_lesson_id("100", "20"), Ok(Ordering::Greater));
}

#[test]
fn leading_zeros_do_not_count() {
    assert_eq!(compare_lesson_id("02", "2"), Ok(Ordering::Equal));
    assert_eq!(compare_lesson_id("007", "7"), Ok(Ordering::Equal));
    assert_eq!(lesson_number_of("007"), Ok(7));
}

#[test]
fn suffixes_order_ids_of_one_number() {
    assert_eq!(compare_lesson_id("03a", "03b"), Ok(Ordering::Less));
    assert_eq!(compare_lesson_id("03b", "03a"), Ok(Ordering::Greater));
    assert_eq!(compare_lesson_id("03a", "03a"), Ok(Ordering::Equal));
    assert_eq!(compare_lesson_id("03a", "03ab"), Ok(Ordering::Less));
    assert_eq!(compare_lesson_id("03ab", "03a"), Ok(Ordering::Greater));
    assert_eq!(compare_lesson_id("03B", "03a"), Ok(Ordering::Less));
}

#[test]
fn number_decides_before_suffix() {
    assert_eq!(compare_lesson_id("02z", "03a"), Ok(Ordering::Less));
    assert_eq!(compare_lesson_id("04a", "03z"), Ok(Ordering::Greater));
}

#[test]
fn id_without_suffix_equals_any_suffix_of_its_number() {
    assert_eq!(compare_lesson_id("03", "03a"), Ok(Ordering::Equal));
    assert_eq!(compare_lesson_id("03b", "03"), Ok(Ordering::Equal));
    assert_eq!(compare_lesson_id("03", "03"), Ok(Ordering::Equal));
    // The ties do not chain: the two suffixed ids are still told apart.
    assert_eq!(compare_lesson_id("03a", "03b"), Ok(Ordering::Less));
}

#[test]
fn id_without_number_is_malformed() {
    assert_eq!(compare_lesson_id("a1", "02"), Err(PracticeError::MalformedId));
    assert_eq!(compare_lesson_id("02", "b"), Err(PracticeError::MalformedId));
    assert_eq!(compare_lesson_id("", "02"), Err(PracticeError::MalformedId));
    assert_eq!(compare_lesson_id("x", "y"), Err(PracticeError::MalformedId));
    assert_eq!(lesson_number_of(""), Err(PracticeError::MalformedId));
    assert_eq!(lesson_number_of("+5"), Err(PracticeError::MalformedId));
    assert_eq!(lesson_number_of("lesson"), Err(PracticeError::MalformedId));
}

#[test]
fn number_reads_the_leading_digits_only() {
    assert_eq!(lesson_number_of("02"), Ok(2));
    assert_eq!(lesson_number_of("12b"), Ok(12));
    assert_eq!(lesson_number_of("3a4"), Ok(3));
    assert_eq!(lesson_number_of("0"), Ok(0));
}

#[test]
fn number_must_fit_thirty_two_bits() {
    assert_eq!(lesson_number_of("4294967295"), Ok(4294967295));
    assert_eq!(lesson_number_of("4294967296"), Err(PracticeError::MalformedId));
    assert_eq!(lesson_number_of("99999999999999999999999"), Err(PracticeError::MalformedId));
    assert_eq!(
        compare_lesson_id("4294967296", "1"),
        Err(PracticeError::MalformedId)
    );
    assert_eq!(compare_lesson_id("4294967295", "1"), Ok(Ordering::Greater));
}

#[test]
fn precedes_is_the_strict_part_of_the_order() {
    assert!(precedes("02", "10"));
    assert!(!precedes("10", "02"));
    assert!(precedes("03a", "03b"));
    assert!(!precedes("03", "03a"));
    assert!(!precedes("03a", "03"));
    assert!(!precedes("03a", "03a"));
}

#[test]
fn id_without_number_precedes_nothing() {
    assert!(!precedes("a", "02"));
    assert!(!precedes("02", "a"));
    assert!(!precedes("", ""));
    assert!(!precedes("4294967296", "4294967297"));
}

#[test]
fn swapping_the_ids_turns_the_order() {
    let ids = ["1", "01a", "1b", "2", "02a", "10", "3c"];
    for a in ids {
        for b in ids {
            let there = compare_lesson_id(a, b).unwrap();
            let back = compare_lesson_id(b, a).unwrap();
            assert_eq!(there, back.reverse());
        }
        assert_eq!(compare_lesson_id(a, a), Ok(Ordering::Equal));
    }
}
