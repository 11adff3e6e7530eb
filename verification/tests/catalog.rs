use typing_practice::{Lesson, LessonCatalog, PracticeError};

fn lesson(id: &str, text: &str) -> Lesson {
    Lesson::new(text.to_string(), id.to_string())
}

fn catalog_of(ids: &[&str]) -> LessonCatalog {
    let lessons: Vec<Lesson> = ids
        .iter()
        .map(|id| lesson(id, &format!("Lesson {}\ntext of {}\n", id, id)))
        .collect();
    LessonCatalog::build(lessons).unwrap()
}

fn ids_in_order(catalog: &LessonCatalog) -> Vec<String> {
    let mut ids = Vec::new();
    let mut index = 0;
    while let Some(found) = catalog.lesson_at(index) {
        ids.push(found.id().to_string());
        index += 1;
    }
    assert_eq!(index, catalog.len());
    ids
}

#[test]
fn every_lesson_is_found_again_with_its_text() {
    let given = [
        ("10", "Ten\nj k l\n"),
        ("02", "Two\na s d f\n"),
        ("03b", "Three b\nq w e\n"),
        ("03a", "Three a\nu i o\n"),
    ];
    let lessons: Vec<Lesson> = given.iter().map(|(id, text)| lesson(id, text)).collect();
    let catalog = LessonCatalog::build(lessons).unwrap();
    assert_eq!(catalog.len(), 4);
    for (id, text) in given {
        let found = catalog.get(id).unwrap();
        assert_eq!(found.id(), id);
        assert_eq!(found.text(), text);
    }
}

#[test]
fn last_lesson_has_no_successor() {
    let catalog = catalog_of(&["10", "02", "03"]);
    assert_eq!(
        catalog.successor_of("10").err(),
        Some(PracticeError::NoSuccessorLesson)
    );
}

#[test]
fn unknown_lesson_has_no_successor() {
    let catalog = catalog_of(&["01", "02"]);
    assert_eq!(
        catalog.successor_of("07").err(),
        Some(PracticeError::NoSuccessorLesson)
    );
    assert_eq!(
        catalog.successor_of("").err(),
        Some(PracticeError::NoSuccessorLesson)
    );
}

#[test]
fn successor_is_the_next_in_order() {
    let catalog = catalog_of(&["10", "02", "03b", "03a"]);
    assert_eq!(catalog.successor_of("02").unwrap().id(), "03a");
    assert_eq!(catalog.successor_of("03a").unwrap().id(), "03b");
    assert_eq!(catalog.successor_of("03b").unwrap().id(), "10");
}

#[test]
fn unknown_id_is_reported() {
    let catalog = catalog_of(&["01", "02"]);
    assert_eq!(catalog.get("03").err(), Some(PracticeError::UnknownLessonId));
    // Ids are names, not numbers: "1" is not "01".
    assert_eq!(catalog.get("1").err(), Some(PracticeError::UnknownLessonId));
}

#[test]
fn lessons_stand_in_the_order_of_their_ids() {
    let catalog = catalog_of(&["10", "02", "03b", "1", "03a", "9"]);
    assert_eq!(ids_in_order(&catalog), vec!["1", "02", "03a", "03b", "9", "10"]);
}

#[test]
fn lessons_that_tie_keep_the_order_given() {
    // "03" ties with both others, so nothing moves past it.
    let catalog = catalog_of(&["03b", "03", "03a"]);
    assert_eq!(ids_in_order(&catalog), vec!["03b", "03", "03a"]);
    let catalog = catalog_of(&["2", "02", "002"]);
    assert_eq!(ids_in_order(&catalog), vec!["2", "02", "002"]);
    let catalog = catalog_of(&["002", "2", "02"]);
    assert_eq!(ids_in_order(&catalog), vec!["002", "2", "02"]);
}

#[test]
fn sorted_input_is_left_as_it_is() {
    let catalog = catalog_of(&["01", "02", "03", "04"]);
    assert_eq!(ids_in_order(&catalog), vec!["01", "02", "03", "04"]);
    let catalog = catalog_of(&["04", "03", "02", "01"]);
    assert_eq!(ids_in_order(&catalog), vec!["01", "02", "03", "04"]);
}

#[test]
fn duplicate_id_is_refused() {
    let lessons = vec![lesson("01", "a\n"), lesson("02", "b\n"), lesson("01", "c\n")];
    assert_eq!(
        LessonCatalog::build(lessons).err(),
        Some(PracticeError::DuplicateLessonId)
    );
}

#[test]
fn ids_of_one_number_are_no_duplicates() {
    let catalog = catalog_of(&["01", "1", "01a"]);
    assert_eq!(catalog.len(), 3);
}

#[test]
fn malformed_id_is_refused() {
    let lessons = vec![lesson("01", "a\n"), lesson("b2", "b\n")];
    assert_eq!(
        LessonCatalog::build(lessons).err(),
        Some(PracticeError::MalformedId)
    );
    let lessons = vec![lesson("", "a\n")];
    assert_eq!(
        LessonCatalog::build(lessons).err(),
        Some(PracticeError::MalformedId)
    );
}

#[test]
fn malformed_id_is_reported_before_a_duplicate() {
    let lessons = vec![lesson("01", "a\n"), lesson("01", "b\n"), lesson("x", "c\n")];
    assert_eq!(
        LessonCatalog::build(lessons).err(),
        Some(PracticeError::MalformedId)
    );
}

#[test]
fn empty_catalog_holds_nothing() {
    let catalog = LessonCatalog::build(Vec::new()).unwrap();
    assert_eq!(catalog.len(), 0);
    assert!(catalog.lesson_at(0).is_none());
    assert_eq!(catalog.get("01").err(), Some(PracticeError::UnknownLessonId));
    assert_eq!(
        catalog.successor_of("01").err(),
        Some(PracticeError::NoSuccessorLesson)
    );
}

#[test]
fn lesson_at_counts_from_zero() {
    let catalog = catalog_of(&["02", "01"]);
    assert_eq!(catalog.lesson_at(0).unwrap().id(), "01");
    assert_eq!(catalog.lesson_at(1).unwrap().id(), "02");
    assert!(catalog.lesson_at(2).is_none());
    assert!(catalog.lesson_at(usize::MAX).is_none());
}

#[test]
fn single_lesson_is_first_and_last() {
    let catalog = catalog_of(&["05"]);
    assert_eq!(catalog.len(), 1);
    assert_eq!(catalog.get("05").unwrap().text(), "Lesson 05\ntext of 05\n");
    assert_eq!(
        catalog.successor_of("05").err(),
        Some(PracticeError::NoSuccessorLesson)
    );
}
