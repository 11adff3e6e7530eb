use typing_practice::{
    event_for_key, exit_status, next_lesson, progress_after, starting_lesson, Event, Key, Lesson,
    LessonCatalog, PracticeError, Screen, Session, Stats,
};

const SCREEN: Screen = Screen { col: 0, row: 3, height: 24 };

fn course() -> LessonCatalog {
    let lessons = vec![
        Lesson::new("Third\nc\n".to_string(), "03".to_string()),
        Lesson::new("First\na\n".to_string(), "01".to_string()),
        Lesson::new("Fourth\nd\n".to_string(), "04".to_string()),
        Lesson::new("Second\nb\n".to_string(), "02".to_string()),
    ];
    LessonCatalog::build(lessons).unwrap()
}

/// A session on `lesson` in which every line was typed and the events of
/// `ending` came at the question.
fn run_through(lesson: &Lesson, ending: &[Event]) -> Session {
    let mut session = Session::new(lesson);
    session.advance(SCREEN);
    for line in lesson.lines().iter().skip(1) {
        for c in line.chars() {
            session.handle(Event::InputCharacter(c), SCREEN);
        }
        session.handle(Event::NewLine, SCREEN);
    }
    session.advance(SCREEN);
    for event in ending {
        session.handle(*event, SCREEN);
    }
    session
}

#[test]
fn record_keeps_the_lesson_id() {
    let stats = Stats::new("04".to_string());
    assert_eq!(stats.last_lesson_id(), "04");
}

#[test]
fn requested_lesson_is_the_first() {
    let catalog = course();
    let found = starting_lesson(&catalog, Some("03"), None).unwrap();
    assert_eq!(found.id(), "03");
    assert_eq!(found.text(), "Third\nc\n");
    // A request counts for more than the record.
    let stats = Stats::new("01".to_string());
    let found = starting_lesson(&catalog, Some("03"), Some(&stats)).unwrap();
    assert_eq!(found.id(), "03");
}

#[test]
fn requested_lesson_must_exist() {
    let catalog = course();
    assert_eq!(
        starting_lesson(&catalog, Some("09"), None).err(),
        Some(PracticeError::UnknownLessonId)
    );
}

#[test]
fn resuming_begins_after_the_lesson_finished_last() {
    let catalog = course();
    let stats = Stats::new("02".to_string());
    let found = starting_lesson(&catalog, None, Some(&stats)).unwrap();
    assert_eq!(found.id(), "03");
}

#[test]
fn resuming_needs_a_record() {
    let catalog = course();
    assert_eq!(
        starting_lesson(&catalog, None, None).err(),
        Some(PracticeError::ProgressUnavailable)
    );
}

#[test]
fn resuming_after_the_last_lesson_finds_none() {
    let catalog = course();
    let stats = Stats::new("04".to_string());
    assert_eq!(
        starting_lesson(&catalog, None, Some(&stats)).err(),
        Some(PracticeError::NoSuccessorLesson)
    );
    let stats = Stats::new("17".to_string());
    assert_eq!(
        starting_lesson(&catalog, None, Some(&stats)).err(),
        Some(PracticeError::NoSuccessorLesson)
    );
}

#[test]
fn finished_lesson_is_written_down_whatever_the_answer() {
    let catalog = course();
    let lesson = catalog.get("02").unwrap();
    for ending in [
        vec![Event::InputCharacter('y'), Event::NewLine],
        vec![Event::InputCharacter('n'), Event::NewLine],
        vec![Event::NewLine],
    ] {
        let session = run_through(lesson, &ending);
        assert!(session.is_over());
        let record = progress_after(lesson, &session).unwrap();
        assert_eq!(record.last_lesson_id(), "02");
    }
}

#[test]
fn cancelled_lesson_is_not_written_down() {
    let catalog = course();
    let lesson = catalog.get("02").unwrap();
    let at_question = run_through(lesson, &[Event::InputCharacter('y'), Event::Quit]);
    assert!(at_question.is_over());
    assert!(progress_after(lesson, &at_question).is_none());
    assert_eq!(next_lesson(&catalog, lesson, &at_question).unwrap().map(Lesson::id), None);

    let mut while_typing = Session::new(lesson);
    while_typing.advance(SCREEN);
    while_typing.handle(Event::Quit, SCREEN);
    assert!(progress_after(lesson, &while_typing).is_none());
    assert_eq!(next_lesson(&catalog, lesson, &while_typing).unwrap().map(Lesson::id), None);
}

#[test]
fn unfinished_lesson_is_not_written_down() {
    let catalog = course();
    let lesson = catalog.get("02").unwrap();
    let mut session = Session::new(lesson);
    assert!(progress_after(lesson, &session).is_none());
    session.advance(SCREEN);
    assert!(progress_after(lesson, &session).is_none());
    let waiting = run_through(lesson, &[Event::InputCharacter('y')]);
    assert!(progress_after(lesson, &waiting).is_none());
}

#[test]
fn yes_leads_to_the_next_lesson() {
    let catalog = course();
    let lesson = catalog.get("02").unwrap();
    let session = run_through(lesson, &[Event::InputCharacter('y'), Event::NewLine]);
    let next = next_lesson(&catalog, lesson, &session).unwrap().unwrap();
    assert_eq!(next.id(), "03");
}

#[test]
fn no_leads_nowhere() {
    let catalog = course();
    let lesson = catalog.get("02").unwrap();
    let session = run_through(lesson, &[Event::InputCharacter('n'), Event::NewLine]);
    assert_eq!(next_lesson(&catalog, lesson, &session).unwrap().map(Lesson::id), None);
    let session = run_through(lesson, &[Event::NewLine]);
    assert_eq!(next_lesson(&catalog, lesson, &session).unwrap().map(Lesson::id), None);
}

#[test]
fn yes_after_the_last_lesson_finds_none() {
    let catalog = course();
    let lesson = catalog.get("04").unwrap();
    let session = run_through(lesson, &[Event::InputCharacter('y'), Event::NewLine]);
    assert_eq!(
        next_lesson(&catalog, lesson, &session).err(),
        Some(PracticeError::NoSuccessorLesson)
    );
    // The lesson itself still counts as finished.
    assert_eq!(progress_after(lesson, &session).unwrap().last_lesson_id(), "04");
}

#[test]
fn keys_stand_for_events() {
    assert_eq!(event_for_key(Key::Char('a')), Some(Event::InputCharacter('a')));
    assert_eq!(event_for_key(Key::Char('c')), Some(Event::InputCharacter('c')));
    assert_eq!(event_for_key(Key::Enter), Some(Event::NewLine));
    assert_eq!(event_for_key(Key::Backspace), Some(Event::BackSpace));
    assert_eq!(event_for_key(Key::Esc), Some(Event::Quit));
    assert_eq!(event_for_key(Key::Ctrl('c')), Some(Event::Quit));
}

#[test]
fn other_keys_stand_for_nothing() {
    assert_eq!(event_for_key(Key::Ctrl('d')), None);
    assert_eq!(event_for_key(Key::Ctrl('C')), None);
    assert_eq!(event_for_key(Key::Other), None);
}

#[test]
fn only_failures_end_with_a_status() {
    assert_eq!(exit_status(&Ok(())), 0);
    for error in [
        PracticeError::MalformedId,
        PracticeError::DuplicateLessonId,
        PracticeError::UnknownLessonId,
        PracticeError::NoSuccessorLesson,
        PracticeError::ProgressUnavailable,
        PracticeError::ProgressWriteFailed,
        PracticeError::TerminalUnavailable,
    ] {
        assert_ne!(exit_status(&Err(error)), 0);
    }
}

#[test]
fn every_error_has_words_of_its_own() {
    let errors = [
        PracticeError::MalformedId,
        PracticeError::DuplicateLessonId,
        PracticeError::UnknownLessonId,
        PracticeError::NoSuccessorLesson,
        PracticeError::ProgressUnavailable,
        PracticeError::ProgressWriteFailed,
        PracticeError::TerminalUnavailable,
    ];
    for (i, a) in errors.iter().enumerate() {
        assert!(!a.message().is_empty());
        for b in errors.iter().skip(i + 1) {
            assert_ne!(a.message(), b.message());
        }
    }
    assert_eq!(
        PracticeError::MalformedId.message(),
        "a lesson id must begin with a number"
    );
}
