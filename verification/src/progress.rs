use crate::catalog::{lookup, successor, LessonCatalog};
use crate::error::PracticeError;
use crate::event::Event;
use crate::lesson::{Lesson, LessonView};
use crate::session::{handle_phase, phase_outcome, Phase, Screen, Session};
use vstd::prelude::*;

verus! {

/// What is remembered between runs: the id of the lesson finished last.
#[derive(Debug)]
pub struct Stats {
    last_lesson_id: String,
}

impl View for Stats {
    type V = Seq<char>;

    closed spec fn view(&self) -> Seq<char> {
        self.last_lesson_id@
    }
}

impl Stats {
    /// A record that names the lesson with the given id as the one finished last.
    pub fn new(last_lesson_id: String) -> (stats: Stats)
        ensures
            stats@ == last_lesson_id@,
    {
        Stats { last_lesson_id }
    }

    /// The id of the lesson finished last.
    pub fn last_lesson_id(&self) -> (id: &str)
        ensures
            id@ == self@,
    {
        self.last_lesson_id.as_str()
    }
}

/// The lesson with which a run begins. A lesson asked for by its id is that
/// lesson. With none asked for the run resumes: it begins with the lesson
/// after the one finished last, which takes a progress record.
pub open spec fn first_lesson(
    catalog: Seq<LessonView>,
    requested: Option<Seq<char>>,
    progress: Option<Seq<char>>,
) -> Result<LessonView, PracticeError> {
    match requested {
        Some(id) => lookup(catalog, id),
        None => match progress {
            Some(last) => successor(catalog, last),
            None => Err(PracticeError::ProgressUnavailable),
        },
    }
}

/// What is written down when a session on the lesson with the given id has
/// ended: the id, if the learner came to the end and answered; nothing after
/// quitting, and nothing while the session goes on.
pub open spec fn record_after(lesson_id: Seq<char>, phase: Phase) -> Option<Seq<char>> {
    if phase is Done {
        Some(lesson_id)
    } else {
        None
    }
}

/// What comes after a session on the lesson with the given id: the next
/// lesson where the learner asked for it, which fails after the last one;
/// otherwise nothing.
pub open spec fn lesson_after(
    catalog: Seq<LessonView>,
    lesson_id: Seq<char>,
    phase: Phase,
) -> Result<Option<LessonView>, PracticeError> {
    if phase_outcome(phase) {
        match successor(catalog, lesson_id) {
            Ok(lesson) => Ok(Some(lesson)),
            Err(e) => Err(e),
        }
    } else {
        Ok(None)
    }
}

/// Picks the lesson with which a run begins: the one asked for by `requested`,
/// or, with none asked for, the one after the lesson that `progress` names.
pub fn starting_lesson<'a>(
    catalog: &'a LessonCatalog,
    requested: Option<&str>,
    progress: Option<&Stats>,
) -> (found: Result<&'a Lesson, PracticeError>)
    ensures
        match found {
            Ok(lesson) => first_lesson(
                catalog@,
                match requested {
                    Some(id) => Some(id@),
                    None => None,
                },
                match progress {
                    Some(stats) => Some(stats@),
                    None => None,
                },
            ) == Ok::<LessonView, PracticeError>(lesson@),
            Err(e) => first_lesson(
                catalog@,
                match requested {
                    Some(id) => Some(id@),
                    None => None,
                },
                match progress {
                    Some(stats) => Some(stats@),
                    None => None,
                },
            ) == Err::<LessonView, PracticeError>(e),
        },
{
    match requested {
        Some(id) => catalog.get(id),
        None => match progress {
            Some(stats) => catalog.successor_of(stats.last_lesson_id()),
            None => Err(PracticeError::ProgressUnavailable),
        },
    }
}

/// The progress record to write after a session on `lesson`, if any is due.
pub fn progress_after(lesson: &Lesson, session: &Session) -> (record: Option<Stats>)
    ensures
        match record {
            Some(stats) => record_after(lesson@.id, session@.phase) == Some(stats@),
            None => record_after(lesson@.id, session@.phase) is None,
        },
{
    match session.phase() {
        Phase::Done { .. } => Some(Stats::new(lesson.id().to_owned())),
        _ => None,
    }
}

/// The lesson to go on with after a session on `lesson`, if the learner asked
/// for one.
pub fn next_lesson<'a>(catalog: &'a LessonCatalog, lesson: &Lesson, session: &Session) -> (next:
    Result<Option<&'a Lesson>, PracticeError>)
    ensures
        match next {
            Ok(Some(following)) => lesson_after(catalog@, lesson@.id, session@.phase) == Ok::<
                Option<LessonView>,
                PracticeError,
            >(Some(following@)),
            Ok(None) => lesson_after(catalog@, lesson@.id, session@.phase) == Ok::<
                Option<LessonView>,
                PracticeError,
            >(None),
            Err(e) => lesson_after(catalog@, lesson@.id, session@.phase) == Err::<
                Option<LessonView>,
                PracticeError,
            >(e),
        },
{
    if session.outcome() {
        match catalog.successor_of(lesson.id()) {
            Ok(following) => Ok(Some(following)),
            Err(e) => Err(e),
        }
    } else {
        Ok(None)
    }
}

/// Quitting while a line is typed or while the question waits leaves
/// nothing to write down and no lesson to go on with.
pub proof fn quitting_leaves_no_record(
    catalog: Seq<LessonView>,
    lesson_id: Seq<char>,
    lines: Seq<Seq<char>>,
    phase: Phase,
    screen: Screen,
)
    requires
        phase is TypingLine || phase is AwaitingContinueAnswer,
    ensures
        record_after(lesson_id, handle_phase(lines, phase, Event::Quit, screen)) is None,
        lesson_after(catalog, lesson_id, handle_phase(lines, phase, Event::Quit, screen)) == Ok::<
            Option<LessonView>,
            PracticeError,
        >(None),
{
}

/// A session that came to its end is written down whatever the answer was.
pub proof fn finished_lesson_is_recorded(lesson_id: Seq<char>, answer: bool)
    ensures
        record_after(lesson_id, Phase::Done { answer }) == Some(lesson_id),
{
}

} // verus!
