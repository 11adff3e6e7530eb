use vstd::prelude::*;

verus! {

/// Everything that can end a practice run early.
#[derive(Debug, Clone, Copy, PartialEq, Eq, Structural)]
pub enum PracticeError {
    /// A lesson id has no leading number, or the number does not fit 32 bits.
    MalformedId,
    /// Two lessons handed to the catalog carry the same id.
    DuplicateLessonId,
    /// No lesson of the catalog has the id asked for.
    UnknownLessonId,
    /// The id is that of the last lesson, or of none.
    NoSuccessorLesson,
    /// Resuming was asked for, but no progress record could be read.
    ProgressUnavailable,
    /// The progress record could not be written.
    ProgressWriteFailed,
    /// No interactive terminal could be had.
    TerminalUnavailable,
}

impl PracticeError {
    /// The words in which each error is told to the learner.
    pub open spec fn message_text(self) -> Seq<char> {
        match self {
            PracticeError::MalformedId => "a lesson id must begin with a number"@,
            PracticeError::DuplicateLessonId => "two lessons have the same id"@,
            PracticeError::UnknownLessonId => "there is no lesson with this id"@,
            PracticeError::NoSuccessorLesson => "there is no lesson after this one"@,
            PracticeError::ProgressUnavailable => "no progress has been recorded yet"@,
            PracticeError::ProgressWriteFailed => "the progress could not be recorded"@,
            PracticeError::TerminalUnavailable => "this needs an interactive terminal"@,
        }
    }

    /// A message for the learner.
    pub fn message(&self) -> (text: &'static str)
        ensures
            text@ == self.message_text(),
    {
        match self {
            PracticeError::MalformedId => "a lesson id must begin with a number",
            PracticeError::DuplicateLessonId => "two lessons have the same id",
            PracticeError::UnknownLessonId => "there is no lesson with this id",
            PracticeError::NoSuccessorLesson => "there is no lesson after this one",
            PracticeError::ProgressUnavailable => "no progress has been recorded yet",
            PracticeError::ProgressWriteFailed => "the progress could not be recorded",
            PracticeError::TerminalUnavailable => "this needs an interactive terminal",
        }
    }
}

/// The status with which a run ends: zero unless it failed.
pub open spec fn status_of(ended: Result<(), PracticeError>) -> i32 {
    match ended {
        Ok(_) => 0,
        Err(_) => 1,
    }
}

/// The exit status for the way a run ended. A run that the learner ended,
/// by declining or by quitting, has not failed.
pub fn exit_status(ended: &Result<(), PracticeError>) -> (status: i32)
    ensures
        status == status_of(*ended),
{
    match ended {
        Ok(_) => 0,
        Err(_) => 1,
    }
}

} // verus!
