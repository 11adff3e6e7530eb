//! A typing-practice engine: lessons are shown line by line, every keystroke is
//! checked against the expected character, and the last finished lesson is
//! remembered so that a later run can resume after it.
//!
//! The crate holds the rules only. Reading keys, drawing on the terminal and
//! touching the disk are left to the caller, which feeds the engine plain
//! values and carries out the commands it answers with.

pub mod catalog;
pub mod error;
pub mod event;
pub mod lesson;
pub mod lesson_id;
pub mod progress;
pub mod session;

pub use catalog::LessonCatalog;
pub use error::{exit_status, PracticeError};
pub use event::{event_for_key, Event, Key};
pub use lesson::{lesson_id_of_file_name, Lesson};
pub use lesson_id::{compare_lesson_id, lesson_number_of};
pub use progress::{next_lesson, progress_after, starting_lesson, Stats};
pub use session::{typed_feedback, Command, Phase, Screen, Session};
