use crate::event::Event;
use crate::lesson::{content_lines, line_views, title_of, Lesson};
use vstd::prelude::*;

verus! {

/// What the terminal reports when the engine is asked to move: where the cursor
/// stands and how many rows are visible.
#[derive(Debug, Clone, Copy, PartialEq, Eq, Structural)]
pub struct Screen {
    pub col: u16,
    pub row: u16,
    pub height: u16,
}

/// One thing for the terminal to do. Text is named, not carried: the session
/// hands it out through `title`, `line_text` and `prompt`.
#[derive(Debug, Clone, Copy, PartialEq, Eq, Structural)]
pub enum Command {
    /// Put the cursor at a column and row, both counted from zero.
    MoveTo { col: u16, row: u16 },
    /// Move the cursor one column to the left.
    MoveLeft,
    /// Scroll the visible rows up by one.
    ScrollUp,
    /// Clear from the cursor to the end of its row.
    ClearToLineEnd,
    /// Write the lesson's title at the cursor.
    ShowTitle,
    /// Write the line to type, by its index among the lines after the title.
    ShowLine { line: usize },
    /// Write the question that follows the last line.
    ShowPrompt,
    /// Write a typed character, styled as a match or as a mismatch.
    Typed { ch: char, matched: bool },
    /// Write the answer to the question, unstyled.
    Echo { ch: char },
}

/// Where a session stands.
#[derive(Debug, Clone, Copy, PartialEq, Eq, Structural)]
pub enum Phase {
    /// Nothing is drawn yet.
    RenderTitle,
    /// The learner types line `line` and has typed `idx` characters of it.
    TypingLine { line: usize, idx: usize },
    /// The last line is done and the question is on the screen.
    Finished,
    /// The question waits for `y` or `n`; the answer is written at `answer_col`.
    AwaitingContinueAnswer { answer_col: u16, answer: bool },
    /// The learner answered and confirmed.
    Done { answer: bool },
    /// The learner quit.
    Cancelled,
}

/// A session as plain values: the title, the lines to type, and the phase.
pub ghost struct SessionView {
    pub title: Seq<char>,
    pub lines: Seq<Seq<char>>,
    pub phase: Phase,
}

/// One interactive run of a single lesson. It draws nothing and reads nothing
/// itself: each step takes what happened and answers with commands.
pub struct Session {
    title: String,
    lines: Vec<String>,
    phase: Phase,
}

impl View for Session {
    type V = SessionView;

    closed spec fn view(&self) -> SessionView {
        SessionView { title: self.title@, lines: line_views(self.lines@), phase: self.phase }
    }
}

/// The words that follow the title in the closing question. Nothing follows
/// them: the answer is written directly behind.
pub open spec fn prompt_tail() -> Seq<char> {
    " finished, next lesson? (y/n)"@
}

/// The closing question for a lesson with the given title.
pub open spec fn prompt_text(title: Seq<char>) -> Seq<char> {
    title + prompt_tail()
}

/// A typing position lies inside the lesson: on one of its lines, and not past
/// that line's end.
pub open spec fn phase_fits(lines: Seq<Seq<char>>, phase: Phase) -> bool {
    phase matches Phase::TypingLine { line, idx } ==> line < lines.len() && idx
        <= lines[line as int].len()
}

/// The cursor stands on the last visible row (or below what is visible).
pub open spec fn at_last_row(screen: Screen) -> bool {
    screen.row + 1 >= screen.height
}

/// The row on which the cursor stands after a line break.
pub open spec fn row_below(screen: Screen) -> u16 {
    if at_last_row(screen) {
        screen.row
    } else {
        (screen.row + 1) as u16
    }
}

/// Moves the cursor to the start of the next row; on the last visible row the
/// view is scrolled up first and the cursor keeps its row.
pub open spec fn line_break(screen: Screen) -> Seq<Command> {
    if at_last_row(screen) {
        seq![Command::ScrollUp, Command::MoveTo { col: 0, row: screen.row }]
    } else {
        seq![Command::MoveTo { col: 0, row: (screen.row + 1) as u16 }]
    }
}

/// The phase that begins when the cursor reaches a fresh row and `next` lines
/// are done: the next line, or the end of the lesson.
pub open spec fn enter_phase(lines: Seq<Seq<char>>, next: nat) -> Phase {
    if next < lines.len() {
        Phase::TypingLine { line: next as usize, idx: 0 }
    } else {
        Phase::Finished
    }
}

/// What is drawn on that fresh row: the line to type and a line break, so that
/// the learner types below it, or the closing question.
pub open spec fn enter_commands(lines: Seq<Seq<char>>, next: nat, screen: Screen) -> Seq<
    Command,
> {
    if next < lines.len() {
        seq![Command::ShowLine { line: next as usize }] + line_break(screen)
    } else {
        seq![Command::ShowPrompt]
    }
}

/// The character counts as "yes".
pub open spec fn is_yes(c: char) -> bool {
    c == 'y' || c == 'Y'
}

/// The character counts as "no".
pub open spec fn is_no(c: char) -> bool {
    c == 'n' || c == 'N'
}

/// The phase after a step that needs no input.
pub open spec fn advance_phase(lines: Seq<Seq<char>>, phase: Phase, screen: Screen) -> Phase {
    match phase {
        Phase::RenderTitle => enter_phase(lines, 0),
        Phase::Finished => Phase::AwaitingContinueAnswer { answer_col: screen.col, answer: false },
        _ => phase,
    }
}

/// The top row of a screen of the same height.
pub open spec fn top_of(screen: Screen) -> Screen {
    Screen { col: 0, row: 0, height: screen.height }
}

/// The start of the row below, on a screen of the same height.
pub open spec fn below(screen: Screen) -> Screen {
    Screen { col: 0, row: row_below(screen), height: screen.height }
}

/// What a step that needs no input draws: the title on the top row and what
/// follows it. Recording the answer column draws nothing.
pub open spec fn advance_commands(lines: Seq<Seq<char>>, phase: Phase, screen: Screen) -> Seq<
    Command,
> {
    match phase {
        Phase::RenderTitle => seq![Command::MoveTo { col: 0, row: 0 }, Command::ShowTitle]
            + line_break(top_of(screen)) + enter_commands(lines, 0, below(top_of(screen))),
        _ => Seq::empty(),
    }
}

/// The phase after an event.
pub open spec fn handle_phase(
    lines: Seq<Seq<char>>,
    phase: Phase,
    event: Event,
    screen: Screen,
) -> Phase {
    match phase {
        Phase::TypingLine { line, idx } => match event {
            Event::InputCharacter(_) => if idx < lines[line as int].len() {
                Phase::TypingLine { line, idx: (idx + 1) as usize }
            } else {
                phase
            },
            Event::NewLine => if idx == lines[line as int].len() {
                enter_phase(lines, (line + 1) as nat)
            } else {
                phase
            },
            Event::BackSpace => if idx > 0 && screen.col > 0 {
                Phase::TypingLine { line, idx: (idx - 1) as usize }
            } else {
                phase
            },
            Event::Quit => Phase::Cancelled,
        },
        Phase::AwaitingContinueAnswer { answer_col, answer } => match event {
            Event::InputCharacter(c) => if is_yes(c) {
                Phase::AwaitingContinueAnswer { answer_col, answer: true }
            } else if is_no(c) {
                Phase::AwaitingContinueAnswer { answer_col, answer: false }
            } else {
                phase
            },
            Event::NewLine => Phase::Done { answer },
            Event::BackSpace => phase,
            Event::Quit => Phase::Cancelled,
        },
        Phase::RenderTitle | Phase::Finished => match event {
            Event::Quit => Phase::Cancelled,
            _ => phase,
        },
        Phase::Done { .. } | Phase::Cancelled => phase,
    }
}

/// What an event draws.
pub open spec fn handle_commands(
    lines: Seq<Seq<char>>,
    phase: Phase,
    event: Event,
    screen: Screen,
) -> Seq<Command> {
    match phase {
        Phase::TypingLine { line, idx } => match event {
            Event::InputCharacter(c) => if idx < lines[line as int].len() {
                seq![Command::Typed { ch: c, matched: c == lines[line as int][idx as int] }]
            } else {
                Seq::empty()
            },
            Event::NewLine => if idx == lines[line as int].len() {
                line_break(screen) + enter_commands(lines, (line + 1) as nat, below(screen))
            } else {
                Seq::empty()
            },
            Event::BackSpace => if idx > 0 && screen.col > 0 {
                seq![Command::MoveLeft, Command::ClearToLineEnd]
            } else {
                Seq::empty()
            },
            Event::Quit => Seq::empty(),
        },
        Phase::AwaitingContinueAnswer { answer_col, answer } => match event {
            Event::InputCharacter(c) => if is_yes(c) || is_no(c) {
                seq![
                    Command::MoveTo { col: answer_col, row: screen.row },
                    Command::ClearToLineEnd,
                    Command::Echo {
                        ch: if is_yes(c) {
                            'y'
                        } else {
                            'n'
                        },
                    },
                ]
            } else {
                Seq::empty()
            },
            _ => Seq::empty(),
        },
        _ => Seq::empty(),
    }
}

/// Whether the learner asked for the next lesson: only a confirmed "yes" does.
pub open spec fn phase_outcome(phase: Phase) -> bool {
    phase matches Phase::Done { answer } && answer
}

/// Styles a typed character by comparing it with the expected one.
pub fn typed_feedback(expected: char, typed: char) -> (command: Command)
    ensures
        command == (Command::Typed { ch: typed, matched: typed == expected }),
{
    Command::Typed { ch: typed, matched: typed == expected }
}

/// Adds a line break from where `screen` has the cursor, and tells where the
/// cursor stands after it.
fn push_line_break(commands: &mut Vec<Command>, screen: Screen) -> (next: Screen)
    ensures
        final(commands)@ == old(commands)@ + line_break(screen),
        next == below(screen),
{
    let last = screen.height == 0 || screen.row >= screen.height - 1;
    if last {
        commands.push(Command::ScrollUp);
        commands.push(Command::MoveTo { col: 0, row: screen.row });
        assert(commands@ =~= old(commands)@ + line_break(screen));
        Screen { col: 0, row: screen.row, height: screen.height }
    } else {
        commands.push(Command::MoveTo { col: 0, row: screen.row + 1 });
        assert(commands@ =~= old(commands)@ + line_break(screen));
        Screen { col: 0, row: screen.row + 1, height: screen.height }
    }
}

impl Session {
    /// The phase fits the lesson's lines. This holds of every session.
    pub open spec fn wf(&self) -> bool {
        phase_fits(self@.lines, self@.phase)
    }

    #[verifier::type_invariant]
    spec fn fits(self) -> bool {
        phase_fits(line_views(self.lines@), self.phase)
    }

    /// A session on `lesson`, with nothing drawn yet.
    pub fn new(lesson: &Lesson) -> (session: Session)
        ensures
            session.wf(),
            session@.title == title_of(lesson@.text),
            session@.lines == content_lines(lesson@.text),
            session@.phase == Phase::RenderTitle,
    {
        let mut lines = lesson.lines();
        let ghost all = lines@;
        let title = if lines.len() > 0 {
            lines.remove(0)
        } else {
            String::new()
        };
        proof {
            if all.len() > 0 {
                assert(line_views(lines@) =~= line_views(all).drop_first());
                assert(title@ == line_views(all)[0]);
            } else {
                assert(line_views(lines@) =~= Seq::empty());
            }
        }
        Session { title, lines, phase: Phase::RenderTitle }
    }

    /// Where the session stands.
    pub fn phase(&self) -> (phase: Phase)
        ensures
            phase == self@.phase,
    {
        self.phase
    }

    /// Number of lines to type.
    pub fn line_count(&self) -> (count: usize)
        ensures
            count == self@.lines.len(),
    {
        self.lines.len()
    }

    /// The text that `Command::ShowTitle` stands for.
    pub fn title(&self) -> (text: String)
        ensures
            text@ == self@.title,
    {
        self.title.clone()
    }

    /// The text that `Command::ShowLine` stands for, if there is such a line.
    pub fn line_text(&self, line: usize) -> (text: Option<String>)
        ensures
            line < self@.lines.len() ==> text is Some && text->0@ == self@.lines[line as int],
            line >= self@.lines.len() ==> text is None,
    {
        if line < self.lines.len() {
            Some(self.lines[line].clone())
        } else {
            None
        }
    }

    /// The text that `Command::ShowPrompt` stands for.
    pub fn prompt(&self) -> (text: String)
        ensures
            text@ == prompt_text(self@.title),
    {
        self.title.clone().concat(" finished, next lesson? (y/n)")
    }

    /// The session waits for the learner: the next step is `handle`.
    pub fn awaits_event(&self) -> (waiting: bool)
        ensures
            waiting == (self@.phase is TypingLine || self@.phase is AwaitingContinueAnswer),
    {
        match self.phase {
            Phase::TypingLine { .. } => true,
            Phase::AwaitingContinueAnswer { .. } => true,
            _ => false,
        }
    }

    /// The session has ended, by an answer or by quitting.
    pub fn is_over(&self) -> (over: bool)
        ensures
            over == (self@.phase is Done || self@.phase is Cancelled),
    {
        match self.phase {
            Phase::Done { .. } => true,
            Phase::Cancelled => true,
            _ => false,
        }
    }

    /// Whether to go on with the next lesson.
    pub fn outcome(&self) -> (go_on: bool)
        ensures
            go_on == phase_outcome(self@.phase),
    {
        match self.phase {
            Phase::Done { answer } => answer,
            _ => false,
        }
    }

    /// Adds what is drawn when `next` lines are done and the cursor stands on a
    /// fresh row, and tells the phase that begins there.
    fn push_entry(&self, commands: &mut Vec<Command>, next: usize, screen: Screen) -> (phase: Phase)
        requires
            next <= self@.lines.len(),
        ensures
            final(commands)@ == old(commands)@ + enter_commands(self@.lines, next as nat, screen),
            phase == enter_phase(self@.lines, next as nat),
            phase_fits(self@.lines, phase),
    {
        if next < self.lines.len() {
            commands.push(Command::ShowLine { line: next });
            push_line_break(commands, screen);
            assert(commands@ =~= old(commands)@ + enter_commands(
                self@.lines,
                next as nat,
                screen,
            ));
            Phase::TypingLine { line: next, idx: 0 }
        } else {
            commands.push(Command::ShowPrompt);
            assert(commands@ =~= old(commands)@ + enter_commands(
                self@.lines,
                next as nat,
                screen,
            ));
            Phase::Finished
        }
    }

    /// Takes the step that needs no input. Before anything is drawn, it draws
    /// the title and the first line, or the closing question where the lesson
    /// has no line to type. Once the question is drawn, it records the column
    /// at which the cursor stands as the place of the answer. In every other
    /// phase nothing happens.
    pub fn advance(&mut self, screen: Screen) -> (commands: Vec<Command>)
        ensures
            final(self).wf(),
            final(self)@.title == old(self)@.title,
            final(self)@.lines == old(self)@.lines,
            final(self)@.phase == advance_phase(old(self)@.lines, old(self)@.phase, screen),
            commands@ == advance_commands(old(self)@.lines, old(self)@.phase, screen),
    {
        proof {
            use_type_invariant(&*self);
        }
        let mut commands: Vec<Command> = Vec::new();
        match self.phase {
            Phase::RenderTitle => {
                commands.push(Command::MoveTo { col: 0, row: 0 });
                commands.push(Command::ShowTitle);
                let top = Screen { col: 0, row: 0, height: screen.height };
                let first_row = push_line_break(&mut commands, top);
                let phase = self.push_entry(&mut commands, 0, first_row);
                assert(commands@ =~= advance_commands(self@.lines, self@.phase, screen));
                self.phase = phase;
            },
            Phase::Finished => {
                self.phase = Phase::AwaitingContinueAnswer { answer_col: screen.col, answer: false };
            },
            _ => {},
        }
        commands
    }

    /// Takes the step that an event asks for.
    ///
    /// While a line is typed: a character before the line's end is written and
    /// styled by whether it is the expected one, and the position moves on
    /// either way; at the line's end a character is ignored. Enter at the
    /// line's end breaks the line and begins the next one, or draws the
    /// closing question after the last; before the end it is ignored.
    /// Backspace takes one character back, unless nothing is typed or the
    /// cursor is in the first column.
    ///
    /// While the question waits: `y` or `n`, in either case, is written at the
    /// answer's place and remembered; enter ends the session with the answer
    /// remembered last, which is "no" where none was given.
    ///
    /// Quitting cancels a session that has not ended. Nothing else has any effect.
    pub fn handle(&mut self, event: Event, screen: Screen) -> (commands: Vec<Command>)
        ensures
            final(self).wf(),
            final(self)@.title == old(self)@.title,
            final(self)@.lines == old(self)@.lines,
            final(self)@.phase == handle_phase(old(self)@.lines, old(self)@.phase, event, screen),
            commands@ == handle_commands(old(self)@.lines, old(self)@.phase, event, screen),
    {
        proof {
            use_type_invariant(&*self);
        }
        let mut commands: Vec<Command> = Vec::new();
        match self.phase {
            Phase::TypingLine { line, idx } => {
                assert(line < self.lines.len());
                let text = self.lines[line].as_str();
                let len = text.unicode_len();
                assert(text@ == self@.lines[line as int]);
                match event {
                    Event::InputCharacter(c) => {
                        if idx < len {
                            commands.push(typed_feedback(text.get_char(idx), c));
                            self.phase = Phase::TypingLine { line, idx: idx + 1 };
                        }
                    },
                    Event::NewLine => {
                        if idx == len {
                            let next_row = push_line_break(&mut commands, screen);
                            let phase = self.push_entry(&mut commands, line + 1, next_row);
                            self.phase = phase;
                        }
                    },
                    Event::BackSpace => {
                        if idx > 0 && screen.col > 0 {
                            commands.push(Command::MoveLeft);
                            commands.push(Command::ClearToLineEnd);
                            self.phase = Phase::TypingLine { line, idx: idx - 1 };
                        }
                    },
                    Event::Quit => {
                        self.phase = Phase::Cancelled;
                    },
                }
            },
            Phase::AwaitingContinueAnswer { answer_col, answer } => {
                match event {
                    Event::InputCharacter(c) => {
                        let yes = c == 'y' || c == 'Y';
                        let no = c == 'n' || c == 'N';
                        if yes || no {
                            commands.push(Command::MoveTo { col: answer_col, row: screen.row });
                            commands.push(Command::ClearToLineEnd);
                            commands.push(
                                Command::Echo {
                                    ch: if yes {
                                        'y'
                                    } else {
                                        'n'
                                    },
                                },
                            );
                            self.phase = Phase::AwaitingContinueAnswer { answer_col, answer: yes };
                        }
                    },
                    Event::NewLine => {
                        self.phase = Phase::Done { answer };
                    },
                    Event::BackSpace => {},
                    Event::Quit => {
                        self.phase = Phase::Cancelled;
                    },
                }
            },
            Phase::RenderTitle | Phase::Finished => {
                match event {
                    Event::Quit => {
                        self.phase = Phase::Cancelled;
                    },
                    _ => {},
                }
            },
            Phase::Done { .. } | Phase::Cancelled => {},
        }
        assert(commands@ =~= handle_commands(old(self)@.lines, old(self)@.phase, event, screen));
        commands
    }
}

/// A character typed before the end of a line is written whatever it is,
/// marked as a match exactly when it is the expected one, and moves the
/// position on by one.
pub proof fn typed_character_is_marked(
    lines: Seq<Seq<char>>,
    line: usize,
    idx: usize,
    c: char,
    screen: Screen,
)
    requires
        phase_fits(lines, Phase::TypingLine { line, idx }),
        idx < lines[line as int].len(),
    ensures
        handle_commands(lines, Phase::TypingLine { line, idx }, Event::InputCharacter(c), screen)
            == seq![Command::Typed { ch: c, matched: c == lines[line as int][idx as int] }],
        handle_phase(lines, Phase::TypingLine { line, idx }, Event::InputCharacter(c), screen)
            == (Phase::TypingLine { line, idx: (idx + 1) as usize }),
{
}

/// A line is left for the next one, or for the closing question, by enter at
/// the line's end and by nothing else; short of quitting, every other event
/// stays on the line.
pub proof fn line_is_left_by_enter_at_its_end(
    lines: Seq<Seq<char>>,
    line: usize,
    idx: usize,
    event: Event,
    screen: Screen,
)
    requires
        phase_fits(lines, Phase::TypingLine { line, idx }),
    ensures
        event == Event::NewLine && idx == lines[line as int].len() ==> handle_phase(
            lines,
            Phase::TypingLine { line, idx },
            event,
            screen,
        ) == enter_phase(lines, (line + 1) as nat),
        !(event == Event::NewLine && idx == lines[line as int].len()) && event != Event::Quit ==> {
            let after = handle_phase(lines, Phase::TypingLine { line, idx }, event, screen);
            after is TypingLine && after->line == line
        },
{
}

/// Backspace with nothing typed on the line moves no cursor and changes no state.
pub proof fn backspace_at_line_start_is_idle(lines: Seq<Seq<char>>, line: usize, screen: Screen)
    ensures
        handle_commands(lines, Phase::TypingLine { line, idx: 0 }, Event::BackSpace, screen)
            == Seq::<Command>::empty(),
        handle_phase(lines, Phase::TypingLine { line, idx: 0 }, Event::BackSpace, screen)
            == (Phase::TypingLine { line, idx: 0 }),
{
}

/// An answer followed by enter ends the session with that answer, whatever was
/// answered before.
pub proof fn answer_then_enter_decides(
    lines: Seq<Seq<char>>,
    answer_col: u16,
    earlier: bool,
    c: char,
    at_answer: Screen,
    at_enter: Screen,
)
    requires
        is_yes(c) || is_no(c),
    ensures
        handle_phase(
            lines,
            handle_phase(
                lines,
                Phase::AwaitingContinueAnswer { answer_col, answer: earlier },
                Event::InputCharacter(c),
                at_answer,
            ),
            Event::NewLine,
            at_enter,
        ) == (Phase::Done { answer: is_yes(c) }),
        phase_outcome(Phase::Done { answer: is_yes(c) }) == is_yes(c),
{
}

/// Enter with no answer given ends the session with "no".
pub proof fn enter_without_answer_declines(
    lines: Seq<Seq<char>>,
    at_question: Screen,
    at_enter: Screen,
)
    ensures
        handle_phase(
            lines,
            advance_phase(lines, Phase::Finished, at_question),
            Event::NewLine,
            at_enter,
        ) == (Phase::Done { answer: false }),
        !phase_outcome(Phase::Done { answer: false }),
{
}

/// Quitting while a line is typed or while the question waits cancels the
/// session: nothing is drawn, and the outcome is "do not go on".
pub proof fn quit_cancels(lines: Seq<Seq<char>>, phase: Phase, screen: Screen)
    requires
        phase is TypingLine || phase is AwaitingContinueAnswer,
    ensures
        handle_phase(lines, phase, Event::Quit, screen) == Phase::Cancelled,
        handle_commands(lines, phase, Event::Quit, screen) == Seq::<Command>::empty(),
        !phase_outcome(Phase::Cancelled),
{
}

/// One step of a run, with what the terminal reported when it was taken: the
/// step that needs no input, or an event.
pub ghost enum Step {
    Advance { screen: Screen },
    Handle { event: Event, screen: Screen },
}

/// The phase after one step.
pub open spec fn step_phase(lines: Seq<Seq<char>>, phase: Phase, step: Step) -> Phase {
    match step {
        Step::Advance { screen } => advance_phase(lines, phase, screen),
        Step::Handle { event, screen } => handle_phase(lines, phase, event, screen),
    }
}

/// The phase after a run of steps, taken one after the other.
pub open spec fn run_phase(lines: Seq<Seq<char>>, phase: Phase, steps: Seq<Step>) -> Phase
    decreases steps.len(),
{
    if steps.len() == 0 {
        phase
    } else {
        run_phase(lines, step_phase(lines, phase, steps.first()), steps.drop_first())
    }
}

/// The step is enter, pressed while "yes" is the answer remembered.
pub open spec fn confirms_yes(phase: Phase, step: Step) -> bool {
    &&& step matches Step::Handle { event, .. }
    &&& event == Event::NewLine
    &&& phase matches Phase::AwaitingContinueAnswer { answer, .. }
    &&& answer
}

/// A run can be taken in two parts.
pub proof fn run_in_two_parts(lines: Seq<Seq<char>>, phase: Phase, steps: Seq<Step>, at: int)
    requires
        0 <= at <= steps.len(),
    ensures
        run_phase(lines, phase, steps) == run_phase(
            lines,
            run_phase(lines, phase, steps.take(at)),
            steps.skip(at),
        ),
    decreases at,
{
    if at == 0 {
        assert(steps.skip(0) =~= steps);
    } else {
        let rest = steps.drop_first();
        run_in_two_parts(lines, step_phase(lines, phase, steps.first()), rest, at - 1);
        assert(steps.take(at).drop_first() =~= rest.take(at - 1));
        assert(steps.skip(at) =~= rest.skip(at - 1));
    }
}

/// A session that has ended stays as it ended, whatever comes.
pub proof fn ended_session_stays_ended(lines: Seq<Seq<char>>, phase: Phase, steps: Seq<Step>)
    requires
        phase is Done || phase is Cancelled,
    ensures
        run_phase(lines, phase, steps) == phase,
    decreases steps.len(),
{
    if steps.len() > 0 {
        ended_session_stays_ended(lines, phase, steps.drop_first());
    }
}

/// A typing position that lies inside the lesson stays inside it over a
/// whole run.
pub proof fn run_keeps_the_phase_fitting(lines: Seq<Seq<char>>, phase: Phase, steps: Seq<Step>)
    requires
        phase_fits(lines, phase),
    ensures
        phase_fits(lines, run_phase(lines, phase, steps)),
    decreases steps.len(),
{
    if steps.len() > 0 {
        run_keeps_the_phase_fitting(
            lines,
            step_phase(lines, phase, steps.first()),
            steps.drop_first(),
        );
    }
}

/// Quitting ends the run: if quit comes at any step before the learner has
/// answered and confirmed, the run ends cancelled, whatever follows, and
/// its outcome is "do not go on".
pub proof fn quit_ends_the_run(lines: Seq<Seq<char>>, phase: Phase, steps: Seq<Step>, at: int)
    requires
        0 <= at < steps.len(),
        steps[at] matches Step::Handle { event, .. } && event == Event::Quit,
        !(run_phase(lines, phase, steps.take(at)) is Done),
    ensures
        run_phase(lines, phase, steps) == Phase::Cancelled,
        !phase_outcome(run_phase(lines, phase, steps)),
{
    let reached = run_phase(lines, phase, steps.take(at));
    let later = steps.skip(at);
    run_in_two_parts(lines, phase, steps, at);
    assert(later.first() == steps[at]);
    assert(step_phase(lines, reached, later.first()) == Phase::Cancelled);
    ended_session_stays_ended(lines, Phase::Cancelled, later.drop_first());
}

/// The outcome of a whole run is "go on" exactly when, at some step, enter
/// was pressed while "yes" was the answer remembered.
pub proof fn outcome_is_a_confirmed_yes(lines: Seq<Seq<char>>, phase: Phase, steps: Seq<Step>)
    requires
        !(phase is Done),
    ensures
        phase_outcome(run_phase(lines, phase, steps)) <==> exists|at: int|
            0 <= at < steps.len() && confirms_yes(
                run_phase(lines, phase, steps.take(at)),
                #[trigger] steps[at],
            ),
    decreases steps.len(),
{
    if steps.len() > 0 {
        let n = steps.len() - 1;
        let earlier = steps.take(n);
        let reached = run_phase(lines, phase, earlier);
        let last = steps[n];
        outcome_is_a_confirmed_yes(lines, phase, earlier);
        run_in_two_parts(lines, phase, steps, n);
        let tail = steps.skip(n);
        assert(tail.first() == last);
        assert(tail.drop_first().len() == 0);
        assert(run_phase(lines, reached, tail) == run_phase(
            lines,
            step_phase(lines, reached, last),
            tail.drop_first(),
        ));
        assert(run_phase(lines, phase, steps) == step_phase(lines, reached, last));
        assert forall|at: int| 0 <= at < n implies earlier.take(at) =~= steps.take(at)
            && earlier[at] == steps[at] by {}
        if phase_outcome(reached) {
            let at = choose|at: int|
                0 <= at < earlier.len() && confirms_yes(
                    run_phase(lines, phase, earlier.take(at)),
                    #[trigger] earlier[at],
                );
            assert(earlier.take(at) =~= steps.take(at));
            assert(confirms_yes(run_phase(lines, phase, steps.take(at)), steps[at]));
            ended_session_stays_ended(lines, reached, steps.skip(n));
        } else if phase_outcome(run_phase(lines, phase, steps)) {
            assert(confirms_yes(run_phase(lines, phase, steps.take(n)), steps[n]));
        } else {
            assert forall|at: int| 0 <= at < steps.len() implies !confirms_yes(
                run_phase(lines, phase, steps.take(at)),
                #[trigger] steps[at],
            ) by {
                if at < n {
                    assert(earlier.take(at) =~= steps.take(at));
                    assert(earlier[at] == steps[at]);
                }
            }
        }
    }
}

} // verus!
