use vstd::prelude::*;

verus! {

/// An input (user) event.
#[derive(Debug, Clone, Copy, PartialEq, Eq, Structural)]
pub enum Event {
    InputCharacter(char),
    NewLine,
    BackSpace,
    Quit,
}

/// A key press as the terminal reports it, reduced to what the engine tells apart.
#[derive(Debug, Clone, Copy, PartialEq, Eq, Structural)]
pub enum Key {
    Char(char),
    Ctrl(char),
    Esc,
    Backspace,
    Enter,
    Other,
}

/// The event that a key press stands for, if any.
pub open spec fn key_event(key: Key) -> Option<Event> {
    match key {
        Key::Char(c) => Some(Event::InputCharacter(c)),
        Key::Esc => Some(Event::Quit),
        Key::Ctrl(c) => if c == 'c' {
            Some(Event::Quit)
        } else {
            None
        },
        Key::Backspace => Some(Event::BackSpace),
        Key::Enter => Some(Event::NewLine),
        Key::Other => None,
    }
}

/// Reads a key press as an event: a character is input, escape and control-c quit,
/// backspace and enter are themselves, and every other key is passed over.
pub fn event_for_key(key: Key) -> (event: Option<Event>)
    ensures
        event == key_event(key),
{
    match key {
        Key::Char(c) => Some(Event::InputCharacter(c)),
        Key::Esc => Some(Event::Quit),
        Key::Ctrl(c) => {
            if c == 'c' {
                Some(Event::Quit)
            } else {
                None
            }
        },
        Key::Backspace => Some(Event::BackSpace),
        Key::Enter => Some(Event::NewLine),
        Key::Other => None,
    }
}

} // verus!
