//! Keys and the actions they trigger in the viewer.

use vstd::prelude::*;

verus! {

/// Actions the user can trigger via keyboard.
#[derive(Debug, Clone, Copy, PartialEq, Eq, Structural)]
pub enum Action {
    Up,
    Down,
    SwitchPanel,
    Select,
    Deselect,
    Quit,
}

/// The keys the viewer tells apart; every other key is `Other`.
#[derive(Debug, Clone, Copy, PartialEq, Eq, Structural)]
pub enum Key {
    Up,
    Down,
    Tab,
    Enter,
    Esc,
    Char(char),
    Other,
}

pub open spec fn spec_map_key(code: Key) -> Option<Action> {
    match code {
        Key::Up => Some(Action::Up),
        Key::Char(c) => if c == 'k' {
            Some(Action::Up)
        } else if c == 'j' {
            Some(Action::Down)
        } else if c == 'q' {
            Some(Action::Quit)
        } else {
            None
        },
        Key::Down => Some(Action::Down),
        Key::Tab => Some(Action::SwitchPanel),
        Key::Enter => Some(Action::Select),
        Key::Esc => Some(Action::Deselect),
        Key::Other => None,
    }
}

/// Map a key to an application action.
pub fn map_key(code: Key) -> (r: Option<Action>)
    ensures
        r == spec_map_key(code),
{
    match code {
        Key::Up => Some(Action::Up),
        Key::Char(c) => {
            if c == 'k' {
                Some(Action::Up)
            } else if c == 'j' {
                Some(Action::Down)
            } else if c == 'q' {
                Some(Action::Quit)
            } else {
                None
            }
        },
        Key::Down => Some(Action::Down),
        Key::Tab => Some(Action::SwitchPanel),
        Key::Enter => Some(Action::Select),
        Key::Esc => Some(Action::Deselect),
        Key::Other => None,
    }
}

} // verus!
