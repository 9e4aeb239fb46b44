//! Input events and what the viewer does with them.

use vstd::prelude::*;

verus! {

/// What handling an event came to.
#[derive(Debug, Clone, Copy, PartialEq, Eq, Structural)]
pub enum EventResponse {
    Continue,
    Consumed,
    Ignored,
    Halt,
}

/// A key of the keyboard, as far as the viewer tells keys apart.
#[derive(Debug, Clone, Copy, PartialEq, Eq, Structural)]
pub enum KeyCode {
    Char(char),
    Enter,
    Up,
    Down,
    Left,
    Right,
    /// Any other key.
    Other,
}

/// Whether a key went down, repeats, or came up.
#[derive(Debug, Clone, Copy, PartialEq, Eq, Structural)]
pub enum KeyEventKind {
    Press,
    Repeat,
    Release,
}

/// The modifier bit of the control key.
pub const CONTROL: u8 = 0b0000_0010;

/// A key event: the key, the modifier keys held (a set of bits, `CONTROL`
/// among them), and the kind of event.
#[derive(Debug, Clone, Copy, PartialEq, Eq, Structural)]
pub struct KeyEvent {
    pub code: KeyCode,
    pub modifiers: u8,
    pub kind: KeyEventKind,
}

/// An input event: a key, or anything else (mouse, focus, paste, resize).
#[derive(Debug, Clone, Copy, PartialEq, Eq, Structural)]
pub enum Event {
    Key(KeyEvent),
    Other,
}

/// A handler of input events.
pub trait EventHandler {
    fn handle_event(e: Event) -> EventResponse;
}

/// The event is a press of `c` with the control key and no other modifier.
pub open spec fn is_ctrlc_event(event: Event) -> bool {
    match event {
        Event::Key(key) => key.kind == KeyEventKind::Press && key.code == KeyCode::Char('c') && key.modifiers
            == CONTROL,
        Event::Other => false,
    }
}

/// Whether the event is a press of Ctrl-C.
pub fn is_ctrlc(event: &Event) -> (r: bool)
    ensures
        r == is_ctrlc_event(*event),
{
    if let Event::Key(key) = event {
        if key.kind == KeyEventKind::Press && key.code == KeyCode::Char('c') && key.modifiers == CONTROL {
            return true;
        }
    }
    false
}

/// What the viewer does on an event.
#[derive(Debug, Clone, Copy, PartialEq, Eq, Structural)]
pub enum Action {
    Quit,
    ToggleExpand,
    NextStack,
    PrevStack,
    PrevFrame,
    NextFrame,
    Nothing,
}

/// Ctrl-C and `q` quit; Enter switches the source display; Down or `j`
/// and Up or `k` move between stacks; Left or `h` and Right or `l` move
/// between frames. Apart from Ctrl-C, a key counts whatever its kind and
/// modifiers; events other than keys do nothing.
pub open spec fn event_action(event: Event) -> Action {
    if is_ctrlc_event(event) {
        Action::Quit
    } else {
        match event {
            Event::Key(key) => match key.code {
                KeyCode::Char('q') => Action::Quit,
                KeyCode::Enter => Action::ToggleExpand,
                KeyCode::Down | KeyCode::Char('j') => Action::NextStack,
                KeyCode::Up | KeyCode::Char('k') => Action::PrevStack,
                KeyCode::Left | KeyCode::Char('h') => Action::PrevFrame,
                KeyCode::Right | KeyCode::Char('l') => Action::NextFrame,
                _ => Action::Nothing,
            },
            Event::Other => Action::Nothing,
        }
    }
}

/// The action that the viewer takes on `event`.
pub fn action_for(event: &Event) -> (action: Action)
    ensures
        action == event_action(*event),
{
    if is_ctrlc(event) {
        return Action::Quit;
    }
    match event {
        Event::Key(key) => match key.code {
            KeyCode::Char('q') => Action::Quit,
            KeyCode::Enter => Action::ToggleExpand,
            KeyCode::Down | KeyCode::Char('j') => Action::NextStack,
            KeyCode::Up | KeyCode::Char('k') => Action::PrevStack,
            KeyCode::Left | KeyCode::Char('h') => Action::PrevFrame,
            KeyCode::Right | KeyCode::Char('l') => Action::NextFrame,
            _ => Action::Nothing,
        },
        Event::Other => Action::Nothing,
    }
}

/// Ctrl-C and `q` always quit, whatever else the event carries.
pub proof fn law_quit_keys_quit(event: Event)
    ensures
        is_ctrlc_event(event) ==> event_action(event) == Action::Quit,
        (event matches Event::Key(key) && key.code == KeyCode::Char('q')) ==> event_action(event) == Action::Quit,
{
}


/// Apart from Ctrl-C, the key alone decides: Enter switches the source
/// display, Down and `j` move down, Up and `k` move up, Left and `h` move
/// left, Right and `l` move right, and any other key or event does nothing.
pub proof fn law_keys_decide_the_action(event: Event)
    ensures
        !is_ctrlc_event(event) ==> match event {
            Event::Key(key) => {
                &&& key.code == KeyCode::Enter ==> event_action(event) == Action::ToggleExpand
                &&& (key.code == KeyCode::Down || key.code == KeyCode::Char('j')) ==> event_action(event)
                    == Action::NextStack
                &&& (key.code == KeyCode::Up || key.code == KeyCode::Char('k')) ==> event_action(event)
                    == Action::PrevStack
                &&& (key.code == KeyCode::Left || key.code == KeyCode::Char('h')) ==> event_action(event)
                    == Action::PrevFrame
                &&& (key.code == KeyCode::Right || key.code == KeyCode::Char('l')) ==> event_action(event)
                    == Action::NextFrame
                &&& key.code == KeyCode::Other ==> event_action(event) == Action::Nothing
                &&& (key.code matches KeyCode::Char(c) && c != 'q' && c != 'j' && c != 'k' && c != 'h' && c
                    != 'l') ==> event_action(event) == Action::Nothing
            },
            Event::Other => event_action(event) == Action::Nothing,
        },
{
}


/// Ctrl-C is only a press of lower-case `c` with the control key alone: a
/// repeat or a release, another modifier held with control, no modifier, or
/// another key never counts.
pub proof fn law_ctrlc_is_only_a_control_c_press(key: KeyEvent)
    ensures
        is_ctrlc_event(Event::Key(key)) ==> key.kind == KeyEventKind::Press,
        is_ctrlc_event(Event::Key(key)) ==> key.code == KeyCode::Char('c'),
        is_ctrlc_event(Event::Key(key)) ==> key.modifiers == CONTROL,
        (key.kind == KeyEventKind::Press && key.code == KeyCode::Char('c') && key.modifiers == CONTROL)
            ==> is_ctrlc_event(Event::Key(key)),
        !is_ctrlc_event(Event::Other),
{
}

} // verus!
