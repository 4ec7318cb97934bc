//! Key presses and input events as plain values, so that a window system's
//! own event types stay outside.

use vstd::prelude::*;
use crate::ui_data::{Action, ActionView};

verus! {

/// A key of the keyboard, as far as a picker tells keys apart.
#[derive(Clone, Debug, PartialEq, Eq)]
pub enum Key {
    Escape,
    ArrowLeft,
    ArrowRight,
    Enter,
    Tab,
    Backspace,
    /// A key that produces text, with the text it produces.
    Character(String),
    /// Any other key.
    Other,
}

/// A [`Key`] as contracts see it.
pub ghost enum KeyView {
    Escape,
    ArrowLeft,
    ArrowRight,
    Enter,
    Tab,
    Backspace,
    Character(Seq<char>),
    Other,
}

impl View for Key {
    type V = KeyView;

    open spec fn view(&self) -> KeyView {
        match self {
            Key::Escape => KeyView::Escape,
            Key::ArrowLeft => KeyView::ArrowLeft,
            Key::ArrowRight => KeyView::ArrowRight,
            Key::Enter => KeyView::Enter,
            Key::Tab => KeyView::Tab,
            Key::Backspace => KeyView::Backspace,
            Key::Character(text) => KeyView::Character(text@),
            Key::Other => KeyView::Other,
        }
    }
}

impl KeyView {
    /// What pressing the key asks of a session: escape cancels, the arrows
    /// move the selection, enter confirms, tab completes, backspace
    /// deletes, a character is typed, and any other key asks nothing.
    pub open spec fn action(self) -> Option<ActionView> {
        match self {
            KeyView::Escape => Some(ActionView::Cancel),
            KeyView::ArrowLeft => Some(ActionView::Previous),
            KeyView::ArrowRight => Some(ActionView::Next),
            KeyView::Enter => Some(ActionView::Confirm),
            KeyView::Tab => Some(ActionView::Complete),
            KeyView::Backspace => Some(ActionView::Backspace),
            KeyView::Character(text) => Some(ActionView::Insert(text)),
            KeyView::Other => None,
        }
    }
}

/// The views of an optional action.
pub open spec fn action_view(action: Option<Action>) -> Option<ActionView> {
    match action {
        Some(action) => Some(action@),
        None => None,
    }
}

impl Key {
    /// What pressing the key asks of a session.
    pub fn action(&self) -> (r: Option<Action>)
        ensures
            action_view(r) == self@.action(),
    {
        match self {
            Key::Escape => Some(Action::Cancel),
            Key::ArrowLeft => Some(Action::Previous),
            Key::ArrowRight => Some(Action::Next),
            Key::Enter => Some(Action::Confirm),
            Key::Tab => Some(Action::Complete),
            Key::Backspace => Some(Action::Backspace),
            Key::Character(text) => Some(Action::Insert(text.clone())),
            Key::Other => None,
        }
    }
}

/// The modifier keys held down while a key is pressed.
#[derive(Clone, Copy, Debug, PartialEq, Eq, Structural)]
pub struct Modifiers {
    pub alt: bool,
    pub ctrl: bool,
    pub shift: bool,
    pub mac_cmd: bool,
    pub command: bool,
}

impl Modifiers {
    /// No modifier key is held down.
    pub open spec fn is_none(self) -> bool {
        !self.alt && !self.ctrl && !self.shift && !self.mac_cmd && !self.command
    }

    /// Whether no modifier key is held down.
    pub fn none(&self) -> (r: bool)
        ensures
            r == self.is_none(),
    {
        !self.alt && !self.ctrl && !self.shift && !self.mac_cmd && !self.command
    }
}

/// One thing that came in from the keyboard.
#[derive(Clone, Debug, PartialEq, Eq)]
pub enum Event {
    /// Text was typed.
    Text(String),
    /// A key went down (`pressed`) or up.
    Key { key: Key, pressed: bool, repeat: bool, modifiers: Modifiers },
    /// Anything else.
    Other,
}

/// An [`Event`] as contracts see it.
pub ghost enum EventView {
    Text(Seq<char>),
    Key { key: KeyView, pressed: bool, repeat: bool, modifiers: Modifiers },
    Other,
}

impl View for Event {
    type V = EventView;

    open spec fn view(&self) -> EventView {
        match self {
            Event::Text(text) => EventView::Text(text@),
            Event::Key { key, pressed, repeat, modifiers } => EventView::Key {
                key: key@,
                pressed: *pressed,
                repeat: *repeat,
                modifiers: *modifiers,
            },
            Event::Other => EventView::Other,
        }
    }
}

impl EventView {
    /// What the event asks of a session. Typed text is inserted. A key
    /// counts when it goes down with no modifier held: backspace deletes,
    /// escape cancels, enter confirms and the arrows move the selection.
    /// Everything else asks nothing.
    pub open spec fn action(self) -> Option<ActionView> {
        match self {
            EventView::Text(text) => Some(ActionView::Insert(text)),
            EventView::Key { key, pressed, repeat, modifiers } => {
                if pressed && modifiers.is_none() {
                    match key {
                        KeyView::Backspace => Some(ActionView::Backspace),
                        KeyView::Escape => Some(ActionView::Cancel),
                        KeyView::Enter => Some(ActionView::Confirm),
                        KeyView::ArrowLeft => Some(ActionView::Previous),
                        KeyView::ArrowRight => Some(ActionView::Next),
                        _ => None,
                    }
                } else {
                    None
                }
            },
            EventView::Other => None,
        }
    }
}

impl Event {
    /// What the event asks of a session.
    pub fn action(&self) -> (r: Option<Action>)
        ensures
            action_view(r) == self@.action(),
    {
        match self {
            Event::Text(text) => Some(Action::Insert(text.clone())),
            Event::Key { key, pressed, repeat: _, modifiers } => {
                if *pressed && modifiers.none() {
                    match key {
                        Key::Backspace => Some(Action::Backspace),
                        Key::Escape => Some(Action::Cancel),
                        Key::Enter => Some(Action::Confirm),
                        Key::ArrowLeft => Some(Action::Previous),
                        Key::ArrowRight => Some(Action::Next),
                        _ => None,
                    }
                } else {
                    None
                }
            },
            Event::Other => None,
        }
    }
}

/// The views of `events`, in order.
pub open spec fn event_views(events: Seq<Event>) -> Seq<EventView> {
    events.map_values(|event: Event| event@)
}

} // verus!
