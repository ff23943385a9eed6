//! Input events as plain values, and the filter that decides which of them a
//! program reacts to.

use vstd::prelude::*;

verus! {

/// A key, as far as the programs tell keys apart.
#[derive(Clone, Copy, Debug, PartialEq, Eq)]
pub enum Key {
    /// A key that produces a character.
    Char(char),
    /// The left arrow.
    Left,
    /// The right arrow.
    Right,
    /// Any other key.
    Other,
}

/// What happened to a key.
#[derive(Clone, Copy, Debug, PartialEq, Eq)]
pub enum KeyPhase {
    Press,
    Repeat,
    Release,
}

/// What the pointer did.
#[derive(Clone, Copy, Debug, PartialEq, Eq)]
pub enum PointerAction {
    Moved,
    Down,
    Up,
    Drag,
    Scroll,
}

/// One event as the terminal reports it.
#[derive(Clone, Copy, Debug, PartialEq, Eq)]
pub enum InputEvent {
    /// A key changed its phase.
    Key { code: Key, phase: KeyPhase },
    /// The pointer did something.
    Pointer { action: PointerAction },
    /// Focus, paste, resize and whatever else a terminal may report.
    Other,
}

/// What an event means to a program once the noise is filtered out.
#[derive(Clone, Copy, Debug, PartialEq, Eq)]
pub enum Signal {
    /// A key went down.
    KeyPress(Key),
    /// The pointer moved with no button held.
    PointerMoved,
    /// Nothing a program reacts to.
    Ignored,
}

/// The one way in which a terminal session fails: an I/O error, named by the
/// step of the loop that met it.
#[derive(Clone, Copy, Debug, PartialEq, Eq)]
pub enum TerminalError {
    /// Drawing the frame failed.
    Draw,
    /// Reading the next event failed.
    Read,
}

impl InputEvent {
    /// The key that went down, if the event is a key press. Repeats and
    /// releases are not presses: a terminal that reports both would otherwise
    /// have every key handled twice.
    pub open spec fn pressed(self) -> Option<Key> {
        match self {
            InputEvent::Key { code, phase: KeyPhase::Press } => Some(code),
            _ => None,
        }
    }

    /// The meaning of the event for a program that also follows the pointer.
    pub open spec fn signal(self) -> Signal {
        match self {
            InputEvent::Key { code, phase: KeyPhase::Press } => Signal::KeyPress(code),
            InputEvent::Pointer { action: PointerAction::Moved } => Signal::PointerMoved,
            _ => Signal::Ignored,
        }
    }

    /// Filters for key presses only.
    pub fn key_press(&self) -> (key: Option<Key>)
        ensures
            key == self.pressed(),
    {
        match self {
            InputEvent::Key { code, phase } => match phase {
                KeyPhase::Press => Some(*code),
                _ => None,
            },
            _ => None,
        }
    }

    /// Filters for key presses and pointer moves.
    pub fn classify(&self) -> (signal: Signal)
        ensures
            signal == self.signal(),
    {
        match self {
            InputEvent::Key { code, phase } => match phase {
                KeyPhase::Press => Signal::KeyPress(*code),
                _ => Signal::Ignored,
            },
            InputEvent::Pointer { action } => match action {
                PointerAction::Moved => Signal::PointerMoved,
                _ => Signal::Ignored,
            },
            InputEvent::Other => Signal::Ignored,
        }
    }
}

/// The two filters agree on key presses: the wider one reports a key press
/// exactly where the narrower one finds a key.
pub proof fn lemma_filters_agree(event: InputEvent)
    ensures
        event.pressed() matches Some(key) ==> event.signal() == Signal::KeyPress(key),
        event.pressed() is None ==> !(event.signal() is KeyPress),
{
}

/// The outcome of a loop that went through `count` iterations before the
/// rest of it ended with `rest`.
pub open spec fn after(count: nat, rest: Result<nat, TerminalError>) -> Result<
    nat,
    TerminalError,
> {
    match rest {
        Ok(more) => Ok(count + more),
        Err(failure) => Err(failure),
    }
}

/// The outcome of a loop one iteration after which the rest ended with `rest`.
pub open spec fn one_more(rest: Result<nat, TerminalError>) -> Result<nat, TerminalError> {
    after(1, rest)
}

} // verus!
