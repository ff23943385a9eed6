//! State machines behind two small terminal programs: a game shell that
//! moves between an intro screen and a main screen and grows a path as the
//! pointer moves, and a counter that is raised and lowered from the keyboard.
//!
//! Nothing here touches a terminal. A program reads its input, turns each raw
//! event into an [`InputEvent`], hands it to the state machine, and draws what
//! the state machine says is on screen.

pub mod counter;
pub mod event;
pub mod game;
pub mod scene;

pub use counter::{Command, Counter, CounterView};
pub use game::{App, AppView, State};
pub use scene::{Band, Panel, Placement};
pub use event::{InputEvent, Key, KeyPhase, PointerAction, Signal, TerminalError};
