//! The counter: a number that the keyboard raises and lowers, kept between
//! zero and the largest value its byte can hold.

use vstd::prelude::*;
use crate::event::{after, one_more, InputEvent, Key, TerminalError};

verus! {

/// What a key asks of the counter.
#[derive(Clone, Copy, Debug, PartialEq, Eq)]
pub enum Command {
    /// Raise the counter by one.
    Increment,
    /// Lower the counter by one.
    Decrement,
    /// End the session.
    Quit,
}

/// The command that a key stands for: `q` quits, the left arrow and `+`
/// raise, the right arrow and `-` lower, and every other key stands for
/// nothing.
pub open spec fn command_of(key: Key) -> Option<Command> {
    match key {
        Key::Left => Some(Command::Increment),
        Key::Right => Some(Command::Decrement),
        Key::Char(c) => if c == 'q' {
            Some(Command::Quit)
        } else if c == '+' {
            Some(Command::Increment)
        } else if c == '-' {
            Some(Command::Decrement)
        } else {
            None
        },
        Key::Other => None,
    }
}

/// The counter as a mathematical value.
pub struct CounterView {
    pub value: int,
    pub exit: bool,
    pub ticks: nat,
}

impl CounterView {
    /// The counter is within its bounds: not below zero, and not above what
    /// a byte holds.
    pub open spec fn in_bounds(self) -> bool {
        0 <= self.value <= u8::MAX
    }

    /// The counter one higher. At the upper bound it stays where it is
    /// rather than wrapping around to zero.
    pub open spec fn increment(self) -> CounterView {
        CounterView { value: if self.value < u8::MAX { self.value + 1 } else { u8::MAX as int }, ..self }
    }

    /// The counter one lower, and zero where that would be below zero.
    pub open spec fn decrement(self) -> CounterView {
        CounterView { value: if self.value > 0 { self.value - 1 } else { 0 }, ..self }
    }

    /// The counter after a command.
    pub open spec fn apply(self, command: Command) -> CounterView {
        match command {
            Command::Increment => self.increment(),
            Command::Decrement => self.decrement(),
            Command::Quit => CounterView { exit: true, ..self },
        }
    }

    /// The counter after a row of commands, each applied in turn.
    pub open spec fn apply_all(self, commands: Seq<Command>) -> CounterView
        decreases commands.len(),
    {
        if commands.len() == 0 {
            self
        } else {
            self.apply_all(commands.drop_last()).apply(commands.last())
        }
    }

    /// The counter after a key went down.
    pub open spec fn press(self, key: Key) -> CounterView {
        match command_of(key) {
            Some(command) => self.apply(command),
            None => self,
        }
    }

    /// The transition function: the counter after one event. Only key
    /// presses count.
    pub open spec fn step(self, event: InputEvent) -> CounterView {
        match event.pressed() {
            Some(key) => self.press(key),
            None => self,
        }
    }

    /// The counter after one more frame: the tick goes up by one and stays
    /// where it is once it has reached the largest value it can hold.
    pub open spec fn tick(self) -> CounterView {
        CounterView {
            ticks: if self.ticks < u64::MAX { self.ticks + 1 } else { self.ticks },
            ..self
        }
    }

    /// The event loop over a recorded feed. Each entry of the feed is what one
    /// iteration met: the event it read, or the failure that stopped it. The
    /// loop looks at the exit flag, counts a frame, draws, reads one event and
    /// handles it, and starts over. The result is the counter as the loop left
    /// it, with the number of iterations it went through, or with the failure
    /// that ended it.
    pub open spec fn replay(self, feed: Seq<Result<InputEvent, TerminalError>>) -> (
        CounterView,
        Result<nat, TerminalError>,
    )
        decreases feed.len(),
    {
        if self.exit || feed.len() == 0 {
            (self, Ok(0))
        } else {
            match feed[0] {
                Err(failure) => (self.tick(), Err(failure)),
                Ok(event) => {
                    let (end, rest) = self.tick().step(event).replay(feed.drop_first());
                    (end, one_more(rest))
                },
            }
        }
    }
}

/// The counter.
#[derive(Debug)]
pub struct Counter {
    counter: u8,
    exit: bool,
    ticks: u64,
}

impl View for Counter {
    type V = CounterView;

    closed spec fn view(&self) -> CounterView {
        CounterView { value: self.counter as int, exit: self.exit, ticks: self.ticks as nat }
    }
}

impl Default for Counter {
    fn default() -> (counter: Counter)
        ensures
            counter@ == (CounterView { value: 0, exit: false, ticks: 0 }),
    {
        Counter::new()
    }
}

impl Counter {
    /// A fresh session: zero, not over, no frame drawn.
    pub fn new() -> (counter: Counter)
        ensures
            counter@ == (CounterView { value: 0, exit: false, ticks: 0 }),
    {
        Counter { counter: 0, exit: false, ticks: 0 }
    }

    /// The number the counter stands at.
    pub fn value(&self) -> (value: u8)
        ensures
            value == self@.value,
    {
        self.counter
    }

    /// Whether the event loop has to stop.
    pub fn exit(&self) -> (exit: bool)
        ensures
            exit == self@.exit,
    {
        self.exit
    }

    /// The number of frames drawn so far.
    pub fn ticks(&self) -> (ticks: u64)
        ensures
            ticks == self@.ticks,
    {
        self.ticks
    }

    /// Counts one more frame.
    pub fn tick(&mut self)
        ensures
            final(self)@ == old(self)@.tick(),
    {
        if self.ticks < u64::MAX {
            self.ticks = self.ticks + 1;
        }
    }

    /// Raises the counter by one, up to the upper bound.
    pub fn increment(&mut self)
        ensures
            final(self)@ == old(self)@.increment(),
    {
        self.counter = self.counter.saturating_add(1);
    }

    /// Lowers the counter by one, down to zero.
    pub fn decrement(&mut self)
        ensures
            final(self)@ == old(self)@.decrement(),
    {
        self.counter = self.counter.saturating_sub(1);
    }

    /// Carries out a command.
    pub fn apply(&mut self, command: Command)
        ensures
            final(self)@ == old(self)@.apply(command),
    {
        match command {
            Command::Increment => self.increment(),
            Command::Decrement => self.decrement(),
            Command::Quit => {
                self.exit = true;
            },
        }
    }

    /// The command that a key stands for, if it stands for one.
    pub fn command_for(key: Key) -> (command: Option<Command>)
        ensures
            command == command_of(key),
    {
        match key {
            Key::Left => Some(Command::Increment),
            Key::Right => Some(Command::Decrement),
            Key::Char(c) => {
                if c == 'q' {
                    Some(Command::Quit)
                } else if c == '+' {
                    Some(Command::Increment)
                } else if c == '-' {
                    Some(Command::Decrement)
                } else {
                    None
                }
            },
            Key::Other => None,
        }
    }

    /// Reacts to a key that went down.
    pub fn handle_key_event(&mut self, key: Key)
        ensures
            final(self)@ == old(self)@.press(key),
    {
        match Counter::command_for(key) {
            Some(command) => self.apply(command),
            None => {},
        }
    }

    /// Reacts to one event: a key press goes to the key handler, anything
    /// else is dropped.
    pub fn handle_events(&mut self, event: InputEvent)
        ensures
            final(self)@ == old(self)@.step(event),
    {
        match event.key_press() {
            Some(key) => self.handle_key_event(key),
            None => {},
        }
    }

    /// Runs the event loop over a recorded feed, one entry for each
    /// iteration, until the exit flag is set, the feed is used up, or an
    /// entry holds a failure. Returns the number of iterations gone through,
    /// or that failure.
    pub fn run(&mut self, feed: &Vec<Result<InputEvent, TerminalError>>) -> (outcome: Result<
        usize,
        TerminalError,
    >)
        ensures
            final(self)@ == old(self)@.replay(feed@).0,
            match outcome {
                Ok(count) => old(self)@.replay(feed@).1 == Ok::<nat, TerminalError>(count as nat),
                Err(failure) => old(self)@.replay(feed@).1 == Err::<nat, TerminalError>(failure),
            },
    {
        let mut done: usize = 0;
        assert(feed@.skip(0) =~= feed@);
        while !self.exit() && done < feed.len()
            invariant
                done <= feed.len(),
                old(self)@.replay(feed@).0 == self@.replay(feed@.skip(done as int)).0,
                old(self)@.replay(feed@).1 == after(
                    done as nat,
                    self@.replay(feed@.skip(done as int)).1,
                ),
            decreases feed.len() - done,
        {
            assert(feed@.skip(done as int)[0] == feed@[done as int]);
            assert(feed@.skip(done as int).drop_first() =~= feed@.skip(done + 1));
            self.tick();
            match feed[done] {
                Err(failure) => {
                    return Err(failure);
                },
                Ok(event) => {
                    self.handle_events(event);
                },
            }
            done = done + 1;
        }
        Ok(done)
    }
}

impl Counter {
    /// The counter that a program holds is within its bounds.
    pub proof fn lemma_in_bounds(&self)
        ensures
            self@.in_bounds(),
    {
    }
}

/// No command takes the counter out of its bounds. In particular it never
/// falls below zero.
pub proof fn lemma_apply_keeps_bounds(counter: CounterView, command: Command)
    requires
        counter.in_bounds(),
    ensures
        counter.apply(command).in_bounds(),
        counter.apply(command).value >= 0,
{
}

/// The counter is within its bounds after every command of a row of
/// commands, however long the row and whatever it holds.
pub proof fn lemma_commands_keep_bounds(counter: CounterView, commands: Seq<Command>)
    requires
        counter.in_bounds(),
    ensures
        forall|done: int|
            0 <= done <= commands.len() ==> (#[trigger] counter.apply_all(
                commands.take(done),
            )).in_bounds(),
        counter.apply_all(commands).value >= 0,
{
    assert forall|done: int| 0 <= done <= commands.len() implies (#[trigger] counter.apply_all(
        commands.take(done),
    )).in_bounds() by {
        lemma_prefix_keeps_bounds(counter, commands.take(done));
    }
    assert(commands.take(commands.len() as int) =~= commands);
}

/// The counter is within its bounds after a row of commands.
proof fn lemma_prefix_keeps_bounds(counter: CounterView, commands: Seq<Command>)
    requires
        counter.in_bounds(),
    ensures
        counter.apply_all(commands).in_bounds(),
    decreases commands.len(),
{
    if commands.len() > 0 {
        lemma_prefix_keeps_bounds(counter, commands.drop_last());
    }
}

/// Lowering a counter that stands at zero leaves it as it is, and doing so
/// again changes nothing either.
pub proof fn lemma_decrement_at_zero(counter: CounterView)
    requires
        counter.value == 0,
    ensures
        counter.decrement() == counter,
        counter.decrement().decrement() == counter.decrement(),
{
}

/// Raising a counter that stands at its upper bound leaves it as it is.
pub proof fn lemma_increment_at_bound(counter: CounterView)
    requires
        counter.value == u8::MAX,
    ensures
        counter.increment() == counter,
{
}

/// Away from the bounds, raising and lowering undo each other.
pub proof fn lemma_increment_decrement(counter: CounterView)
    requires
        counter.in_bounds(),
    ensures
        counter.value < u8::MAX ==> counter.increment().decrement() == counter,
        counter.value > 0 ==> counter.decrement().increment() == counter,
{
}

/// A key that stands for no command changes nothing, nor does an event that
/// is no key press.
pub proof fn lemma_other_input_is_dropped(counter: CounterView, event: InputEvent)
    requires
        event.pressed() matches Some(key) ==> command_of(key) is None,
    ensures
        counter.step(event) == counter,
{
}

/// `q` sets the exit flag whatever the counter stands at, and leaves the
/// number alone.
pub proof fn lemma_quit_sets_exit(counter: CounterView, event: InputEvent)
    requires
        event.pressed() == Some(Key::Char('q')),
    ensures
        counter.step(event) == (CounterView { exit: true, ..counter }),
{
}

/// No event takes the exit flag back.
pub proof fn lemma_exit_is_final(counter: CounterView, event: InputEvent)
    requires
        counter.exit,
    ensures
        counter.step(event).exit,
{
}

/// A `q` in the feed ends the loop: if no entry before it holds a failure,
/// the loop ends without one, with the exit flag set, having gone no further
/// than the iteration that read the `q`.
pub proof fn lemma_quit_ends_loop(
    counter: CounterView,
    feed: Seq<Result<InputEvent, TerminalError>>,
    at: int,
)
    requires
        0 <= at < feed.len(),
        forall|i: int| 0 <= i < at ==> (#[trigger] feed[i]) is Ok,
        feed[at] matches Ok(event) && event.pressed() == Some(Key::Char('q')),
    ensures
        counter.replay(feed).0.exit,
        counter.replay(feed).1 matches Ok(count) && count <= at + 1,
    decreases feed.len(),
{
    if counter.exit {
    } else if at == 0 {
        let next = counter.tick().step(feed[0]->Ok_0);
        assert(next.exit);
        assert(next.replay(feed.drop_first()) == (next, Ok::<nat, TerminalError>(0)));
    } else {
        let next = counter.tick().step(feed[0]->Ok_0);
        let rest = feed.drop_first();
        assert(forall|i: int| 0 <= i < at - 1 ==> (#[trigger] rest[i]) == feed[i + 1]);
        assert(rest[at - 1] == feed[at]);
        lemma_quit_ends_loop(next, rest, at - 1);
    }
}

/// A failure in the feed ends the loop with that failure, unless the exit
/// flag is set before the loop gets there.
pub proof fn lemma_failure_ends_loop(
    counter: CounterView,
    feed: Seq<Result<InputEvent, TerminalError>>,
    at: int,
)
    requires
        0 <= at < feed.len(),
        forall|i: int| 0 <= i < at ==> (#[trigger] feed[i]) is Ok,
        feed[at] is Err,
    ensures
        counter.replay(feed).1 is Err ==> counter.replay(feed).1 == Err::<nat, TerminalError>(
            feed[at]->Err_0,
        ),
        counter.replay(feed).1 is Ok ==> counter.replay(feed).0.exit,
    decreases feed.len(),
{
    if counter.exit {
    } else if at == 0 {
    } else {
        let next = counter.tick().step(feed[0]->Ok_0);
        let rest = feed.drop_first();
        assert(forall|i: int| 0 <= i < at - 1 ==> (#[trigger] rest[i]) == feed[i + 1]);
        assert(rest[at - 1] == feed[at]);
        lemma_failure_ends_loop(next, rest, at - 1);
    }
}

/// The loop keeps the counter within its bounds, whatever the feed holds.
pub proof fn lemma_loop_keeps_bounds(
    counter: CounterView,
    feed: Seq<Result<InputEvent, TerminalError>>,
)
    requires
        counter.in_bounds(),
    ensures
        counter.replay(feed).0.in_bounds(),
    decreases feed.len(),
{
    if !counter.exit && feed.len() > 0 {
        if let Ok(event) = feed[0] {
            lemma_loop_keeps_bounds(counter.tick().step(event), feed.drop_first());
        }
    }
}

} // verus!
