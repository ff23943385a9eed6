//! The game shell: an intro screen, a main screen on which a path grows as
//! the pointer moves, and a way out.

use vstd::prelude::*;
use vstd::string::StringExecFns;
use crate::event::{after, one_more, InputEvent, Key, Signal, TerminalError};

verus! {

/// The screen that is showing.
#[derive(Clone, Copy, Debug, PartialEq, Eq)]
pub enum State {
    /// The welcome screen, where every session starts.
    Intro,
    /// The screen with the path.
    Main,
    /// The session is over; the event loop stops when it sees this.
    Exit,
}

impl Default for State {
    fn default() -> (state: State)
        ensures
            state == State::Intro,
    {
        State::Intro
    }
}

/// How many blanks separate one marker of the path from the next.
pub const SPEED: usize = 1;

/// The path a fresh session starts with.
pub open spec fn initial_path() -> Seq<char> {
    seq!['O', 'O', 'O', 'O', 'O', 'O']
}

/// What one pointer move adds to the path: `SPEED` blanks and a marker.
pub open spec fn token() -> Seq<char> {
    Seq::new(SPEED as nat, |i: int| ' ').push('O')
}

/// The token `count` times in a row.
pub open spec fn tokens(count: nat) -> Seq<char>
    decreases count,
{
    if count == 0 {
        Seq::empty()
    } else {
        tokens((count - 1) as nat) + token()
    }
}

/// The game shell as a mathematical value.
pub struct AppView {
    pub state: State,
    pub path: Seq<char>,
    pub ticks: nat,
}

impl AppView {
    /// Whether the event loop has to stop.
    pub open spec fn exit(self) -> bool {
        self.state is Exit
    }

    /// The shell after a key went down. `q` ends the session from any screen;
    /// `n` leaves the intro screen and does nothing anywhere else.
    pub open spec fn press(self, key: Key) -> AppView {
        match key {
            Key::Char(c) => if c == 'q' {
                AppView { state: State::Exit, ..self }
            } else if c == 'n' && self.state is Intro {
                AppView { state: State::Main, ..self }
            } else {
                self
            },
            _ => self,
        }
    }

    /// The shell after the pointer moved: the path is one token longer,
    /// whatever screen is showing.
    pub open spec fn pointer_moved(self) -> AppView {
        AppView { path: self.path + token(), ..self }
    }

    /// The transition function: the shell after one event.
    pub open spec fn step(self, event: InputEvent) -> AppView {
        match event.signal() {
            Signal::KeyPress(key) => self.press(key),
            Signal::PointerMoved => self.pointer_moved(),
            Signal::Ignored => self,
        }
    }

    /// The shell after one more frame: the tick goes up by one and stays
    /// where it is once it has reached the largest value it can hold.
    pub open spec fn tick(self) -> AppView {
        AppView { ticks: if self.ticks < u64::MAX { self.ticks + 1 } else { self.ticks }, ..self }
    }

    /// The shell after a row of events, each handled in turn.
    pub open spec fn steps(self, events: Seq<InputEvent>) -> AppView
        decreases events.len(),
    {
        if events.len() == 0 {
            self
        } else {
            self.steps(events.drop_last()).step(events.last())
        }
    }

    /// The event loop over a recorded feed. Each entry of the feed is what one
    /// iteration met: the event it read, or the failure that stopped it. The
    /// loop looks at the exit flag, counts a frame, draws, reads one event and
    /// handles it, and starts over. The result is the shell as the loop left
    /// it, with the number of iterations it went through, or with the failure
    /// that ended it.
    pub open spec fn replay(self, feed: Seq<Result<InputEvent, TerminalError>>) -> (
        AppView,
        Result<nat, TerminalError>,
    )
        decreases feed.len(),
    {
        if self.exit() || feed.len() == 0 {
            (self, Ok(0))
        } else {
            match feed[0] {
                Err(failure) => (self.tick(), Err(failure)),
                Ok(event) => {
                    let (end, rest) = self.tick().step(event).replay(feed.drop_first());
                    (end, one_more(rest))
                },
            }
        }
    }
}

/// The game shell.
#[derive(Debug)]
pub struct App {
    state: State,
    my_path: String,
    ticks: u64,
}

impl View for App {
    type V = AppView;

    closed spec fn view(&self) -> AppView {
        AppView { state: self.state, path: self.my_path@, ticks: self.ticks as nat }
    }
}

impl Default for App {
    fn default() -> (app: App)
        ensures
            app@ == (AppView { state: State::Intro, path: initial_path(), ticks: 0 }),
    {
        App::new()
    }
}

impl App {
    /// A fresh session: the intro screen, the initial path, no frame drawn.
    pub fn new() -> (app: App)
        ensures
            app@ == (AppView { state: State::Intro, path: initial_path(), ticks: 0 }),
    {
        proof {
            reveal_strlit("OOOOOO");
        }
        let my_path = String::from_str("OOOOOO");
        assert(my_path@ =~= initial_path());
        App { state: State::Intro, my_path, ticks: 0 }
    }

    /// The screen that is showing.
    pub fn state(&self) -> (state: State)
        ensures
            state == self@.state,
    {
        self.state
    }

    /// The path as it is drawn.
    pub fn path(&self) -> (path: &str)
        ensures
            path@ == self@.path,
    {
        self.my_path.as_str()
    }

    /// The number of frames drawn so far.
    pub fn ticks(&self) -> (ticks: u64)
        ensures
            ticks == self@.ticks,
    {
        self.ticks
    }

    /// Whether the event loop has to stop.
    pub fn exit(&self) -> (exit: bool)
        ensures
            exit == self@.exit(),
    {
        match self.state {
            State::Exit => true,
            _ => false,
        }
    }

    /// Counts one more frame.
    pub fn tick(&mut self)
        ensures
            final(self)@ == old(self)@.tick(),
    {
        if self.ticks < u64::MAX {
            self.ticks = self.ticks + 1;
        }
    }

    /// Reacts to a key that went down.
    pub fn handle_key_event(&mut self, key: Key)
        ensures
            final(self)@ == old(self)@.press(key),
    {
        match key {
            Key::Char(c) => {
                if c == 'q' {
                    self.state = State::Exit;
                } else if c == 'n' {
                    match self.state {
                        State::Intro => {
                            self.state = State::Main;
                        },
                        _ => {},
                    }
                }
            },
            _ => {},
        }
    }

    /// Replaces the path.
    pub fn update_path(&mut self, path: String)
        ensures
            final(self)@ == (AppView { path: path@, ..old(self)@ }),
    {
        self.my_path = path;
    }

    /// The path as one more pointer move leaves it: the path of now, then
    /// `SPEED` blanks, then a marker.
    pub fn my_update(&self) -> (path: String)
        ensures
            path@ == self@.path + token(),
    {
        let mut path: String = self.my_path.clone();
        for i in 0..SPEED
            invariant
                path@ == self.my_path@ + Seq::new(i as nat, |k: int| ' '),
        {
            proof {
                reveal_strlit(" ");
            }
            path.append(" ");
            assert(path@ =~= self.my_path@ + Seq::new((i + 1) as nat, |k: int| ' '));
        }
        proof {
            reveal_strlit("O");
        }
        path.append("O");
        assert(path@ =~= self.my_path@ + token());
        path
    }

    /// Reacts to one event: a key press goes to the key handler, a pointer
    /// move grows the path, anything else is dropped.
    pub fn handle_events(&mut self, event: InputEvent)
        ensures
            final(self)@ == old(self)@.step(event),
    {
        match event.classify() {
            Signal::KeyPress(key) => self.handle_key_event(key),
            Signal::PointerMoved => {
                let path = self.my_update();
                self.update_path(path);
            },
            Signal::Ignored => {},
        }
    }

    /// Runs the event loop over a recorded feed, one entry for each
    /// iteration, until the exit flag is set, the feed is used up, or an
    /// entry holds a failure. Returns the number of iterations gone through,
    /// or that failure.
    pub fn run(&mut self, feed: &Vec<Result<InputEvent, TerminalError>>) -> (outcome: Result<
        usize,
        TerminalError,
    >)
        ensures
            final(self)@ == old(self)@.replay(feed@).0,
            match outcome {
                Ok(count) => old(self)@.replay(feed@).1 == Ok::<nat, TerminalError>(count as nat),
                Err(failure) => old(self)@.replay(feed@).1 == Err::<nat, TerminalError>(failure),
            },
    {
        let mut done: usize = 0;
        assert(feed@.skip(0) =~= feed@);
        while !self.exit() && done < feed.len()
            invariant
                done <= feed.len(),
                old(self)@.replay(feed@).0 == self@.replay(feed@.skip(done as int)).0,
                old(self)@.replay(feed@).1 == after(
                    done as nat,
                    self@.replay(feed@.skip(done as int)).1,
                ),
            decreases feed.len() - done,
        {
            assert(feed@.skip(done as int)[0] == feed@[done as int]);
            assert(feed@.skip(done as int).drop_first() =~= feed@.skip(done + 1));
            self.tick();
            match feed[done] {
                Err(failure) => {
                    return Err(failure);
                },
                Ok(event) => {
                    self.handle_events(event);
                },
            }
            done = done + 1;
        }
        Ok(done)
    }
}

/// The token is one blank and one marker.
pub proof fn lemma_token()
    ensures
        token() == seq![' ', 'O'],
{
    assert(token() =~= seq![' ', 'O']);
}

/// `n` on the intro screen brings up the main screen, and `n` once more
/// changes nothing.
pub proof fn lemma_next_screen_once(shell: AppView)
    requires
        shell.state is Intro,
    ensures
        shell.press(Key::Char('n')) == (AppView { state: State::Main, ..shell }),
        shell.press(Key::Char('n')).press(Key::Char('n')) == shell.press(Key::Char('n')),
{
}

/// `n` does nothing on any screen but the intro screen.
pub proof fn lemma_next_screen_elsewhere(shell: AppView)
    requires
        !(shell.state is Intro),
    ensures
        shell.press(Key::Char('n')) == shell,
{
}

/// One pointer move makes the path one token longer and changes nothing
/// else, whatever screen is showing.
pub proof fn lemma_move_appends_token(shell: AppView, event: InputEvent)
    requires
        event.signal() is PointerMoved,
    ensures
        shell.step(event) == (AppView { path: shell.path + token(), ..shell }),
{
}

/// After a row of pointer moves the path is what it was, followed by one
/// token for each move; screen and tick are what they were.
pub proof fn lemma_moves_append_tokens(shell: AppView, events: Seq<InputEvent>)
    requires
        forall|i: int| 0 <= i < events.len() ==> (#[trigger] events[i]).signal() is PointerMoved,
    ensures
        shell.steps(events) == (AppView { path: shell.path + tokens(events.len()), ..shell }),
    decreases events.len(),
{
    if events.len() == 0 {
        assert(shell.path + tokens(0) =~= shell.path);
    } else {
        lemma_moves_append_tokens(shell, events.drop_last());
        let before = shell.steps(events.drop_last());
        assert(events.last().signal() is PointerMoved);
        assert(before.path + token() =~= shell.path + tokens(events.len()));
    }
}

/// No event makes the path shorter or rewrites it: the path before is the
/// start of the path after.
pub proof fn lemma_path_grows(shell: AppView, event: InputEvent)
    ensures
        shell.path.is_prefix_of(shell.step(event).path),
{
    assert(shell.path.is_prefix_of(shell.path + token()));
}

/// No event changes the tick: only a frame does.
pub proof fn lemma_step_keeps_tick(shell: AppView, event: InputEvent)
    ensures
        shell.step(event).ticks == shell.ticks,
{
}

/// The tick never goes down.
pub proof fn lemma_tick_monotonic(shell: AppView)
    ensures
        shell.tick().ticks >= shell.ticks,
        shell.ticks < u64::MAX ==> shell.tick().ticks == shell.ticks + 1,
{
}

/// `q` ends the session from every screen, with every path and tick.
pub proof fn lemma_quit_sets_exit(shell: AppView, event: InputEvent)
    requires
        event.signal() == Signal::KeyPress(Key::Char('q')),
    ensures
        shell.step(event).exit(),
        shell.step(event) == (AppView { state: State::Exit, ..shell }),
{
}

/// Once the session is over no event brings it back.
pub proof fn lemma_exit_is_final(shell: AppView, event: InputEvent)
    requires
        shell.exit(),
    ensures
        shell.step(event).exit(),
{
}

/// A loop that finds the exit flag set does nothing.
pub proof fn lemma_replay_after_exit(shell: AppView, feed: Seq<Result<InputEvent, TerminalError>>)
    requires
        shell.exit(),
    ensures
        shell.replay(feed) == (shell, Ok::<nat, TerminalError>(0)),
{
}

/// A `q` in the feed ends the loop: if no entry before it holds a failure,
/// the loop ends without one, with the exit flag set, having gone no further
/// than the iteration that read the `q`.
pub proof fn lemma_quit_ends_loop(
    shell: AppView,
    feed: Seq<Result<InputEvent, TerminalError>>,
    at: int,
)
    requires
        0 <= at < feed.len(),
        forall|i: int| 0 <= i < at ==> (#[trigger] feed[i]) is Ok,
        feed[at] matches Ok(event) && event.signal() == Signal::KeyPress(Key::Char('q')),
    ensures
        shell.replay(feed).0.exit(),
        shell.replay(feed).1 matches Ok(count) && count <= at + 1,
    decreases feed.len(),
{
    if shell.exit() {
    } else if at == 0 {
        let next = shell.tick().step(feed[0]->Ok_0);
        assert(next.exit());
        lemma_replay_after_exit(next, feed.drop_first());
    } else {
        let next = shell.tick().step(feed[0]->Ok_0);
        let rest = feed.drop_first();
        assert(forall|i: int| 0 <= i < at - 1 ==> (#[trigger] rest[i]) == feed[i + 1]);
        assert(rest[at - 1] == feed[at]);
        lemma_quit_ends_loop(next, rest, at - 1);
    }
}

/// A failure in the feed ends the loop with that failure, unless the exit
/// flag is set before the loop gets there or an earlier entry fails.
pub proof fn lemma_failure_ends_loop(
    shell: AppView,
    feed: Seq<Result<InputEvent, TerminalError>>,
    at: int,
)
    requires
        0 <= at < feed.len(),
        forall|i: int| 0 <= i < at ==> (#[trigger] feed[i]) is Ok,
        feed[at] is Err,
    ensures
        shell.replay(feed).1 is Err ==> shell.replay(feed).1 == Err::<nat, TerminalError>(
            feed[at]->Err_0,
        ),
        shell.replay(feed).1 is Ok ==> shell.replay(feed).0.exit(),
    decreases feed.len(),
{
    if shell.exit() {
    } else if at == 0 {
    } else {
        let next = shell.tick().step(feed[0]->Ok_0);
        let rest = feed.drop_first();
        assert(forall|i: int| 0 <= i < at - 1 ==> (#[trigger] rest[i]) == feed[i + 1]);
        assert(rest[at - 1] == feed[at]);
        lemma_failure_ends_loop(next, rest, at - 1);
    }
}

/// The tick of a shell that stood at `ticks` and has seen `frames` more
/// frames.
pub open spec fn ticks_after(ticks: nat, frames: nat) -> nat {
    if ticks >= u64::MAX {
        ticks
    } else if ticks + frames <= u64::MAX {
        ticks + frames
    } else {
        u64::MAX as nat
    }
}

/// Handling a row of events is handling the first and then the others.
pub proof fn lemma_steps_from_front(shell: AppView, events: Seq<InputEvent>)
    requires
        events.len() > 0,
    ensures
        shell.steps(events) == shell.step(events[0]).steps(events.drop_first()),
    decreases events.len(),
{
    if events.len() == 1 {
        assert(events.drop_last() =~= Seq::<InputEvent>::empty());
        assert(events.drop_first() =~= Seq::<InputEvent>::empty());
        assert(shell.steps(events.drop_last()) == shell);
    } else {
        lemma_steps_from_front(shell, events.drop_last());
        assert(events.drop_last().drop_first() =~= events.drop_first().drop_last());
    }
}

/// Events and frames do not touch each other: a row of events leaves the
/// tick alone, and does to screen and path what it would do at any tick.
pub proof fn lemma_steps_apart_from_tick(shell: AppView, ticks: nat, events: Seq<InputEvent>)
    ensures
        (AppView { ticks, ..shell }).steps(events) == (AppView { ticks, ..shell.steps(events) }),
    decreases events.len(),
{
    if events.len() > 0 {
        lemma_steps_apart_from_tick(shell, ticks, events.drop_last());
    }
}

/// On a feed without failures the loop handles the events in turn and stops
/// at the first one that leaves the exit flag set: it ends without a
/// failure, the shell is what handling the events it went through makes of
/// it, with one frame counted for each, and the exit flag is set at the end,
/// or else the feed is used up, and was not set before.
pub proof fn lemma_loop_follows_steps(
    shell: AppView,
    events: Seq<InputEvent>,
    feed: Seq<Result<InputEvent, TerminalError>>,
)
    requires
        feed.len() == events.len(),
        forall|i: int| 0 <= i < feed.len() ==> (#[trigger] feed[i]) == Ok::<
            InputEvent,
            TerminalError,
        >(events[i]),
    ensures
        shell.replay(feed).1 matches Ok(count) && {
            &&& count <= events.len()
            &&& shell.replay(feed).0 == (AppView {
                ticks: ticks_after(shell.ticks, count),
                ..shell.steps(events.take(count as int))
            })
            &&& shell.replay(feed).0.exit() || count == events.len()
            &&& forall|k: int|
                0 <= k < count ==> !(#[trigger] shell.steps(events.take(k))).exit()
        },
    decreases events.len(),
{
    if shell.exit() || events.len() == 0 {
        assert(events.take(0) =~= Seq::<InputEvent>::empty());
    } else {
        let first = events[0];
        let next = shell.tick().step(first);
        let later = events.drop_first();
        let rest = feed.drop_first();
        lemma_loop_follows_steps(next, later, rest);
        let count = shell.replay(feed).1->Ok_0;
        let fewer = (count - 1) as nat;
        assert(next.replay(rest).1 == Ok::<nat, TerminalError>(fewer));
        assert forall|k: int| 0 <= k <= count implies (#[trigger] shell.steps(events.take(k)))
            == (AppView {
            ticks: shell.ticks,
            ..(if k == 0 {
                shell
            } else {
                next.steps(later.take(k - 1))
            })
        }) by {
            if k == 0 {
                assert(events.take(0) =~= Seq::<InputEvent>::empty());
            } else {
                lemma_steps_from_front(shell, events.take(k));
                assert(events.take(k).drop_first() =~= later.take(k - 1));
                lemma_steps_apart_from_tick(shell.step(first), next.ticks, later.take(k - 1));
                lemma_steps_apart_from_tick(shell.step(first), shell.ticks, later.take(k - 1));
            }
        }
        assert(shell.steps(events.take(count as int)).state == next.steps(
            later.take(fewer as int),
        ).state);
    }
}

} // verus!
