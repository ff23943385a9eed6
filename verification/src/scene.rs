//! What the game shell shows: which panel stands in which band of the
//! screen, and what it says. Drawing it is left to the program.

use vstd::prelude::*;
use vstd::string::StringExecFns;
use crate::game::{App, AppView, State};

verus! {

/// One of the three bands into which the screen is cut from top to bottom.
#[derive(Clone, Copy, Debug, PartialEq, Eq)]
pub enum Band {
    Top,
    Middle,
    Bottom,
}

/// A bordered panel of text.
#[derive(Clone, Copy, Debug, PartialEq, Eq)]
pub enum Panel {
    /// The greeting of the intro screen.
    Welcome,
    /// What the game is for, under the game's title.
    Briefing,
    /// The path.
    Path,
}

/// A panel and the band it fills.
#[derive(Clone, Copy, Debug, PartialEq, Eq)]
pub struct Placement {
    pub band: Band,
    pub panel: Panel,
}

impl Band {
    /// The share of the screen's height that the band takes, in percent.
    pub open spec fn share(self) -> nat {
        match self {
            Band::Top => 9,
            Band::Middle => 70,
            Band::Bottom => 21,
        }
    }

    /// The place of the band, counted from the top and from zero.
    pub open spec fn position(self) -> nat {
        match self {
            Band::Top => 0,
            Band::Middle => 1,
            Band::Bottom => 2,
        }
    }

    /// The share of the screen's height that the band takes, in percent.
    pub fn percent(self) -> (percent: u16)
        ensures
            percent == self.share(),
    {
        match self {
            Band::Top => 9,
            Band::Middle => 70,
            Band::Bottom => 21,
        }
    }

    /// The place of the band, counted from the top and from zero.
    pub fn index(self) -> (index: usize)
        ensures
            index == self.position(),
    {
        match self {
            Band::Top => 0,
            Band::Middle => 1,
            Band::Bottom => 2,
        }
    }
}

/// The panels of a screen, from top to bottom. The intro screen greets and
/// briefs, the main screen shows the path, and a session that is over shows
/// nothing.
pub open spec fn scene_of(state: State) -> Seq<Placement> {
    match state {
        State::Intro => seq![
            Placement { band: Band::Top, panel: Panel::Welcome },
            Placement { band: Band::Middle, panel: Panel::Briefing },
        ],
        State::Main => seq![Placement { band: Band::Middle, panel: Panel::Path }],
        State::Exit => Seq::empty(),
    }
}

/// What a panel says.
pub open spec fn caption_of(shell: AppView, panel: Panel) -> Seq<char> {
    match panel {
        Panel::Welcome => "There Ya Go"@,
        Panel::Briefing => "I've Designed This Game To Teach You VIM Motions"@,
        Panel::Path => shell.path,
    }
}

/// The title on a panel's border, for a panel that has one.
pub open spec fn title_of(panel: Panel) -> Option<Seq<char>> {
    match panel {
        Panel::Briefing => Some(" TOWER DEFENSE ULTIMATE "@),
        _ => None,
    }
}

impl Panel {
    /// The title on the panel's border, if it has one.
    pub fn title(self) -> (title: Option<&'static str>)
        ensures
            title is Some == title_of(self) is Some,
            title matches Some(text) ==> title_of(self) == Some(text@),
    {
        match self {
            Panel::Briefing => Some(" TOWER DEFENSE ULTIMATE "),
            _ => None,
        }
    }
}

impl App {
    /// The panels to draw for the screen that is showing, from top to
    /// bottom. The shell itself stays as it is.
    pub fn scene(&self) -> (scene: Vec<Placement>)
        ensures
            scene@ == scene_of(self@.state),
    {
        let mut scene: Vec<Placement> = Vec::new();
        match self.state() {
            State::Intro => {
                scene.push(Placement { band: Band::Top, panel: Panel::Welcome });
                scene.push(Placement { band: Band::Middle, panel: Panel::Briefing });
            },
            State::Main => {
                scene.push(Placement { band: Band::Middle, panel: Panel::Path });
            },
            State::Exit => {},
        }
        assert(scene@ =~= scene_of(self@.state));
        scene
    }

    /// What a panel says as the shell stands.
    pub fn caption(&self, panel: Panel) -> (text: String)
        ensures
            text@ == caption_of(self@, panel),
    {
        match panel {
            Panel::Welcome => String::from_str("There Ya Go"),
            Panel::Briefing => String::from_str(
                "I've Designed This Game To Teach You VIM Motions",
            ),
            Panel::Path => String::from_str(self.path()),
        }
    }
}

/// The three bands take up the whole height between them.
pub proof fn lemma_shares_fill_screen()
    ensures
        Band::Top.share() + Band::Middle.share() + Band::Bottom.share() == 100,
{
}

/// No screen puts two panels into one band, and the panels of a screen come
/// in the order of their bands.
pub proof fn lemma_scene_in_band_order(state: State)
    ensures
        forall|i: int, j: int|
            0 <= i < j < scene_of(state).len() ==> scene_of(state)[i].band.position() < scene_of(
                state,
            )[j].band.position(),
{
}

/// The path is on screen on the main screen and nowhere else.
pub proof fn lemma_path_shown_on_main_only(state: State)
    ensures
        (exists|i: int|
            0 <= i < scene_of(state).len() && scene_of(state)[i].panel == Panel::Path)
            <==> state is Main,
{
    if state is Main {
        assert(scene_of(state)[0].panel == Panel::Path);
    }
}

} // verus!
