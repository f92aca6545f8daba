use vstd::prelude::*;

verus! {

/// The screens the game moves between.
#[derive(Clone, Copy, Debug, PartialEq, Eq, Structural)]
pub enum Screen {
    /// The title screen with the instructions and the play button.
    Welcome,
    /// A round of the game itself.
    Game,
}

/// The name by which a screen hands over to the next one.
pub open spec fn screen_name(screen: Screen) -> Seq<char> {
    match screen {
        Screen::Welcome => "welcome"@,
        Screen::Game => "game"@,
    }
}

/// The screen a name stands for; none for any other name, which ends the
/// game.
pub open spec fn screen_named(name: Seq<char>) -> Option<Screen> {
    if name == "welcome"@ {
        Some(Screen::Welcome)
    } else if name == "game"@ {
        Some(Screen::Game)
    } else {
        None
    }
}

impl Screen {
    /// The screen shown first.
    pub fn first() -> (screen: Screen)
        ensures
            screen == Screen::Welcome,
    {
        Screen::Welcome
    }

    /// The name by which this screen is handed over.
    pub fn name(&self) -> (name: String)
        ensures
            name@ == screen_name(*self),
    {
        match self {
            Screen::Welcome => String::from_str("welcome"),
            Screen::Game => String::from_str("game"),
        }
    }

    /// The screen to show next for the name a screen handed over; `None`
    /// ends the game.
    pub fn from_name(name: &str) -> (screen: Option<Screen>)
        ensures
            screen == screen_named(name@),
    {
        let name = String::from_str(name);
        if name == String::from_str("welcome") {
            Some(Screen::Welcome)
        } else if name == String::from_str("game") {
            Some(Screen::Game)
        } else {
            None
        }
    }
}

/// A screen's name leads back to that screen.
pub proof fn lemma_name_round_trip(screen: Screen)
    ensures
        screen_named(screen_name(screen)) == Some(screen),
{
    reveal_strlit("welcome");
    reveal_strlit("game");
    assert("welcome"@ != "game"@) by {
        assert("welcome"@.len() != "game"@.len());
    }
}

/// The two screens have different names, and a name that is neither leads
/// nowhere.
pub proof fn lemma_names_distinct(name: Seq<char>)
    ensures
        screen_name(Screen::Welcome) != screen_name(Screen::Game),
        name != screen_name(Screen::Welcome) && name != screen_name(Screen::Game) ==> screen_named(
            name,
        ) is None,
{
    reveal_strlit("welcome");
    reveal_strlit("game");
    assert("welcome"@.len() != "game"@.len());
}

/// How the game's window is set up.
pub struct WindowSettings {
    pub title: String,
    pub width: i32,
    pub height: i32,
    pub fullscreen: bool,
    pub high_dpi: bool,
    pub resizable: bool,
    /// Multisampling: more samples make shapes look smoother.
    pub sample_count: i32,
}

/// The window the game opens: a resizable, high-DPI window of 1440 by 1080
/// pixels with four samples per pixel.
pub fn window_settings() -> (settings: WindowSettings)
    ensures
        settings.title@ == "space_inavders"@,
        settings.width == 1440,
        settings.height == 1080,
        !settings.fullscreen,
        settings.high_dpi,
        settings.resizable,
        settings.sample_count == 4,
{
    WindowSettings {
        title: String::from_str("space_inavders"),
        width: 1440,
        height: 1080,
        fullscreen: false,
        high_dpi: true,
        resizable: true,
        sample_count: 4,
    }
}

} // verus!
