//! The key help shown on the screens. On the web, `Q` leads back instead of
//! quitting, so the help differs between the two builds.
use vstd::prelude::*;

verus! {

/// Where the game runs.
#[derive(Clone, Copy, Debug, PartialEq, Eq, Structural)]
pub enum Platform {
    /// A desktop window: `Q` quits.
    Native,
    /// A browser page: `Q` leads back.
    Web,
}

/// The key help of the title screen.
pub fn title_action_text(platform: Platform) -> (r: &'static str)
    ensures
        r@ == match platform {
            Platform::Web => "O / S  SETTINGS    Q  BACK    F  FULLSCREEN"@,
            Platform::Native => "O / S  SETTINGS    Q  QUIT    F  FULLSCREEN"@,
        },
{
    match platform {
        Platform::Web => "O / S  SETTINGS    Q  BACK    F  FULLSCREEN",
        Platform::Native => "O / S  SETTINGS    Q  QUIT    F  FULLSCREEN",
    }
}

/// The key help at the foot of the playing screen.
pub fn footer_action_text(platform: Platform) -> (r: &'static str)
    ensures
        r@ == match platform {
            Platform::Web => "MOVE: ARROWS / MOUSE   FIRE: Z X C   PAUSE: SPACE/P   Q: TITLE/BACK   F: FULLSCREEN"@,
            Platform::Native => "MOVE: ARROWS / MOUSE   FIRE: Z X C   PAUSE: SPACE/P   Q: QUIT   F: FULLSCREEN"@,
        },
{
    match platform {
        Platform::Web => "MOVE: ARROWS / MOUSE   FIRE: Z X C   PAUSE: SPACE/P   Q: TITLE/BACK   F: FULLSCREEN",
        Platform::Native => "MOVE: ARROWS / MOUSE   FIRE: Z X C   PAUSE: SPACE/P   Q: QUIT   F: FULLSCREEN",
    }
}

/// The key help of the game-over screen.
pub fn game_over_action_text(platform: Platform) -> (r: &'static str)
    ensures
        r@ == match platform {
            Platform::Web => "ENTER/R RESTART   T TITLE   O/S SETTINGS   Q TITLE   F FULLSCREEN"@,
            Platform::Native => "ENTER/R RESTART   T TITLE   O/S SETTINGS   Q QUIT   F FULLSCREEN"@,
        },
{
    match platform {
        Platform::Web => "ENTER/R RESTART   T TITLE   O/S SETTINGS   Q TITLE   F FULLSCREEN",
        Platform::Native => "ENTER/R RESTART   T TITLE   O/S SETTINGS   Q QUIT   F FULLSCREEN",
    }
}

} // verus!
