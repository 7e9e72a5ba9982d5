//! The coarse application and game phase machine the engine reacts to.

use vstd::prelude::*;

verus! {

/// State of the whole application.
#[derive(Clone, Copy, Debug, PartialEq, Eq, Structural)]
pub enum AppState {
    /// The player is in the game (see [`GameState`]).
    Game,
}

/// In-game state.
#[derive(Clone, Copy, Debug, PartialEq, Eq, Structural)]
pub enum GameState {
    /// Resources and assets are being set up.
    SetupResources,
    /// Game objects are being set up; they may depend on the resources.
    SetupGameObjects,
    /// Build mode: the player arranges notes and activators.
    Build,
    /// Execution mode: the built setup is played.
    Execute,
    /// The game is over.
    Over,
}

/// Two-valued summary of [`GameState`]: still setting up, or running.
#[derive(Clone, Copy, Debug, PartialEq, Eq, Structural)]
pub enum MinimalGameState {
    Setup,
    Running,
}

impl MinimalGameState {
    pub fn compute(sources: GameState) -> (r: Option<MinimalGameState>)
        ensures
            r == Some(
                if sources is SetupResources || sources is SetupGameObjects {
                    MinimalGameState::Setup
                } else {
                    MinimalGameState::Running
                },
            ),
    {
        match sources {
            GameState::SetupResources => Some(MinimalGameState::Setup),
            GameState::SetupGameObjects => Some(MinimalGameState::Setup),
            GameState::Build => Some(MinimalGameState::Running),
            GameState::Execute => Some(MinimalGameState::Running),
            GameState::Over => Some(MinimalGameState::Running),
        }
    }
}

/// Whether the free-building level is setting up, active, or off.
#[derive(Clone, Copy, Debug, PartialEq, Eq, Structural)]
pub enum CreativeModeState {
    Off,
    Setup,
    On,
}

impl CreativeModeState {
    pub fn compute(sources: GameState) -> (r: Option<CreativeModeState>)
        ensures
            r == Some(
                if sources is SetupResources || sources is SetupGameObjects {
                    CreativeModeState::Setup
                } else if sources is Over {
                    CreativeModeState::Off
                } else {
                    CreativeModeState::On
                },
            ),
    {
        match sources {
            GameState::SetupResources => Some(CreativeModeState::Setup),
            GameState::SetupGameObjects => Some(CreativeModeState::Setup),
            GameState::Build => Some(CreativeModeState::On),
            GameState::Execute => Some(CreativeModeState::On),
            GameState::Over => Some(CreativeModeState::Off),
        }
    }
}

/// Whether the fixed demo level is setting up, active, or off.
#[derive(Clone, Copy, Debug, PartialEq, Eq, Structural)]
pub enum DemoLevelState {
    Off,
    Setup,
    On,
}

impl DemoLevelState {
    pub fn compute(sources: GameState) -> (r: Option<DemoLevelState>)
        ensures
            r == Some(
                if sources is SetupResources || sources is SetupGameObjects {
                    DemoLevelState::Setup
                } else if sources is Over {
                    DemoLevelState::Off
                } else {
                    DemoLevelState::On
                },
            ),
    {
        match sources {
            GameState::SetupResources => Some(DemoLevelState::Setup),
            GameState::SetupGameObjects => Some(DemoLevelState::Setup),
            GameState::Build => Some(DemoLevelState::On),
            GameState::Execute => Some(DemoLevelState::On),
            GameState::Over => Some(DemoLevelState::Off),
        }
    }
}

/// The decision behind the game-loop key: pressing the toggle switches
/// between build and execution mode, but only once something has been placed
/// (otherwise the main activator would flicker between modes on an empty
/// field). Returns the state to switch to, if any.
pub fn handle_game_loop_input(
    current: GameState,
    toggle_just_pressed: bool,
    anything_placed: bool,
) -> (r: Option<GameState>)
    ensures
        r == (if toggle_just_pressed && anything_placed && current is Build {
            Some(GameState::Execute)
        } else if toggle_just_pressed && anything_placed && current is Execute {
            Some(GameState::Build)
        } else {
            None::<GameState>
        }),
{
    if !anything_placed {
        return None;
    }
    if toggle_just_pressed {
        match current {
            GameState::Build => Some(GameState::Execute),
            GameState::Execute => Some(GameState::Build),
            _ => None,
        }
    } else {
        None
    }
}

} // verus!
