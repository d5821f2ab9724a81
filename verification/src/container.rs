//! Startup wiring: a settings record at its defaults and the screen state
//! machine with its initial transitions. Reading or writing a settings file
//! around this is the caller's concern.
use vstd::prelude::*;
use crate::config::{Config, config_defaults};
use crate::game_state::{GameApp, GameState, StateMachine};

verus! {

pub struct Container {
    pub config: Config,
    pub app: GameApp,
}

impl Container {
    /// Build the application state: default settings, and a state machine
    /// that starts in Loading, may move from Loading to Initial, and from
    /// Initial to Settings or SongChoose.
    pub fn create() -> (r: Container)
        ensures
            config_defaults(r.config),
            r.app.current_state == GameState::Loading,
            r.app.paths_of(GameState::Loading) == Some(seq![GameState::Initial]),
            r.app.paths_of(GameState::Initial) == Some(
                seq![GameState::Settings, GameState::SongChoose],
            ),
    {
        let cfg = Config::default();
        let mut app = GameApp::new();
        let loading_paths: Vec<GameState> = vec![GameState::Initial];
        let initial_paths: Vec<GameState> = vec![GameState::Settings, GameState::SongChoose];
        app.add_state(GameState::Loading, &loading_paths);
        app.add_state(GameState::Initial, &initial_paths);
        proof {
            assert(loading_paths@ =~= seq![GameState::Initial]);
            assert(initial_paths@ =~= seq![GameState::Settings, GameState::SongChoose]);
        }
        Container { config: cfg, app }
    }
}

} // verus!
