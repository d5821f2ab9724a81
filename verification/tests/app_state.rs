use osu_rs::config::Config;
use osu_rs::container::Container;
use osu_rs::game_state::{GameApp, GameState, StateMachine};

#[test]
fn config_defaults() {
    let c = Config::default();
    assert_eq!(c.general.beatmap_dir, "Songs");
    assert_eq!(c.general.temp_dir, "Temp");
    assert_eq!(c.audio.volume_global, 100);
    assert_eq!(c.audio.volume_effects, 75);
    assert_eq!(c.video.width, 800);
    assert_eq!(c.video.height, 600);
    assert_eq!(c.video.fps_limit, 60);
    assert_eq!(c.video.ups_limit, 120);
    assert!(!c.video.enable_vsync);
    assert!(!c.misc.confirm_exit);
    assert_eq!(c.key_config.key_left, "V");
    assert_eq!(c.key_config.key_screenshot, "F12");
}

#[test]
fn container_wires_the_state_machine() {
    let mut cont = Container::create();
    assert!(matches!(cont.app.current_state, GameState::Loading));
    // Loading may move to Initial.
    cont.app.set_state(GameState::Initial);
    assert!(matches!(cont.app.current_state, GameState::Initial));
    // Initial may not move straight into play.
    cont.app.set_state(GameState::SongPlaying);
    assert!(matches!(cont.app.current_state, GameState::Initial));
    // But it may move to the song list.
    cont.app.set_state(GameState::SongChoose);
    assert!(matches!(cont.app.current_state, GameState::SongChoose));
}

#[test]
fn add_state_replaces_transitions() {
    let mut app = GameApp::new();
    app.add_state(GameState::Loading, &vec![GameState::Initial]);
    app.add_state(GameState::Loading, &vec![GameState::Settings]);
    app.set_state(GameState::Initial);
    assert!(matches!(app.current_state, GameState::Loading));
    app.set_state(GameState::Settings);
    assert!(matches!(app.current_state, GameState::Settings));
}
