//! The settings of the application, with their documented defaults.
//! Loading and saving these from a settings file is the caller's concern;
//! the types here only carry the values.
use vstd::prelude::*;

verus! {

pub struct GeneralConfig {
    pub beatmap_dir: String,
    pub skin_dir: String,
    pub replays_dir: String,
    pub screenshots_dir: String,
    pub temp_dir: String,
}

pub open spec fn general_defaults(c: GeneralConfig) -> bool {
    &&& c.beatmap_dir@ == "Songs"@
    &&& c.skin_dir@ == "Skins"@
    &&& c.replays_dir@ == "Replays"@
    &&& c.screenshots_dir@ == "Screenshots"@
    &&& c.temp_dir@ == "Temp"@
}

impl Default for GeneralConfig {
    fn default() -> (r: GeneralConfig)
        ensures
            general_defaults(r),
    {
        GeneralConfig {
            beatmap_dir: String::from_str("Songs"),
            skin_dir: String::from_str("Skins"),
            replays_dir: String::from_str("Replays"),
            screenshots_dir: String::from_str("Screenshots"),
            temp_dir: String::from_str("Temp"),
        }
    }
}

pub struct AudioConfig {
    pub volume_global: i32,
    pub volume_music: i32,
    pub volume_effects: i32,
}

pub open spec fn audio_defaults(c: AudioConfig) -> bool {
    c.volume_global == 100 && c.volume_music == 100 && c.volume_effects == 75
}

impl Default for AudioConfig {
    fn default() -> (r: AudioConfig)
        ensures
            audio_defaults(r),
    {
        AudioConfig { volume_global: 100, volume_music: 100, volume_effects: 75 }
    }
}

pub struct VideoConfig {
    pub width: u32,
    pub height: u32,
    pub fps_limit: u64,
    pub ups_limit: u64,
    pub enable_vsync: bool,
    pub fullscreen: bool,
    pub show_fps_counter: bool,
}

pub open spec fn video_defaults(c: VideoConfig) -> bool {
    &&& c.width == 800
    &&& c.height == 600
    &&& c.fps_limit == 60
    &&& c.ups_limit == 120
    &&& !c.enable_vsync
    &&& !c.fullscreen
    &&& !c.show_fps_counter
}

impl Default for VideoConfig {
    fn default() -> (r: VideoConfig)
        ensures
            video_defaults(r),
    {
        VideoConfig {
            width: 800,
            height: 600,
            fps_limit: 60,
            ups_limit: 120,
            enable_vsync: false,
            fullscreen: false,
            show_fps_counter: false,
        }
    }
}

pub struct MiscConfig {
    pub confirm_exit: bool,
    pub debug_title: bool,
}

pub open spec fn misc_defaults(c: MiscConfig) -> bool {
    !c.confirm_exit && !c.debug_title
}

impl Default for MiscConfig {
    fn default() -> (r: MiscConfig)
        ensures
            misc_defaults(r),
    {
        MiscConfig { confirm_exit: false, debug_title: false }
    }
}

pub struct KeyConfig {
    pub key_left: String,
    pub key_right: String,
    pub key_pause: String,
    pub key_screenshot: String,
}

pub open spec fn key_defaults(c: KeyConfig) -> bool {
    &&& c.key_left@ == "V"@
    &&& c.key_right@ == "B"@
    &&& c.key_pause@ == "Esc"@
    &&& c.key_screenshot@ == "F12"@
}

impl Default for KeyConfig {
    fn default() -> (r: KeyConfig)
        ensures
            key_defaults(r),
    {
        KeyConfig {
            key_left: String::from_str("V"),
            key_right: String::from_str("B"),
            key_pause: String::from_str("Esc"),
            key_screenshot: String::from_str("F12"),
        }
    }
}

pub struct Config {
    pub general: GeneralConfig,
    pub audio: AudioConfig,
    pub video: VideoConfig,
    pub misc: MiscConfig,
    pub key_config: KeyConfig,
}

pub open spec fn config_defaults(c: Config) -> bool {
    &&& general_defaults(c.general)
    &&& audio_defaults(c.audio)
    &&& video_defaults(c.video)
    &&& misc_defaults(c.misc)
    &&& key_defaults(c.key_config)
}

impl Default for Config {
    fn default() -> (r: Config)
        ensures
            config_defaults(r),
    {
        Config {
            general: GeneralConfig::default(),
            audio: AudioConfig::default(),
            video: VideoConfig::default(),
            misc: MiscConfig::default(),
            key_config: KeyConfig::default(),
        }
    }
}

} // verus!
