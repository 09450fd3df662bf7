//! The settings file of the client and the choices made on it.

use vstd::prelude::*;

verus! {

/// The `[general]` section.
pub struct General {
    pub dark_mode: bool,
}

/// The `[video]` section.
pub struct Video {
    pub preferred_resolution: String,
}

/// The whole settings file.
pub struct Config {
    pub general: General,
    pub video: Video,
}

/// The settings written when there is no settings file yet: light theme,
/// 720p.
pub fn default_config() -> (res: Config)
    ensures
        !res.general.dark_mode,
        res.video.preferred_resolution@ == "720p"@,
{
    Config {
        general: General { dark_mode: false },
        video: Video { preferred_resolution: "720p".to_owned() },
    }
}

/// `config` with its dark-mode setting replaced by `value`; nothing else
/// changes.
pub fn with_dark_mode(config: Config, value: bool) -> (res: Config)
    ensures
        res.general.dark_mode == value,
        res.video.preferred_resolution@ == config.video.preferred_resolution@,
{
    let mut config = config;
    config.general.dark_mode = value;
    config
}

/// A switch turned over: the dark-theme switch and the search revealer
/// flip their state on each activation.
pub fn toggled(state: bool) -> (res: bool)
    ensures
        res == !state,
{
    if state {
        false
    } else {
        true
    }
}

/// What the preferences window does with the settings file it finds.
pub enum LoadedSettings {
    /// The file parsed: apply its theme, and turn the switch on if the
    /// theme is dark.
    Apply { prefer_dark: bool, switch_on: bool },
    /// The file did not parse: delete it and write the default one.
    Reset,
}

/// The action for a settings file that parsed to `parsed` (or did not
/// parse at all).
pub fn on_settings_loaded(parsed: Option<&Config>) -> (res: LoadedSettings)
    ensures
        parsed is None <==> res is Reset,
        parsed matches Some(c) ==> res == (LoadedSettings::Apply {
            prefer_dark: c.general.dark_mode,
            switch_on: c.general.dark_mode,
        }),
{
    match parsed {
        Some(c) => LoadedSettings::Apply { prefer_dark: c.general.dark_mode, switch_on: c.general.dark_mode },
        None => LoadedSettings::Reset,
    }
}

} // verus!
