//! The config file.
use vstd::prelude::*;

use crate::cli::EpisodeApi;

verus! {

/// The series that a title in file names stands for, by its id at a provider.
#[derive(Debug, Clone)]
pub struct SeriesMapping {
    pub title: String,
    pub episode_api: EpisodeApi,
    pub series_id: u64,
}

/// The settings of the config file, each optional; paths are text.
#[derive(Debug, Clone)]
pub struct FileConfig {
    pub api_key: Option<String>,
    pub format_movie: Option<String>,
    pub format_episode: Option<String>,
    pub extensions: Option<Vec<String>>,
    pub output_dir: Option<String>,
    pub lower: Option<bool>,
    pub scene: Option<bool>,
    pub recursive: Option<bool>,
    pub batch: Option<bool>,
    pub ffprobe_path: Option<String>,
    pub episode_api: Option<EpisodeApi>,
    pub series_mappings: Vec<SeriesMapping>,
}

impl Default for FileConfig {
    /// A config file that sets nothing.
    fn default() -> (res: Self)
        ensures
            res.api_key is None,
            res.format_movie is None,
            res.format_episode is None,
            res.extensions is None,
            res.output_dir is None,
            res.lower is None,
            res.scene is None,
            res.recursive is None,
            res.batch is None,
            res.ffprobe_path is None,
            res.episode_api is None,
            res.series_mappings@.len() == 0,
    {
        FileConfig {
            api_key: None,
            format_movie: None,
            format_episode: None,
            extensions: None,
            output_dir: None,
            lower: None,
            scene: None,
            recursive: None,
            batch: None,
            ffprobe_path: None,
            episode_api: None,
            series_mappings: Vec::new(),
        }
    }
}

/// What reading a config file comes to.
#[derive(Debug, Clone, Copy, PartialEq, Eq)]
pub enum ConfigSource {
    /// No file could be named: the defaults hold.
    Unnamed,
    /// The file was read.
    Read,
    /// The file does not exist.
    NotFound,
    /// The file could not be read for another reason.
    Unreadable,
}

/// What to do about a config file.
#[derive(Debug, Clone, Copy, PartialEq, Eq)]
pub enum ConfigStep {
    /// Parse what was read.
    Parse,
    /// Go on with the defaults.
    UseDefaults,
    /// Report that the file could not be read.
    Fail,
}

/// What to do about a config file.
pub open spec fn config_decision(explicitly_requested: bool, source: ConfigSource) -> ConfigStep {
    match source {
        ConfigSource::Unnamed => ConfigStep::UseDefaults,
        ConfigSource::Read => ConfigStep::Parse,
        ConfigSource::NotFound => if explicitly_requested {
            ConfigStep::Fail
        } else {
            ConfigStep::UseDefaults
        },
        ConfigSource::Unreadable => ConfigStep::Fail,
    }
}

/// Decides what to do about a config file: a file that was asked for must be
/// there; the default one may be missing.
pub fn config_step(explicitly_requested: bool, source: ConfigSource) -> (res: ConfigStep)
    ensures
        res == config_decision(explicitly_requested, source),
{
    match source {
        ConfigSource::Unnamed => ConfigStep::UseDefaults,
        ConfigSource::Read => ConfigStep::Parse,
        ConfigSource::NotFound => if explicitly_requested {
            ConfigStep::Fail
        } else {
            ConfigStep::UseDefaults
        },
        ConfigSource::Unreadable => ConfigStep::Fail,
    }
}

/// The message that a config file could not be read.
pub fn unreadable_message(path: &str) -> (res: String)
    ensures
        res@ == "failed to read config file "@ + path@,
{
    let mut out = String::from_str("failed to read config file ");
    out.append(path);
    out
}

/// The message that a config file could not be understood.
pub fn invalid_message(path: &str) -> (res: String)
    ensures
        res@ == "invalid config file "@ + path@,
{
    let mut out = String::from_str("invalid config file ");
    out.append(path);
    out
}

/// A file that was asked for is never passed over: the defaults hold only where
/// no file was asked for.
pub proof fn law_requested_config_is_never_passed_over(
    explicitly_requested: bool,
    source: ConfigSource,
)
    ensures
        config_decision(explicitly_requested, source) is UseDefaults ==> source
            == ConfigSource::Unnamed || !explicitly_requested,
        config_decision(explicitly_requested, source) is Parse <==> source == ConfigSource::Read,
{
}

/// A config file that cannot be read stops the run, whoever asked for it, and so
/// does a missing one that was asked for; a missing default one does not.
pub proof fn law_unreadable_config_stops_the_run(explicitly_requested: bool)
    ensures
        config_decision(explicitly_requested, ConfigSource::Unreadable) is Fail,
        config_decision(true, ConfigSource::NotFound) is Fail,
        config_decision(false, ConfigSource::NotFound) is UseDefaults,
        config_decision(explicitly_requested, ConfigSource::Unnamed) is UseDefaults,
{
}

} // verus!
