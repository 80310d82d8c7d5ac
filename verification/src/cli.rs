//! Command line options.
use vstd::prelude::*;

use crate::text;

verus! {

/// What kind of media the inputs are taken for.
#[derive(Copy, Clone, Debug, PartialEq, Eq)]
pub enum MediaType {
    Movie,
    Episode,
    /// Whatever the file name says.
    Auto,
}

/// Where the metadata of television series comes from.
#[derive(Copy, Clone, Debug, PartialEq, Eq, Structural)]
pub enum EpisodeApi {
    Tmdb,
    Tvmaze,
}

impl EpisodeApi {
    /// The name of the provider.
    pub open spec fn shown(self) -> Seq<char> {
        match self {
            EpisodeApi::Tmdb => "TMDb"@,
            EpisodeApi::Tvmaze => "TVmaze"@,
        }
    }

    /// The name of the provider.
    pub fn display_name(self) -> (res: &'static str)
        ensures
            res@ == self.shown(),
    {
        match self {
            EpisodeApi::Tmdb => "TMDb",
            EpisodeApi::Tvmaze => "TVmaze",
        }
    }
}

/// The movie template where neither an option nor the config file sets one.
pub const DEFAULT_FORMAT_MOVIE: &'static str = "{title} ({year}){ext}";

/// The episode template where neither an option nor the config file sets one.
pub const DEFAULT_FORMAT_EPISODE: &'static str =
    "{series} - S{season}E{episode_range} - {episode_title}{ext}";

/// The media extensions where neither an option nor the config file sets them.
pub open spec fn builtin_extensions() -> Seq<Seq<char>> {
    seq![
        "mkv"@,
        "mp4"@,
        "avi"@,
        "mov"@,
        "wmv"@,
        "m4v"@,
        "flv"@,
        "webm"@,
        "ts"@,
    ]
}

/// The media extensions where neither an option nor the config file sets them.
pub fn default_extensions() -> (res: Vec<String>)
    ensures
        text::views(res@) == builtin_extensions(),
{
    let mut out: Vec<String> = Vec::new();
    out.push(String::from_str("mkv"));
    out.push(String::from_str("mp4"));
    out.push(String::from_str("avi"));
    out.push(String::from_str("mov"));
    out.push(String::from_str("wmv"));
    out.push(String::from_str("m4v"));
    out.push(String::from_str("flv"));
    out.push(String::from_str("webm"));
    out.push(String::from_str("ts"));
    assert(text::views(out@) =~= builtin_extensions());
    out
}

/// The options of one run, with paths as text.
///
/// What an option leaves open is taken from the config file, and then from the
/// built-in defaults.
#[derive(Debug, Clone)]
pub struct Args {
    /// Files or directories to process.
    pub targets: Vec<String>,
    /// Recurse into subdirectories.
    pub recursive: bool,
    /// Do not recurse, whatever the config file says.
    pub no_recursive: bool,
    /// What kind of media the inputs are taken for.
    pub media: MediaType,
    /// Show what would happen without touching any files.
    pub dry_run: bool,
    /// Accept the best match without asking.
    pub batch: bool,
    /// Ask for matches, whatever the config file says.
    pub no_batch: bool,
    /// Move the files to this directory instead of renaming them in place.
    pub output_dir: Option<String>,
    /// Copy and delete instead of renaming.
    pub force_copy: bool,
    /// The TMDb API key.
    pub api_key: Option<String>,
    /// The movie template.
    pub format_movie: Option<String>,
    /// The episode template.
    pub format_episode: Option<String>,
    /// Lower-case the file names.
    pub lower: bool,
    /// Keep the case, whatever the config file says.
    pub no_lower: bool,
    /// Dots in place of blanks.
    pub scene: bool,
    /// Keep blanks, whatever the config file says.
    pub no_scene: bool,
    /// Only show what the file names say.
    pub parse_only: bool,
    /// The config file.
    pub config: Option<String>,
    /// The file to log outcomes to.
    pub log: Option<String>,
    /// Rename subtitles with their videos.
    pub subtitles: bool,
    /// The ffprobe executable.
    pub ffprobe: Option<String>,
    /// The media extensions.
    pub extensions: Option<Vec<String>>,
    /// Only show the series that a search finds.
    pub search_series: Option<String>,
    /// The series that all episodes belong to.
    pub series_id: Option<u64>,
    /// Where the metadata of series comes from.
    pub episode_api: Option<EpisodeApi>,
}

} // verus!
