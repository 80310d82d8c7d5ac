//! The settings of a run, from options, config file and defaults.
use vstd::prelude::*;

use crate::chars::CharSet;
use crate::cli;
use crate::cli::{Args, EpisodeApi, DEFAULT_FORMAT_EPISODE, DEFAULT_FORMAT_MOVIE};
use crate::config::FileConfig;
use crate::pattern;
use crate::pattern::{Found, FoundView};
use crate::text;

verus! {

/// A flag that an option switches on or off, or else the config file sets.
pub fn resolve_bool(enabled: bool, disabled: bool, configured: Option<bool>) -> (res: bool)
    ensures
        res == (enabled || (!disabled && configured == Some(true))),
{
    if enabled {
        true
    } else if disabled {
        false
    } else {
        match configured {
            Some(value) => value,
            None => false,
        }
    }
}

/// The first of two optional values.
pub open spec fn first_of<T>(cli: Option<T>, configured: Option<T>) -> Option<T> {
    match cli {
        Some(v) => Some(v),
        None => configured,
    }
}

/// The provider of an option, else of the config file, else TMDb.
pub fn resolve_episode_api(cli: Option<EpisodeApi>, configured: Option<EpisodeApi>) -> (res:
    EpisodeApi)
    ensures
        res == (match first_of(cli, configured) {
            Some(api) => api,
            None => EpisodeApi::Tmdb,
        }),
{
    match cli {
        Some(api) => api,
        None => match configured {
            Some(api) => api,
            None => EpisodeApi::Tmdb,
        },
    }
}

/// A text that is there and not empty.
pub open spec fn given(key: Option<Seq<char>>) -> bool {
    match key {
        Some(k) => k.len() > 0,
        None => false,
    }
}

/// The first key that is given: by an option, by the environment, by the config
/// file.
pub open spec fn first_key(
    option: Option<Seq<char>>,
    environment: Option<Seq<char>>,
    configured: Option<Seq<char>>,
) -> Option<Seq<char>> {
    if given(option) {
        option
    } else if given(environment) {
        environment
    } else if given(configured) {
        configured
    } else {
        None
    }
}

fn nonempty_copy(key: &Option<String>) -> (res: Option<String>)
    ensures
        text::opt_view(res) == (if given(text::opt_view(*key)) {
            text::opt_view(*key)
        } else {
            None
        }),
{
    match key {
        Some(k) => if k.as_str().is_empty() {
            None
        } else {
            Some(k.clone())
        },
        None => None,
    }
}

/// The API key: of the option, else of the environment, else of the config
/// file. An empty key counts as none.
pub fn resolve_api_key(
    option: &Option<String>,
    environment: &Option<String>,
    configured: &Option<String>,
) -> (res: Option<String>)
    ensures
        text::opt_view(res) == first_key(
            text::opt_view(*option),
            text::opt_view(*environment),
            text::opt_view(*configured),
        ),
{
    if let Some(k) = nonempty_copy(option) {
        return Some(k);
    }
    if let Some(k) = nonempty_copy(environment) {
        return Some(k);
    }
    nonempty_copy(configured)
}

/// Fields in a file name template.
pub const TEMPLATE_FIELD: &'static str = r"\{([^{}]+)\}";

/// What is wrong with a file name template of this kind.
#[derive(Debug, Clone, PartialEq, Eq)]
pub enum TemplateError {
    /// There is nothing in it.
    Empty { kind: String },
    /// It has a field that it cannot have.
    Unknown { kind: String, field: String },
    /// Its braces do not enclose fields.
    Unmatched { kind: String },
}

/// An error with its texts as sequences of characters.
pub enum TemplateErrorView {
    Empty { kind: Seq<char> },
    Unknown { kind: Seq<char>, field: Seq<char> },
    Unmatched { kind: Seq<char> },
}

impl View for TemplateError {
    type V = TemplateErrorView;

    open spec fn view(&self) -> TemplateErrorView {
        match *self {
            TemplateError::Empty { kind } => TemplateErrorView::Empty { kind: kind@ },
            TemplateError::Unknown { kind, field } => TemplateErrorView::Unknown {
                kind: kind@,
                field: field@,
            },
            TemplateError::Unmatched { kind } => TemplateErrorView::Unmatched { kind: kind@ },
        }
    }
}

impl TemplateErrorView {
    /// The message shown for an error.
    pub open spec fn words(self) -> Seq<char> {
        match self {
            TemplateErrorView::Empty { kind } => kind + " filename template cannot be empty"@,
            TemplateErrorView::Unknown { kind, field } => "unknown {"@ + field
                + "} placeholder in "@ + kind + " filename template"@,
            TemplateErrorView::Unmatched { kind } => "unmatched or nested braces in "@ + kind
                + " filename template"@,
        }
    }
}

impl TemplateError {
    /// The message shown for this error.
    pub fn message(&self) -> (res: String)
        ensures
            res@ == self@.words(),
    {
        match self {
            TemplateError::Empty { kind } => {
                let mut out = kind.clone();
                out.append(" filename template cannot be empty");
                out
            },
            TemplateError::Unknown { kind, field } => {
                let mut out = String::from_str("unknown {");
                out.append(field.as_str());
                out.append("} placeholder in ");
                out.append(kind.as_str());
                out.append(" filename template");
                out
            },
            TemplateError::Unmatched { kind } => {
                let mut out = String::from_str("unmatched or nested braces in ");
                out.append(kind.as_str());
                out.append(" filename template");
                out
            },
        }
    }
}

/// The name of a field that was found.
pub open spec fn field_name(found: FoundView) -> Seq<char> {
    match found.group(1) {
        Some(name) => name,
        None => Seq::empty(),
    }
}

/// The first field among those found that is not allowed.
pub open spec fn first_unknown(found: Seq<FoundView>, allowed: Seq<Seq<char>>) -> Option<Seq<char>>
    decreases found.len(),
{
    if found.len() == 0 {
        None
    } else if !allowed.contains(field_name(found[0])) {
        Some(field_name(found[0]))
    } else {
        first_unknown(found.skip(1), allowed)
    }
}

/// A template without the fields that were found in it.
pub open spec fn without_fields(template: Seq<char>, found: Seq<FoundView>) -> Seq<char>
    decreases found.len(),
{
    if found.len() == 0 {
        template
    } else {
        text::replaced(
            without_fields(template, found.drop_last()),
            found.last().matched(),
            Seq::empty(),
        )
    }
}

/// What is wrong with a template, given the fields that were found in it.
pub open spec fn template_error(
    template: Seq<char>,
    kind: Seq<char>,
    allowed: Seq<Seq<char>>,
    found: Seq<FoundView>,
) -> Option<TemplateErrorView> {
    if text::trimmed(template, CharSet::Space).len() == 0 {
        Some(TemplateErrorView::Empty { kind })
    } else {
        match first_unknown(found, allowed) {
            Some(field) => Some(TemplateErrorView::Unknown { kind, field }),
            None => {
                let rest = without_fields(template, found);
                if rest.contains('{') || rest.contains('}') {
                    Some(TemplateErrorView::Unmatched { kind })
                } else {
                    None
                }
            },
        }
    }
}

/// The characters of each of a list of texts.
pub open spec fn str_views(list: Seq<&str>) -> Seq<Seq<char>> {
    list.map_values(|t: &str| t@)
}

fn is_allowed(allowed: &[&str], field: &str) -> (res: bool)
    ensures
        res == str_views(allowed@).contains(field@),
{
    let ghost all = str_views(allowed@);
    let mut i: usize = 0;
    while i < allowed.len()
        invariant
            i <= allowed.len(),
            all == str_views(allowed@),
            forall|k: int| 0 <= k < i ==> #[trigger] all[k] != field@,
        decreases allowed.len() - i,
    {
        assert(all[i as int] == allowed@[i as int]@);
        if text::same_text(allowed[i], field) {
            return true;
        }
        i += 1;
    }
    false
}

fn has_brace(s: &str) -> (res: bool)
    ensures
        res == (s@.contains('{') || s@.contains('}')),
{
    let letters = text::to_chars(s);
    let mut i: usize = 0;
    while i < letters.len()
        invariant
            i <= letters.len(),
            letters@ == s@,
            forall|k: int| 0 <= k < i ==> #[trigger] s@[k] != '{' && s@[k] != '}',
        decreases letters.len() - i,
    {
        if letters[i] == '{' || letters[i] == '}' {
            assert(s@[i as int] == letters[i as int]);
            return true;
        }
        i += 1;
    }
    false
}

/// Judges a template by the fields that were found in it.
pub fn check_template(
    template: &str,
    kind: &str,
    allowed: &[&str],
    found: &Vec<Found>,
) -> (res: Result<(), TemplateError>)
    ensures
        match res {
            Ok(()) => template_error(
                template@,
                kind@,
                str_views(allowed@),
                pattern::found_views(found@),
            ) is None,
            Err(e) => template_error(
                template@,
                kind@,
                str_views(allowed@),
                pattern::found_views(found@),
            ) == Some(e@),
        },
{
    if text::trim(template, CharSet::Space).as_str().is_empty() {
        return Err(TemplateError::Empty { kind: String::from_str(kind) });
    }
    let ghost views = pattern::found_views(found@);
    let mut rest = String::from_str(template);
    let mut i: usize = 0;
    assert(views.skip(0) =~= views);
    assert(views.take(0) =~= Seq::<FoundView>::empty());
    while i < found.len()
        invariant
            i <= found.len(),
            views == pattern::found_views(found@),
            first_unknown(views, str_views(allowed@)) == first_unknown(
                views.skip(i as int),
                str_views(allowed@),
            ),
            rest@ == without_fields(template@, views.take(i as int)),
            text::trimmed(template@, CharSet::Space).len() > 0,
        decreases found.len() - i,
    {
        assert(views.skip(i as int)[0] == found@[i as int]@);
        assert(views.skip(i as int).skip(1) =~= views.skip(i + 1));
        assert(views.take(i + 1).drop_last() =~= views.take(i as int));
        let field = match found[i].group(1) {
            Some(name) => name.clone(),
            None => String::new(),
        };
        assert(field@ =~= field_name(views[i as int]));
        if !is_allowed(allowed, field.as_str()) {
            return Err(TemplateError::Unknown { kind: String::from_str(kind), field });
        }
        let matched = found[i].text();
        if !matched.as_str().is_empty() {
            proof {
                reveal_strlit("");
                assert(""@ =~= Seq::<char>::empty());
            }
            rest = text::replace(rest.as_str(), matched.as_str(), "");
        }
        i += 1;
    }
    assert(views.take(views.len() as int) =~= views);
    if has_brace(rest.as_str()) {
        return Err(TemplateError::Unmatched { kind: String::from_str(kind) });
    }
    Ok(())
}

/// Checks that a template is not empty, holds only the allowed fields, and has
/// no other braces.
pub fn validate_template(template: &str, kind: &str, allowed: &[&str]) -> (res: Result<
    (),
    TemplateError,
>)
    ensures
        match res {
            Ok(()) => template_error(
                template@,
                kind@,
                str_views(allowed@),
                pattern::regex_captures_iter(TEMPLATE_FIELD@, template@),
            ) is None,
            Err(e) => template_error(
                template@,
                kind@,
                str_views(allowed@),
                pattern::regex_captures_iter(TEMPLATE_FIELD@, template@),
            ) == Some(e@),
        },
{
    check_template(template, kind, allowed, &pattern::captures_iter(TEMPLATE_FIELD, template))
}

/// The path of the probe executable was set to nothing.
#[derive(Debug, Clone, PartialEq, Eq)]
pub struct EmptyProbePath;

impl EmptyProbePath {
    /// The message shown for this error.
    pub fn message(&self) -> (res: &'static str)
        ensures
            res@
                == "ffprobe path cannot be empty; set --ffprobe or config ffprobe_path to an executable path"@,
    {
        "ffprobe path cannot be empty; set --ffprobe or config ffprobe_path to an executable path"
    }
}

/// The path of the probe executable: of an option, else of the config file,
/// else the bare name.
pub open spec fn probe_path(cli: Option<Seq<char>>, configured: Option<Seq<char>>) -> Seq<char> {
    match first_of(cli, configured) {
        Some(path) => path,
        None => "ffprobe"@,
    }
}

/// The path of the probe executable, which must not be empty.
pub fn resolve_ffprobe_path(cli: &Option<String>, configured: &Option<String>) -> (res: Result<
    String,
    EmptyProbePath,
>)
    ensures
        match res {
            Ok(path) => path@ == probe_path(text::opt_view(*cli), text::opt_view(*configured))
                && path@.len() > 0,
            Err(_) => probe_path(text::opt_view(*cli), text::opt_view(*configured)).len() == 0,
        },
{
    let path = match cli {
        Some(p) => p.clone(),
        None => match configured {
            Some(p) => p.clone(),
            None => String::from_str("ffprobe"),
        },
    };
    if path.as_str().is_empty() {
        return Err(EmptyProbePath);
    }
    Ok(path)
}

/// The settings that options, config file and defaults come to.
#[derive(Debug, Clone)]
pub struct Settings {
    pub recursive: bool,
    pub batch: bool,
    pub lower: bool,
    pub scene: bool,
    pub episode_api: EpisodeApi,
    pub output_dir: Option<String>,
    pub ffprobe: String,
    pub extensions: Vec<String>,
    pub format_movie: String,
    pub format_episode: String,
}

/// Why the settings cannot be used.
#[derive(Debug, Clone, PartialEq, Eq)]
pub enum SettingsError {
    Probe(EmptyProbePath),
    Template(TemplateError),
}

impl SettingsError {
    /// The message shown for an error.
    pub open spec fn words(&self) -> Seq<char> {
        match *self {
            SettingsError::Probe(_) => "ffprobe path cannot be empty; set --ffprobe or config ffprobe_path to an executable path"@,
            SettingsError::Template(e) => e@.words(),
        }
    }

    /// The message shown for this error.
    pub fn message(&self) -> (res: String)
        ensures
            res@ == self.words(),
    {
        match self {
            SettingsError::Probe(e) => String::from_str(e.message()),
            SettingsError::Template(e) => e.message(),
        }
    }
}

/// The fields that a movie template can have.
pub open spec fn movie_fields() -> Seq<Seq<char>> {
    seq!["title"@, "year"@, "ext"@]
}

/// The fields that an episode template can have.
pub open spec fn episode_fields() -> Seq<Seq<char>> {
    seq![
        "series"@,
        "year"@,
        "season"@,
        "episode"@,
        "episode_end"@,
        "episode_range"@,
        "episode_title"@,
        "ext"@,
    ]
}

/// The views of an optional list of texts.
pub open spec fn opt_views(list: Option<Vec<String>>) -> Option<Seq<Seq<char>>> {
    match list {
        Some(l) => Some(text::views(l@)),
        None => None,
    }
}

/// An option, else what the config file says, else a default.
pub open spec fn setting<T>(cli: Option<T>, configured: Option<T>, builtin: T) -> T {
    match first_of(cli, configured) {
        Some(v) => v,
        None => builtin,
    }
}

/// The movie template that options, config file and defaults come to.
pub open spec fn movie_template(args: Args, cfg: FileConfig) -> Seq<char> {
    setting(
        text::opt_view(args.format_movie),
        text::opt_view(cfg.format_movie),
        DEFAULT_FORMAT_MOVIE@,
    )
}

/// The episode template that options, config file and defaults come to.
pub open spec fn episode_template(args: Args, cfg: FileConfig) -> Seq<char> {
    setting(
        text::opt_view(args.format_episode),
        text::opt_view(cfg.format_episode),
        DEFAULT_FORMAT_EPISODE@,
    )
}

/// The settings are what options, config file and defaults come to.
pub open spec fn settings_hold(s: Settings, args: Args, cfg: FileConfig) -> bool {
    &&& s.recursive == (args.recursive || (!args.no_recursive && cfg.recursive == Some(true)))
    &&& s.batch == (args.batch || (!args.no_batch && cfg.batch == Some(true)))
    &&& s.lower == (args.lower || (!args.no_lower && cfg.lower == Some(true)))
    &&& s.scene == (args.scene || (!args.no_scene && cfg.scene == Some(true)))
    &&& s.episode_api == setting(args.episode_api, cfg.episode_api, EpisodeApi::Tmdb)
    &&& text::opt_view(s.output_dir) == first_of(
        text::opt_view(args.output_dir),
        text::opt_view(cfg.output_dir),
    )
    &&& s.ffprobe@ == probe_path(text::opt_view(args.ffprobe), text::opt_view(cfg.ffprobe_path))
    &&& text::views(s.extensions@) == setting(
        opt_views(args.extensions),
        opt_views(cfg.extensions),
        cli::builtin_extensions(),
    )
    &&& s.format_movie@ == movie_template(args, cfg)
    &&& s.format_episode@ == episode_template(args, cfg)
}

/// The first thing that is wrong with the settings: the probe path, the movie
/// template, the episode template.
pub open spec fn settings_error(args: Args, cfg: FileConfig) -> Option<Seq<char>> {
    let movie = movie_template(args, cfg);
    let episode = episode_template(args, cfg);
    if probe_path(text::opt_view(args.ffprobe), text::opt_view(cfg.ffprobe_path)).len() == 0 {
        Some(
            "ffprobe path cannot be empty; set --ffprobe or config ffprobe_path to an executable path"@,
        )
    } else {
        match template_error(
            movie,
            "movie"@,
            movie_fields(),
            pattern::regex_captures_iter(TEMPLATE_FIELD@, movie),
        ) {
            Some(e) => Some(e.words()),
            None => match template_error(
                episode,
                "episode"@,
                episode_fields(),
                pattern::regex_captures_iter(TEMPLATE_FIELD@, episode),
            ) {
                Some(e) => Some(e.words()),
                None => None,
            },
        }
    }
}

fn copy_texts(list: &Vec<String>) -> (res: Vec<String>)
    ensures
        text::views(res@) == text::views(list@),
{
    let mut out: Vec<String> = Vec::new();
    let mut i: usize = 0;
    while i < list.len()
        invariant
            i <= list.len(),
            out@.len() == i,
            forall|k: int| 0 <= k < i ==> (#[trigger] out@[k])@ == list@[k]@,
        decreases list.len() - i,
    {
        out.push(list[i].clone());
        i += 1;
    }
    assert(text::views(out@) =~= text::views(list@));
    out
}

fn first_text(cli: &Option<String>, configured: &Option<String>) -> (res: Option<String>)
    ensures
        text::opt_view(res) == first_of(text::opt_view(*cli), text::opt_view(*configured)),
{
    match cli {
        Some(t) => Some(t.clone()),
        None => match configured {
            Some(t) => Some(t.clone()),
            None => None,
        },
    }
}

/// Settles the settings of a run: an option wins over the config file, and that
/// over the built-in default.
pub fn resolve_settings(args: &Args, cfg: &FileConfig) -> (res: Result<Settings, SettingsError>)
    ensures
        match res {
            Ok(s) => settings_error(*args, *cfg) is None && settings_hold(s, *args, *cfg),
            Err(e) => settings_error(*args, *cfg) == Some(e.words()),
        },
{
    let ffprobe = match resolve_ffprobe_path(&args.ffprobe, &cfg.ffprobe_path) {
        Ok(path) => path,
        Err(e) => return Err(SettingsError::Probe(e)),
    };
    let extensions = match &args.extensions {
        Some(list) => copy_texts(list),
        None => match &cfg.extensions {
            Some(list) => copy_texts(list),
            None => cli::default_extensions(),
        },
    };
    let format_movie = match first_text(&args.format_movie, &cfg.format_movie) {
        Some(t) => t,
        None => String::from_str(DEFAULT_FORMAT_MOVIE),
    };
    let format_episode = match first_text(&args.format_episode, &cfg.format_episode) {
        Some(t) => t,
        None => String::from_str(DEFAULT_FORMAT_EPISODE),
    };
    let movie_names: [&str; 3] = ["title", "year", "ext"];
    let episode_names: [&str; 8] = [
        "series",
        "year",
        "season",
        "episode",
        "episode_end",
        "episode_range",
        "episode_title",
        "ext",
    ];
    assert(str_views(movie_names@) =~= movie_fields());
    assert(str_views(episode_names@) =~= episode_fields());
    if let Err(e) = validate_template(format_movie.as_str(), "movie", &movie_names) {
        return Err(SettingsError::Template(e));
    }
    if let Err(e) = validate_template(format_episode.as_str(), "episode", &episode_names) {
        return Err(SettingsError::Template(e));
    }
    Ok(
        Settings {
            recursive: resolve_bool(args.recursive, args.no_recursive, cfg.recursive),
            batch: resolve_bool(args.batch, args.no_batch, cfg.batch),
            lower: resolve_bool(args.lower, args.no_lower, cfg.lower),
            scene: resolve_bool(args.scene, args.no_scene, cfg.scene),
            episode_api: resolve_episode_api(args.episode_api, cfg.episode_api),
            output_dir: first_text(&args.output_dir, &cfg.output_dir),
            ffprobe,
            extensions,
            format_movie,
            format_episode,
        },
    )
}

/// An option always wins over the config file, and the config file over the
/// built-in default.
pub proof fn law_options_win<T>(option: T, configured: T, builtin: T)
    ensures
        setting(Some(option), Some(configured), builtin) == option,
        setting(Some(option), None, builtin) == option,
        setting(None, Some(configured), builtin) == configured,
        setting::<T>(None, None, builtin) == builtin,
{
}

/// A key from the command line wins over the environment, that over the config
/// file; an empty key never counts.
pub proof fn law_keys_are_taken_in_order(
    option: Option<Seq<char>>,
    environment: Option<Seq<char>>,
    configured: Option<Seq<char>>,
)
    ensures
        first_key(option, environment, configured) matches Some(k) ==> k.len() > 0,
        given(option) ==> first_key(option, environment, configured) == option,
        !given(option) && given(environment) ==> first_key(option, environment, configured)
            == environment,
        first_key(option, environment, configured) is None <==> !given(option) && !given(
            environment,
        ) && !given(configured),
{
}

/// A template that is accepted is not blank, every field that is found in it is
/// allowed, and without its fields it has no brace.
pub proof fn law_accepted_templates_hold_allowed_fields(
    template: Seq<char>,
    kind: Seq<char>,
    allowed: Seq<Seq<char>>,
    found: Seq<FoundView>,
)
    requires
        template_error(template, kind, allowed, found) is None,
    ensures
        text::trimmed(template, CharSet::Space).len() > 0,
        forall|i: int| 0 <= i < found.len() ==> allowed.contains(field_name(#[trigger] found[i])),
        !without_fields(template, found).contains('{'),
        !without_fields(template, found).contains('}'),
{
    lemma_no_unknown(found, allowed);
}

proof fn lemma_no_unknown(found: Seq<FoundView>, allowed: Seq<Seq<char>>)
    requires
        first_unknown(found, allowed) is None,
    ensures
        forall|i: int| 0 <= i < found.len() ==> allowed.contains(field_name(#[trigger] found[i])),
    decreases found.len(),
{
    if found.len() > 0 {
        let rest = found.skip(1);
        lemma_no_unknown(rest, allowed);
        assert forall|i: int| 0 <= i < found.len() implies allowed.contains(
            field_name(#[trigger] found[i]),
        ) by {
            if i > 0 {
                assert(rest[i - 1] == found[i]);
            }
        }
    }
}

/// A template is accepted just where it holds something, all fields found in it
/// are allowed, and no brace is left when they are taken out.
pub proof fn law_sound_templates_are_accepted(
    template: Seq<char>,
    kind: Seq<char>,
    allowed: Seq<Seq<char>>,
    found: Seq<FoundView>,
)
    ensures
        template_error(template, kind, allowed, found) is None <==> {
            &&& text::trimmed(template, CharSet::Space).len() > 0
            &&& forall|i: int|
                0 <= i < found.len() ==> allowed.contains(field_name(#[trigger] found[i]))
            &&& !without_fields(template, found).contains('{')
            &&& !without_fields(template, found).contains('}')
        },
        template_error(template, kind, allowed, found) matches Some(
            TemplateErrorView::Unknown { kind: k, field },
        ) ==> k == kind && !allowed.contains(field) && exists|i: int|
            0 <= i < found.len() && field_name(#[trigger] found[i]) == field,
        template_error(template, kind, allowed, found) matches Some(
            TemplateErrorView::Empty { kind: k },
        ) ==> k == kind && text::trimmed(template, CharSet::Space).len() == 0,
        template_error(template, kind, allowed, found) matches Some(
            TemplateErrorView::Unmatched { kind: k },
        ) ==> k == kind,
{
    lemma_first_unknown(found, allowed);
}

proof fn lemma_first_unknown(found: Seq<FoundView>, allowed: Seq<Seq<char>>)
    ensures
        match first_unknown(found, allowed) {
            Some(field) => !allowed.contains(field) && exists|i: int|
                0 <= i < found.len() && field_name(#[trigger] found[i]) == field,
            None => forall|i: int|
                0 <= i < found.len() ==> allowed.contains(field_name(#[trigger] found[i])),
        },
    decreases found.len(),
{
    if found.len() > 0 {
        let rest = found.skip(1);
        lemma_first_unknown(rest, allowed);
        assert(found[0] == found[0]);
        if !allowed.contains(field_name(found[0])) {
            assert(field_name(found[0]) == first_unknown(found, allowed)->0);
        } else if let Some(field) = first_unknown(rest, allowed) {
            let i = choose|i: int|
                0 <= i < rest.len() && field_name(#[trigger] rest[i]) == field;
            assert(found[i + 1] == rest[i]);
        } else {
            assert forall|i: int| 0 <= i < found.len() implies allowed.contains(
                field_name(#[trigger] found[i]),
            ) by {
                if i > 0 {
                    assert(rest[i - 1] == found[i]);
                }
            }
        }
    }
}

/// The name of a field is what the braces around it hold, and taking fields out
/// removes each with its braces, wherever it stands, and nothing else.
pub proof fn law_fields_are_taken_out_one_by_one(
    template: Seq<char>,
    found: Seq<FoundView>,
    field: FoundView,
)
    requires
        field.groups.len() > 1,
        field.groups[0] is Some,
        field.groups[1] is Some,
    ensures
        field_name(field) == field.groups[1]->0,
        without_fields(template, Seq::empty()) == template,
        without_fields(template, found.push(field)) == text::replaced(
            without_fields(template, found),
            field.groups[0]->0,
            Seq::empty(),
        ),
{
    assert(found.push(field).drop_last() =~= found);
}

/// A movie template can name the title, the year and the extension; an episode
/// template the series, the year, the season, the episode, its end and its range,
/// the episode's title and the extension.
pub proof fn law_templates_name_these_fields()
    ensures
        movie_fields().contains("title"@) && movie_fields().contains("year"@)
            && movie_fields().contains("ext"@) && movie_fields().len() == 3,
        episode_fields().contains("series"@) && episode_fields().contains("year"@)
            && episode_fields().contains("season"@) && episode_fields().contains("episode"@)
            && episode_fields().contains("episode_end"@) && episode_fields().contains(
            "episode_range"@,
        ) && episode_fields().contains("episode_title"@) && episode_fields().contains("ext"@)
            && episode_fields().len() == 8,
{
    assert(movie_fields()[0] == "title"@ && movie_fields()[1] == "year"@ && movie_fields()[2]
        == "ext"@);
    let f = episode_fields();
    assert(f[0] == "series"@ && f[1] == "year"@ && f[2] == "season"@ && f[3] == "episode"@);
    assert(f[4] == "episode_end"@ && f[5] == "episode_range"@ && f[6] == "episode_title"@ && f[7]
        == "ext"@);
}

/// An option that switches something on holds; one that switches it off holds
/// against the config file; without either the config file decides.
pub proof fn law_switches_win_over_the_config_file(s: Settings, args: Args, cfg: FileConfig)
    requires
        settings_hold(s, args, cfg),
    ensures
        args.recursive ==> s.recursive,
        !args.recursive && args.no_recursive ==> !s.recursive,
        !args.recursive && !args.no_recursive ==> (s.recursive <==> cfg.recursive == Some(true)),
        args.batch ==> s.batch,
        !args.batch && args.no_batch ==> !s.batch,
        !args.batch && !args.no_batch ==> (s.batch <==> cfg.batch == Some(true)),
        args.lower ==> s.lower,
        !args.lower && args.no_lower ==> !s.lower,
        !args.lower && !args.no_lower ==> (s.lower <==> cfg.lower == Some(true)),
        args.scene ==> s.scene,
        !args.scene && args.no_scene ==> !s.scene,
        !args.scene && !args.no_scene ==> (s.scene <==> cfg.scene == Some(true)),
{
}

/// Each setting that an option gives is that of the option, each other one that
/// the config file gives is that of the file, and the rest are the defaults.
pub proof fn law_settings_come_from_option_file_or_default(
    s: Settings,
    args: Args,
    cfg: FileConfig,
)
    requires
        settings_hold(s, args, cfg),
    ensures
        args.format_movie matches Some(t) ==> s.format_movie@ == t@,
        args.format_movie is None && cfg.format_movie is Some ==> s.format_movie@
            == cfg.format_movie->0@,
        args.format_movie is None && cfg.format_movie is None ==> s.format_movie@
            == DEFAULT_FORMAT_MOVIE@,
        args.format_episode matches Some(t) ==> s.format_episode@ == t@,
        args.format_episode is None && cfg.format_episode is Some ==> s.format_episode@
            == cfg.format_episode->0@,
        args.format_episode is None && cfg.format_episode is None ==> s.format_episode@
            == DEFAULT_FORMAT_EPISODE@,
        args.episode_api matches Some(api) ==> s.episode_api == api,
        args.episode_api is None && cfg.episode_api is Some ==> s.episode_api
            == cfg.episode_api->0,
        args.episode_api is None && cfg.episode_api is None ==> s.episode_api == EpisodeApi::Tmdb,
        args.output_dir matches Some(dir) ==> s.output_dir is Some && s.output_dir->0@ == dir@,
        args.output_dir is None && cfg.output_dir is Some ==> s.output_dir is Some
            && s.output_dir->0@ == cfg.output_dir->0@,
        args.output_dir is None && cfg.output_dir is None ==> s.output_dir is None,
        args.ffprobe matches Some(path) ==> s.ffprobe@ == path@,
        args.ffprobe is None && cfg.ffprobe_path is Some ==> s.ffprobe@ == cfg.ffprobe_path->0@,
        args.ffprobe is None && cfg.ffprobe_path is None ==> s.ffprobe@ == "ffprobe"@,
        args.extensions matches Some(list) ==> text::views(s.extensions@) == text::views(list@),
        args.extensions is None && cfg.extensions is Some ==> text::views(s.extensions@)
            == text::views(cfg.extensions->0@),
        args.extensions is None && cfg.extensions is None ==> text::views(s.extensions@) == seq![
            "mkv"@,
            "mp4"@,
            "avi"@,
            "mov"@,
            "wmv"@,
            "m4v"@,
            "flv"@,
            "webm"@,
            "ts"@,
        ],
{
}

/// Settings are refused just for an empty probe path or a template that is not
/// accepted, in this order.
pub proof fn law_settings_are_refused_for_path_or_template(args: Args, cfg: FileConfig)
    ensures
        probe_path(text::opt_view(args.ffprobe), text::opt_view(cfg.ffprobe_path)).len() == 0
            ==> settings_error(args, cfg) is Some,
        settings_error(args, cfg) is None <==> {
            let movie = movie_template(args, cfg);
            let episode = episode_template(args, cfg);
            &&& probe_path(text::opt_view(args.ffprobe), text::opt_view(cfg.ffprobe_path)).len() > 0
            &&& template_error(
                movie,
                "movie"@,
                seq!["title"@, "year"@, "ext"@],
                pattern::regex_captures_iter(TEMPLATE_FIELD@, movie),
            ) is None
            &&& template_error(
                episode,
                "episode"@,
                seq![
                    "series"@,
                    "year"@,
                    "season"@,
                    "episode"@,
                    "episode_end"@,
                    "episode_range"@,
                    "episode_title"@,
                    "ext"@,
                ],
                pattern::regex_captures_iter(TEMPLATE_FIELD@, episode),
            ) is None
        },
{
}

/// A key that is not empty is taken from the command line, or else from the
/// environment, or else from the config file.
pub proof fn law_keys_that_are_not_empty_count(
    key: Seq<char>,
    environment: Option<Seq<char>>,
    configured: Option<Seq<char>>,
)
    requires
        key.len() > 0,
    ensures
        first_key(Some(key), environment, configured) == Some(key),
        first_key(None, Some(key), configured) == Some(key),
        first_key(Some(Seq::empty()), Some(key), configured) == Some(key),
        first_key(None, None, Some(key)) == Some(key),
        first_key(Some(Seq::empty()), Some(Seq::empty()), Some(key)) == Some(key),
        first_key(None, None, None) is None,
        first_key(None, None, Some(Seq::empty())) is None,
{
}

/// What is wrong with a template is told with its kind, and an unknown field by
/// its name.
pub proof fn law_template_errors_name_kind_and_field(kind: Seq<char>, field: Seq<char>)
    ensures
        (TemplateErrorView::Empty { kind }).words() == kind + " filename template cannot be empty"@,
        text::has_text(TemplateErrorView::Unknown { kind, field }.words(), kind),
        text::has_text(TemplateErrorView::Unknown { kind, field }.words(), field),
        text::has_text(TemplateErrorView::Unmatched { kind }.words(), kind),
{
    let head = "unknown {"@;
    let middle = "} placeholder in "@;
    let tail = " filename template"@;
    text::law_texts_are_found_where_they_stand(head, field, middle + kind + tail);
    assert(head + field + (middle + kind + tail) =~= head + field + middle + kind + tail);
    text::law_texts_are_found_where_they_stand(head + field + middle, kind, tail);
    text::law_texts_are_found_where_they_stand("unmatched or nested braces in "@, kind, tail);
}

} // verus!
