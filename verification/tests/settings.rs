use mnamer::cli::{Args, EpisodeApi, MediaType, DEFAULT_FORMAT_EPISODE, DEFAULT_FORMAT_MOVIE};
use mnamer::config::{
    config_step, invalid_message, unreadable_message, ConfigSource, ConfigStep, FileConfig,
};
use mnamer::settings::{
    resolve_api_key, resolve_bool, resolve_episode_api, resolve_ffprobe_path, resolve_settings,
    validate_template, TemplateError,
};

fn args() -> Args {
    Args {
        targets: vec!["movie.mkv".to_string()],
        recursive: false,
        no_recursive: false,
        media: MediaType::Auto,
        dry_run: false,
        batch: false,
        no_batch: false,
        output_dir: None,
        force_copy: false,
        api_key: None,
        format_movie: None,
        format_episode: None,
        lower: false,
        no_lower: false,
        scene: false,
        no_scene: false,
        parse_only: false,
        config: None,
        log: None,
        subtitles: false,
        ffprobe: None,
        extensions: None,
        search_series: None,
        series_id: None,
        episode_api: None,
    }
}

fn text(value: &str) -> Option<String> {
    Some(value.to_string())
}

#[test]
fn ffprobe_path_precedence_and_validation() {
    assert_eq!(resolve_ffprobe_path(&None, &None).unwrap(), "ffprobe");
    let config = text("/config/ffprobe");
    let cli = text("/cli/ffprobe");
    assert_eq!(resolve_ffprobe_path(&None, &config).unwrap(), "/config/ffprobe");
    assert_eq!(resolve_ffprobe_path(&cli, &config).unwrap(), "/cli/ffprobe");
    assert!(resolve_ffprobe_path(&text(""), &None).is_err());
    let mut given = args();
    given.ffprobe = text("/path with spaces/ffprobe");
    assert_eq!(
        resolve_settings(&given, &FileConfig::default()).unwrap().ffprobe,
        "/path with spaces/ffprobe"
    );
    let parsed: toml::Value = toml::from_str("ffprobe_path = '/config/ffprobe'").unwrap();
    let mut config = FileConfig::default();
    config.ffprobe_path = parsed.get("ffprobe_path").and_then(|path| path.as_str()).and_then(text);
    assert_eq!(config.ffprobe_path.as_deref(), Some("/config/ffprobe"));
    assert_eq!(resolve_settings(&args(), &config).unwrap().ffprobe, "/config/ffprobe");
}

#[test]
fn command_line_boolean_overrides_config() {
    assert!(resolve_bool(true, false, Some(false)));
    assert!(!resolve_bool(false, true, Some(true)));
    assert!(resolve_bool(false, false, Some(true)));
    assert!(!resolve_bool(false, false, None));
}

#[test]
fn validates_filename_template_placeholders() {
    assert!(validate_template("{title} ({year}){ext}", "movie", &["title", "year", "ext"]).is_ok());
    assert!(
        validate_template("{titel}{ext}", "movie", &["title", "year", "ext"])
            .unwrap_err()
            .message()
            .contains("unknown {titel}")
    );
    assert!(
        validate_template("{title", "movie", &["title", "year", "ext"])
            .unwrap_err()
            .message()
            .contains("unmatched")
    );
    assert!(validate_template("  ", "movie", &["title", "year", "ext"])
        .unwrap_err()
        .message()
        .contains("cannot be empty"));
}

#[test]
fn template_errors_name_the_template() {
    let movie = "movie".to_string();
    assert_eq!(
        validate_template("{{title}}", "movie", &["title"]),
        Err(TemplateError::Unmatched { kind: movie.clone() })
    );
    assert_eq!(
        validate_template("{year}", "movie", &["title"]),
        Err(TemplateError::Unknown { kind: movie.clone(), field: "year".to_string() })
    );
    assert_eq!(
        validate_template("", "movie", &["title"]),
        Err(TemplateError::Empty { kind: movie })
    );
    assert_eq!(
        validate_template("{year}", "movie", &["title"]).unwrap_err().message(),
        "unknown {year} placeholder in movie filename template"
    );
}

#[test]
fn settings_fall_back_to_the_defaults() {
    let settings = resolve_settings(&args(), &FileConfig::default()).unwrap();
    assert_eq!(settings.format_movie, DEFAULT_FORMAT_MOVIE);
    assert_eq!(settings.format_episode, DEFAULT_FORMAT_EPISODE);
    assert_eq!(
        settings.extensions,
        vec!["mkv", "mp4", "avi", "mov", "wmv", "m4v", "flv", "webm", "ts"]
    );
    assert_eq!(settings.episode_api, EpisodeApi::Tmdb);
    assert_eq!(settings.output_dir, None);
    assert!(!settings.batch && !settings.recursive && !settings.lower && !settings.scene);
}

#[test]
fn options_win_over_the_config_file() {
    let mut config = FileConfig::default();
    config.batch = Some(true);
    config.scene = Some(true);
    config.format_movie = text("{title}{ext}");
    config.output_dir = text("/config");
    config.extensions = Some(vec!["iso".to_string()]);
    config.episode_api = Some(EpisodeApi::Tvmaze);
    let settings = resolve_settings(&args(), &config).unwrap();
    assert!(settings.batch && settings.scene);
    assert_eq!(settings.format_movie, "{title}{ext}");
    assert_eq!(settings.output_dir.as_deref(), Some("/config"));
    assert_eq!(settings.extensions, vec!["iso"]);
    assert_eq!(settings.episode_api, EpisodeApi::Tvmaze);

    let mut given = args();
    given.no_batch = true;
    given.format_movie = text("{year}");
    given.output_dir = text("/cli");
    given.extensions = Some(vec!["mkv".to_string()]);
    given.episode_api = Some(EpisodeApi::Tmdb);
    let settings = resolve_settings(&given, &config).unwrap();
    assert!(!settings.batch && settings.scene);
    assert_eq!(settings.format_movie, "{year}");
    assert_eq!(settings.output_dir.as_deref(), Some("/cli"));
    assert_eq!(settings.extensions, vec!["mkv"]);
    assert_eq!(settings.episode_api, EpisodeApi::Tmdb);
    assert_eq!(resolve_episode_api(None, None), EpisodeApi::Tmdb);
}

#[test]
fn unusable_settings_are_refused_in_order() {
    let mut config = FileConfig::default();
    config.ffprobe_path = text("");
    config.format_movie = text("{bad}");
    config.format_episode = text(" ");
    assert!(resolve_settings(&args(), &config)
        .unwrap_err()
        .message()
        .starts_with("ffprobe path cannot be empty"));
    config.ffprobe_path = None;
    assert_eq!(
        resolve_settings(&args(), &config).unwrap_err().message(),
        "unknown {bad} placeholder in movie filename template"
    );
    config.format_movie = None;
    assert_eq!(
        resolve_settings(&args(), &config).unwrap_err().message(),
        "episode filename template cannot be empty"
    );
}

#[test]
fn keys_are_taken_in_order_and_never_empty() {
    let (a, b, c) = (text("a"), text("b"), text("c"));
    assert_eq!(resolve_api_key(&a, &b, &c), a);
    assert_eq!(resolve_api_key(&text(""), &b, &c), b);
    assert_eq!(resolve_api_key(&None, &text(""), &c), c);
    assert_eq!(resolve_api_key(&None, &None, &text("")), None);
}

#[test]
fn reports_missing_explicit_config() {
    assert_eq!(config_step(true, ConfigSource::NotFound), ConfigStep::Fail);
    let error = unreadable_message("missing.toml");

    assert!(error.contains("failed to read config file"));
    assert!(error.contains("missing.toml"));
}

#[test]
fn only_the_default_config_may_be_missing() {
    assert_eq!(config_step(false, ConfigSource::NotFound), ConfigStep::UseDefaults);
    assert_eq!(config_step(false, ConfigSource::Unreadable), ConfigStep::Fail);
    assert_eq!(config_step(true, ConfigSource::Read), ConfigStep::Parse);
    assert_eq!(config_step(false, ConfigSource::Unnamed), ConfigStep::UseDefaults);
    assert_eq!(invalid_message("config.toml"), "invalid config file config.toml");
}
