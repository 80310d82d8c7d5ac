use mnamer::cli::EpisodeApi;
use mnamer::config::SeriesMapping;
use mnamer::metadata::{MovieMatch, SeriesMatch};
use mnamer::titles::{
    default_series_match_index, mapping_title_key, movie_match_is_confident, series_mapping_id,
    series_match_label, title_match_is_confident, title_tokens, MappingError,
};

fn series(name: &str) -> SeriesMatch {
    SeriesMatch { id: 7, name: name.to_string(), first_air_year: Some(1999) }
}

fn mapping(title: &str, episode_api: EpisodeApi, series_id: u64) -> SeriesMapping {
    SeriesMapping { title: title.to_string(), episode_api, series_id }
}

#[test]
fn batch_confidence_rejects_weak_titles_and_year_mismatches() {
    assert!(title_match_is_confident(
        "Spider-Man: Homecoming",
        "Spider Man Homecoming"
    ));
    assert!(!title_match_is_confident("The Office", "Office Space"));

    let result = MovieMatch {
        title: "Dune".to_string(),
        year: Some(2021),
    };
    assert!(movie_match_is_confident("Dune", Some(2021), &result));
    assert!(!movie_match_is_confident("Dune", Some(1984), &result));
}

#[test]
fn four_fifths_of_the_words_are_enough() {
    assert!(title_match_is_confident("a b c d e", "a b c d"));
    assert!(!title_match_is_confident("a b c d", "a b c"));
    assert!(title_match_is_confident("a b c d", "a b c d e"));
    assert!(title_match_is_confident("Dune, DUNE", "dune"));
    assert!(!title_match_is_confident("...", "..."));
    assert_eq!(title_tokens("The the Office!"), vec!["the", "office"]);
    assert!(title_match_is_confident("\u{c9}TOILE", "\u{e9}toile"));
}

#[test]
fn unknown_years_do_not_stand_in_the_way() {
    let result = MovieMatch { title: "Dune".to_string(), year: None };
    assert!(movie_match_is_confident("Dune", Some(1984), &result));
    assert!(movie_match_is_confident("dune", None, &result));
}

#[test]
fn the_first_matching_series_is_offered() {
    let matches = [series("Office Space"), series("The Office"), series("the office")];
    assert_eq!(default_series_match_index("The Office", &matches), 1);
    assert_eq!(default_series_match_index("Lost", &matches), 3);
}

#[test]
fn labels_show_year_provider_and_id() {
    assert_eq!(
        series_match_label(&series("Lost"), EpisodeApi::Tvmaze),
        "Lost (1999) [TVmaze ID: 7]"
    );
    let unknown = SeriesMatch { id: 1, name: "X".to_string(), first_air_year: None };
    assert_eq!(series_match_label(&unknown, EpisodeApi::Tmdb), "X (?) [TMDb ID: 1]");
}

#[test]
fn mappings_are_found_by_words_and_provider() {
    let mappings = [
        mapping("the.office", EpisodeApi::Tmdb, 5),
        mapping("The Office", EpisodeApi::Tvmaze, 6),
        mapping("THE-OFFICE", EpisodeApi::Tmdb, 5),
    ];
    assert_eq!(series_mapping_id(&mappings, "The Office", EpisodeApi::Tmdb), Ok(Some(5)));
    assert_eq!(series_mapping_id(&mappings, "The Office", EpisodeApi::Tvmaze), Ok(Some(6)));
    assert_eq!(series_mapping_id(&mappings, "Lost", EpisodeApi::Tmdb), Ok(None));
    assert_eq!(mapping_title_key(" The..OFFICE!"), "the office");
}

#[test]
fn contradicting_and_empty_mappings_are_refused() {
    let conflict = [
        mapping("Lost", EpisodeApi::Tmdb, 5),
        mapping("lost", EpisodeApi::Tmdb, 6),
    ];
    let error = series_mapping_id(&conflict, "Lost", EpisodeApi::Tmdb).unwrap_err();
    assert_eq!(
        error,
        MappingError::Conflict { title: "Lost".to_string(), episode_api: EpisodeApi::Tmdb }
    );
    assert_eq!(
        error.message(),
        "series mapping for \"Lost\" has conflicting TMDb IDs; file left unchanged"
    );
    let zero = [
        mapping("Lost", EpisodeApi::Tmdb, 5),
        mapping("lost", EpisodeApi::Tmdb, 0),
    ];
    let error = series_mapping_id(&zero, "Lo\"st", EpisodeApi::Tmdb);
    assert_eq!(error, Ok(None));
    let error = series_mapping_id(&zero, "Lost", EpisodeApi::Tmdb).unwrap_err();
    assert_eq!(
        error.message(),
        "series mapping for \"Lost\" has invalid series_id 0; file left unchanged"
    );
}
