use mnamer::cli::EpisodeApi;
use mnamer::metadata::{
    requested_episode_metadata_issue, season_metadata_issue, year_from_date, SeasonEpisode,
};
use mnamer::provider::{
    missing_is_no_result, movie_match, request_url, route, season_episodes, series_match,
    ListedEpisode, Lookup, Request,
};

fn episode(number: u32, name: &str, air_date: &str) -> SeasonEpisode {
    SeasonEpisode {
        episode_number: number,
        name: name.into(),
        air_date: air_date.into(),
    }
}

#[test]
fn incomplete_season_reports_placeholder_title() {
    let episodes = [
        episode(1, "Real Title", "2026-09-09"),
        episode(2, "Episode 2", "2026-09-09"),
    ];
    assert_eq!(
        season_metadata_issue(&episodes, "2026-09-09").as_deref(),
        Some("episode 2 still has a placeholder title")
    );
}

#[test]
fn unrelated_placeholder_does_not_invalidate_requested_episode() {
    let episodes = [
        episode(8, "The Requested Title", "2026-09-09"),
        episode(9, "Episode 9", "2026-09-16"),
    ];
    assert_eq!(
        requested_episode_metadata_issue(&episodes, 8, 8, "2026-09-09"),
        None
    );
    assert_eq!(
        season_metadata_issue(&episodes, "2026-09-09").as_deref(),
        Some("episode 9 still has a placeholder title")
    );
}

#[test]
fn requested_placeholder_or_future_episode_is_rejected() {
    let placeholder = [episode(2, "Episode 2", "2026-09-09")];
    assert_eq!(
        requested_episode_metadata_issue(&placeholder, 2, 2, "2026-09-09").as_deref(),
        Some("episode 2 still has a placeholder title")
    );

    let tba = [episode(2, "TBA", "2026-09-09")];
    assert_eq!(
        requested_episode_metadata_issue(&tba, 2, 2, "2026-09-09").as_deref(),
        Some("episode 2 still has a placeholder title")
    );

    let future = [episode(2, "A Real Title", "2026-09-10")];
    assert_eq!(
        requested_episode_metadata_issue(&future, 2, 2, "2026-09-09").as_deref(),
        Some("episode 2 does not air until 2026-09-10")
    );
}

#[test]
fn season_premiere_must_not_be_in_the_future() {
    let episodes = [episode(1, "Real Title", "2026-09-10")];
    assert_eq!(
        season_metadata_issue(&episodes, "2026-09-09").as_deref(),
        Some("the season does not air until 2026-09-10")
    );
}

#[test]
fn seasons_are_judged_by_their_first_date() {
    let episodes = [
        episode(2, "Second", "2026-09-16"),
        episode(1, "First", "2026-09-09"),
    ];
    assert_eq!(season_metadata_issue(&episodes, "2026-09-09"), None);
    assert_eq!(
        season_metadata_issue(&episodes, "2026-09-08").as_deref(),
        Some("the season does not air until 2026-09-09")
    );
    assert_eq!(season_metadata_issue(&[], "2026-09-08").as_deref(), Some("the season has no episodes"));
    assert_eq!(
        season_metadata_issue(&[episode(3, "Third", "")], "2026-09-08").as_deref(),
        Some("episode 3 has no air date")
    );
}

#[test]
fn missing_episodes_of_a_range_are_named() {
    let episodes = [episode(1, "One", "2026-01-01"), episode(3, "Three", "2026-01-01")];
    assert_eq!(
        requested_episode_metadata_issue(&episodes, 1, 3, "2026-09-09").as_deref(),
        Some("episode 2 is missing")
    );
    assert_eq!(requested_episode_metadata_issue(&episodes, 2, 1, "2026-09-09"), None);
    assert_eq!(
        requested_episode_metadata_issue(&[episode(4, " tbd ", "x")], 4, 4, "2026-09-09").as_deref(),
        Some("episode 4 still has a placeholder title")
    );
}

#[test]
fn parses_search_and_episode_payloads() {
    let search: serde_json::Value = serde_json::from_str(
        r#"[{"score":1.0,"show":{"id":42,"name":"Example","premiered":"2026-01-02"}}]"#,
    )
    .unwrap();
    let show = &search[0]["show"];
    let series = series_match(
        show["id"].as_u64().unwrap(),
        show["name"].as_str().unwrap().to_string(),
        &show["premiered"].as_str().map(str::to_string),
    );
    assert_eq!(series.id, 42);
    assert_eq!(series.first_air_year, Some(2026));
    assert_eq!(year_from_date("2026-01-02"), Some(2026));

    let episode: serde_json::Value = serde_json::from_str(
        r#"{"season":2,"number":3,"name":"A Title","airdate":"2026-09-11"}"#,
    )
    .unwrap();
    let listed = vec![ListedEpisode {
        season: episode["season"].as_u64().unwrap() as u32,
        number: episode["number"].as_u64().map(|number| number as u32),
        name: episode["name"].as_str().unwrap().to_string(),
        air_date: episode["airdate"].as_str().map(str::to_string),
    }];
    assert_eq!(listed[0].number, Some(3));
    assert_eq!(listed[0].name, "A Title");
    let episodes = season_episodes(&listed, 2);
    assert_eq!(episodes[0].episode_number, 3);
    assert_eq!(episodes[0].name, "A Title");
    assert_eq!(episodes[0].air_date, "2026-09-11");
    assert!(season_episodes(&listed, 1).is_empty());
}

#[test]
fn years_are_the_first_four_bytes_of_a_date() {
    assert_eq!(year_from_date("199"), None);
    assert_eq!(year_from_date(""), None);
    assert_eq!(year_from_date("19\u{e9}9"), None);
    assert_eq!(year_from_date("unknown"), None);
    assert_eq!(year_from_date("1999"), Some(1999));
    assert_eq!(movie_match("M".to_string(), "2001-02-03").year, Some(2001));
    assert_eq!(series_match(1, "S".to_string(), &None).first_air_year, None);
}

#[test]
fn unnumbered_episodes_are_left_out() {
    let listed = |season: u32, number: Option<u32>| ListedEpisode {
        season,
        number,
        name: "N".to_string(),
        air_date: None,
    };
    let episodes = season_episodes(&vec![listed(1, None), listed(1, Some(4)), listed(2, Some(5))], 1);
    assert_eq!(episodes.len(), 1);
    assert_eq!(episodes[0].episode_number, 4);
    assert_eq!(episodes[0].air_date, "");
}

#[test]
fn movies_go_to_tmdb_and_series_to_the_selected_provider() {
    assert_eq!(route(Lookup::Movie, EpisodeApi::Tvmaze, true), Ok(EpisodeApi::Tmdb));
    assert_eq!(route(Lookup::Series, EpisodeApi::Tvmaze, false), Ok(EpisodeApi::Tvmaze));
    assert_eq!(route(Lookup::Series, EpisodeApi::Tmdb, true), Ok(EpisodeApi::Tmdb));
    assert!(route(Lookup::Movie, EpisodeApi::Tvmaze, false)
        .unwrap_err()
        .message()
        .starts_with("TMDb lookup requires an API key."));
    assert!(route(Lookup::Series, EpisodeApi::Tmdb, false).is_err());
}

#[test]
fn addresses_name_what_is_asked_for() {
    assert_eq!(
        request_url(Request::TmdbEpisode { series_id: 1396, season: 5, episode: 14 }),
        "https://api.themoviedb.org/3/tv/1396/season/5/episode/14"
    );
    assert_eq!(
        request_url(Request::TmdbSeason { series_id: 1396, season: 5 }),
        "https://api.themoviedb.org/3/tv/1396/season/5"
    );
    assert_eq!(request_url(Request::TmdbShow { series_id: 9 }), "https://api.themoviedb.org/3/tv/9");
    assert_eq!(request_url(Request::TmdbMovies), "https://api.themoviedb.org/3/search/movie");
    assert_eq!(request_url(Request::TmdbSeries), "https://api.themoviedb.org/3/search/tv");
    assert_eq!(request_url(Request::TvmazeSearch), "https://api.tvmaze.com/search/shows");
    assert_eq!(request_url(Request::TvmazeShow { series_id: 3 }), "https://api.tvmaze.com/shows/3");
    assert_eq!(
        request_url(Request::TvmazeEpisodes { series_id: 3 }),
        "https://api.tvmaze.com/shows/3/episodes"
    );
    assert!(missing_is_no_result(Request::TvmazeShow { series_id: 3 }, 404));
    assert!(!missing_is_no_result(Request::TmdbMovies, 404));
    assert!(!missing_is_no_result(Request::TvmazeShow { series_id: 3 }, 500));
}
