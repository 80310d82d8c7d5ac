use mnamer::cli::{EpisodeApi, MediaType};
use mnamer::config::SeriesMapping;
use mnamer::metadata::{MovieMatch, SeasonEpisode, SeriesMatch};
use mnamer::parser::Guess;
use mnamer::resolve::{
    begin_episode, check_range, check_search_query, choose_movie, choose_series, episode_title,
    guess_file, guess_line, matches_found, picked_match, season_found, series_found, series_picked,
    series_search_report, series_source, unknown_id_message, Choice, EpisodeQuery, EpisodeStage,
    SeriesSource,
};

fn movie(title: &str, year: Option<u32>) -> MovieMatch {
    MovieMatch { title: title.to_string(), year }
}

fn series(id: u64, name: &str) -> SeriesMatch {
    SeriesMatch { id, name: name.to_string(), first_air_year: None }
}

fn episode(number: u32, name: &str) -> SeasonEpisode {
    SeasonEpisode {
        episode_number: number,
        name: name.to_string(),
        air_date: "2020-01-01".to_string(),
    }
}

#[test]
fn forced_media_changes_the_guess() {
    assert_eq!(
        guess_file("Alien.1979", MediaType::Episode).unwrap(),
        Guess::Episode {
            series: "Alien".to_string(),
            season: 1,
            episode: 1,
            episode_end: None,
            year: Some(1979)
        }
    );
    assert_eq!(
        guess_file("Show.2004.S01E02", MediaType::Movie).unwrap(),
        Guess::Movie { title: "Show".to_string(), year: Some(2004) }
    );
    assert!(guess_file("Show.S01E0304", MediaType::Movie).is_err());
}

#[test]
fn guesses_are_shown_on_one_line() {
    let guess = guess_file("Outlander.S01E03E04", MediaType::Auto).unwrap();
    assert_eq!(
        guess_line("a/b.mkv", &guess),
        "a/b.mkv  episode series=\"Outlander\" S01E03-E04 year=?"
    );
    let guess = guess_file("Alien.1979", MediaType::Auto).unwrap();
    assert_eq!(guess_line("x", &guess), "x  movie   title=\"Alien\" year=1979");
}

#[test]
fn batch_takes_only_certain_movies() {
    let found = vec![movie("Dune", Some(2021)), movie("Dune", Some(1984))];
    assert_eq!(choose_movie("Dune", Some(2021), &found, true), Choice::Take(0));
    assert_eq!(choose_movie("Dune", Some(1984), &found, true), Choice::Uncertain);
    assert_eq!(choose_movie("Dune", None, &vec![], true), Choice::NoMatches);
    assert_eq!(
        choose_movie("Dune", Some(1984), &found, false),
        Choice::Ask {
            labels: vec![
                "Dune (2021)".to_string(),
                "Dune (1984)".to_string(),
                "Skip this file".to_string()
            ],
            default: 0
        }
    );
}

#[test]
fn matching_series_are_offered_first() {
    let found = vec![series(1, "Office Space"), series(2, "The Office")];
    assert_eq!(choose_series("The Office", &found, EpisodeApi::Tmdb, true), Choice::Uncertain);
    assert_eq!(choose_series("Office Space", &found, EpisodeApi::Tmdb, true), Choice::Take(0));
    assert_eq!(
        choose_series("The Office", &found, EpisodeApi::Tmdb, false),
        Choice::Ask {
            labels: vec![
                "Office Space (?) [TMDb ID: 1]".to_string(),
                "The Office (?) [TMDb ID: 2]".to_string(),
                "Skip this file".to_string()
            ],
            default: 1
        }
    );
    assert_eq!(picked_match(Some(1), 2), Some(1));
    assert_eq!(picked_match(Some(2), 2), None);
    assert_eq!(picked_match(None, 2), None);
}

#[test]
fn searches_show_provider_ids() {
    assert!(check_search_query("x").is_ok());
    assert_eq!(check_search_query("  "), Err("--search-series query cannot be empty"));
    assert_eq!(
        series_search_report("lost", &vec![series(4, "Lost")], EpisodeApi::Tvmaze),
        vec!["TVmaze series matches for \"lost\":", "  Lost (?) [TVmaze ID: 4]"]
    );
    assert_eq!(
        series_search_report("lo\"st", &vec![], EpisodeApi::Tmdb),
        vec!["No TMDb series matches found for \"lo\\\"st\"."]
    );
}

#[test]
fn ids_and_mappings_replace_a_search() {
    let mappings = [SeriesMapping {
        title: "Lost".to_string(),
        episode_api: EpisodeApi::Tmdb,
        series_id: 4,
    }];
    let source = |id: Option<u64>, title: &str| series_source(id, &mappings, title, EpisodeApi::Tmdb);
    assert_eq!(source(Some(9), "Lost"), Ok(SeriesSource::ById(9)));
    assert_eq!(source(None, "lost"), Ok(SeriesSource::ById(4)));
    assert_eq!(source(None, "Found"), Ok(SeriesSource::Search));
    let zero = [SeriesMapping {
        title: "Lost".to_string(),
        episode_api: EpisodeApi::Tmdb,
        series_id: 0,
    }];
    assert!(series_source(Some(9), &zero, "Lost", EpisodeApi::Tmdb).is_err());
    assert_eq!(
        unknown_id_message(9),
        "no series exists with ID 9 in the selected episode provider; file left unchanged"
    );
}

#[test]
fn titles_of_a_range_are_joined() {
    let season = [episode(4, "Part Two"), episode(3, "Part One"), episode(5, "TBA")];
    let title = episode_title(&season, 3, 4, false, "2026-01-01").unwrap();
    assert_eq!(title.title, "Part One + Part Two");
    assert_eq!(
        title.warning.as_deref(),
        Some("other episodes in this season have incomplete metadata (episode 5 still has a placeholder title); carefully review the requested title")
    );
    assert_eq!(episode_title(&season, 3, 4, true, "2026-01-01"), Ok(title));
    assert!(episode_title(&season, 3, 4, true, "2019-01-01")
        .unwrap_err()
        .starts_with("episode metadata is not ready (episode 3 does not air until 2020-01-01);"));
    assert!(episode_title(&season, 6, 6, false, "2026-01-01")
        .unwrap_err()
        .starts_with("episode metadata is not ready (episode 6 is missing);"));
    let complete = episode_title(&season[..2], 3, 3, true, "2026-01-01").unwrap();
    assert_eq!(complete.title, "Part One");
    assert_eq!(complete.warning, None);
}

#[test]
fn warnings_speak_of_other_episodes() {
    let season = [episode(3, "Part One"), episode(4, "TBA")];
    let requested = episode_title(&season, 4, 4, false, "2026-01-01").unwrap();
    assert_eq!(requested.title, "TBA");
    assert_eq!(requested.warning, None);
    let both = episode_title(&season, 3, 4, true, "2026-01-01").unwrap();
    assert_eq!((both.title.as_str(), both.warning), ("Part One + TBA", None));
    let other = episode_title(&season, 3, 3, false, "2026-01-01").unwrap();
    assert!(other.warning.unwrap().contains("(episode 4 still has a placeholder title)"));
    let none = episode_title(&[], 4, 3, false, "2026-01-01").unwrap();
    assert!(none.warning.unwrap().contains("(the season has no episodes)"));
}

#[test]
fn long_ranges_are_refused() {
    assert_eq!(check_range(3, None), Ok(3));
    assert_eq!(check_range(1, Some(10)), Ok(10));
    assert_eq!(check_range(5, Some(2)), Ok(2));
    assert_eq!(
        check_range(1, Some(11)).unwrap_err(),
        "multi-episode range E01-E11 exceeds the 10-episode safety limit"
    );
}

fn query(batch: bool, series_id: Option<u64>, episode_end: Option<u32>) -> EpisodeQuery {
    EpisodeQuery {
        series: "Lost".to_string(),
        season: 1,
        episode: 1,
        episode_end,
        batch,
        series_id,
        episode_api: EpisodeApi::Tmdb,
    }
}

#[test]
fn episodes_are_looked_up_in_stages() {
    let q = query(true, None, Some(2));
    assert!(matches!(begin_episode(&q, &[]), EpisodeStage::Search));
    let found = matches_found(&q, vec![series(4, "LOST"), series(5, "Found")]);
    match found {
        EpisodeStage::Season { series, last } => {
            assert_eq!((series.id, last), (4, 2));
            let season = [episode(1, "Pilot (1)"), episode(2, "Pilot (2)")];
            match season_found(&q, series, last, &season, "2026-01-01") {
                EpisodeStage::Found { series, title } => {
                    assert_eq!(series.name, "LOST");
                    assert_eq!(title.title, "Pilot (1) + Pilot (2)");
                    assert_eq!(title.warning, None);
                }
                other => panic!("{:?}", other),
            }
        }
        other => panic!("{:?}", other),
    }
    assert!(matches!(matches_found(&q, vec![]), EpisodeStage::NoMatches));
    match matches_found(&q, vec![series(5, "Found")]) {
        EpisodeStage::Uncertain(series) => assert_eq!(series.id, 5),
        other => panic!("{:?}", other),
    }
    match season_found(&q, series(4, "Lost"), 2, &[], "2026-01-01") {
        EpisodeStage::Failed(message) => assert!(message.contains("episode 1 is missing")),
        other => panic!("{:?}", other),
    }
}

#[test]
fn picked_series_and_ids_lead_to_a_season() {
    let q = query(false, Some(9), None);
    assert!(matches!(begin_episode(&q, &[]), EpisodeStage::ById(9)));
    match series_found(&q, 9, Some(series(9, "Other"))) {
        EpisodeStage::Season { series, last } => assert_eq!((series.id, last), (9, 1)),
        other => panic!("{:?}", other),
    }
    match series_found(&q, 9, None) {
        EpisodeStage::Failed(message) => assert_eq!(message, unknown_id_message(9)),
        other => panic!("{:?}", other),
    }
    match matches_found(&q, vec![series(5, "Found"), series(4, "Lost")]) {
        EpisodeStage::Pick { matches, labels, default } => {
            assert_eq!((labels.len(), default), (3, 1));
            assert!(matches!(
                series_picked(&q, &matches, Some(1)),
                EpisodeStage::Season { .. }
            ));
            assert!(matches!(series_picked(&q, &matches, Some(2)), EpisodeStage::Declined));
            assert!(matches!(series_picked(&q, &matches, None), EpisodeStage::Declined));
        }
        other => panic!("{:?}", other),
    }
    let long = query(false, None, Some(11));
    match series_found(&long, 9, Some(series(9, "Other"))) {
        EpisodeStage::Failed(message) => assert!(message.contains("10-episode safety limit")),
        other => panic!("{:?}", other),
    }
    let zero = [SeriesMapping {
        title: "lost".to_string(),
        episode_api: EpisodeApi::Tmdb,
        series_id: 0,
    }];
    match begin_episode(&long, &zero) {
        EpisodeStage::Failed(message) => assert_eq!(
            message,
            "series mapping for \"Lost\" has invalid series_id 0; file left unchanged"
        ),
        other => panic!("{:?}", other),
    }
}

#[test]
fn temporary_titles_are_used() {
    for name in ["Episode 5", "TBA", "tbd"] {
        let season = [episode(5, name)];
        for batch in [true, false] {
            let found = episode_title(&season, 5, 5, batch, "2026-01-01").unwrap();
            assert_eq!(found.title, name);
        }
    }
    let q = EpisodeQuery { series: "Show".to_string(), episode: 4, ..query(true, Some(7), None) };
    let aired = SeasonEpisode {
        episode_number: 4,
        name: "Episode 4".to_string(),
        air_date: "2000-01-01".to_string(),
    };
    match season_found(&q, series(7, "Show"), 4, &[aired], "2026-01-01") {
        EpisodeStage::Found { series, title } => {
            assert_eq!((series.id, title.title.as_str()), (7, "Episode 4"));
        }
        other => panic!("{:?}", other),
    }
}

#[test]
fn untitled_and_undated_episodes_are_refused() {
    let refusal = |season: &[SeasonEpisode], number: u32, batch: bool| {
        episode_title(season, number, number, batch, "2026-01-01").unwrap_err()
    };
    assert!(refusal(&[episode(5, "  ")], 5, false)
        .starts_with("episode metadata is not ready (episode 5 still has a placeholder title);"));
    let undated = SeasonEpisode { air_date: String::new(), ..episode(6, "Six") };
    assert!(refusal(&[undated.clone()], 6, false)
        .starts_with("episode metadata is not ready (episode 6 has no air date);"));
    let season = [episode(5, "Five"), undated];
    assert!(refusal(&season, 5, true)
        .starts_with("season metadata is not ready (episode 6 has no air date);"));
    assert_eq!(episode_title(&season, 5, 5, false, "2026-01-01").unwrap().title, "Five");
}
