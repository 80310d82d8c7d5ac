use mnamer::parser::{clean_title, parse_filename, Guess, ParseError};

#[test]
fn parses_movie_with_year() {
    let g = parse_filename("The.Matrix.1999.1080p.BluRay.x264-GROUP").unwrap();
    assert_eq!(
        g,
        Guess::Movie {
            title: "The Matrix".to_string(),
            year: Some(1999)
        }
    );
}

#[test]
fn parses_standard_episode() {
    let g = parse_filename("Breaking.Bad.S05E14.Ozymandias.720p.WEB-DL").unwrap();
    assert_eq!(
        g,
        Guess::Episode {
            series: "Breaking Bad".to_string(),
            season: 5,
            episode: 14,
            episode_end: None,
            year: None
        }
    );
}

#[test]
fn parses_x_style_episode() {
    let g = parse_filename("The Office 3x05 Business School").unwrap();
    assert_eq!(
        g,
        Guess::Episode {
            series: "The Office".to_string(),
            season: 3,
            episode: 5,
            episode_end: None,
            year: None
        }
    );
}

#[test]
fn parses_worded_episode() {
    let g = parse_filename("Fargo Season 2 Episode 1").unwrap();
    assert_eq!(
        g,
        Guess::Episode {
            series: "Fargo".to_string(),
            season: 2,
            episode: 1,
            episode_end: None,
            year: None
        }
    );
}

#[test]
fn movie_without_junk() {
    let g = parse_filename("Parasite (2019)").unwrap();
    assert_eq!(
        g,
        Guess::Movie {
            title: "Parasite".to_string(),
            year: Some(2019)
        }
    );
}

#[test]
fn parses_multi_episode_range() {
    let guess = parse_filename("Show.Name.S01E03-E04.1080p").unwrap();
    assert_eq!(
        guess,
        Guess::Episode {
            series: "Show Name".to_string(),
            season: 1,
            episode: 3,
            episode_end: Some(4),
            year: None,
        }
    );
}

#[test]
fn rejects_ambiguous_packed_episode_numbers() {
    for name in [
        "Outlander.s01e0304",
        "Show.S01E03E0405",
        "Show.s01.e0304",
        "Show.S01E12345",
    ] {
        let error = parse_filename(name).unwrap_err().message();
        assert!(error.contains("ambiguous episode numbering"));
        assert!(error.contains("S01E03-E04"));
    }
}

#[test]
fn preserves_valid_three_digit_episodes_and_explicit_ranges() {
    for name in ["Show.S01E123", "Show.S01E03E04", "Show.S01E03-E04"] {
        assert!(matches!(
            parse_filename(name).unwrap(),
            Guess::Episode { .. }
        ));
    }
}

fn movie(title: &str, year: Option<u32>) -> Guess {
    Guess::Movie { title: title.to_string(), year }
}

fn episode(series: &str, season: u32, number: u32, end: Option<u32>, year: Option<u32>) -> Guess {
    Guess::Episode { series: series.to_string(), season, episode: number, episode_end: end, year }
}

#[test]
fn example_names_are_read() {
    assert_eq!(
        parse_filename("the.office.3x05.business.school").unwrap(),
        episode("The Office", 3, 5, None, None)
    );
    assert_eq!(
        parse_filename("Breaking.Bad.S05E14.Ozymandias.720p.WEB-DL").unwrap(),
        episode("Breaking Bad", 5, 14, None, None)
    );
}

#[test]
fn years_before_a_marker_belong_to_the_series() {
    assert_eq!(
        parse_filename("Battlestar_Galactica_2004_s01e02").unwrap(),
        episode("Battlestar Galactica", 1, 2, None, Some(2004))
    );
}

#[test]
fn mixed_case_words_are_kept() {
    assert_eq!(parse_filename("ronald.McDonald.story.2001").unwrap(), movie("Ronald McDonald Story", Some(2001)));
    assert_eq!(parse_filename("ALIEN.1979").unwrap(), movie("Alien", Some(1979)));
}

#[test]
fn a_name_of_tags_alone_keeps_the_tags_as_title() {
    assert_eq!(parse_filename("1080p").unwrap(), movie("1080p", None));
    assert_eq!(parse_filename("").unwrap(), movie("", None));
}

#[test]
fn accented_titles_are_capitalised() {
    assert_eq!(parse_filename("\u{e9}toile.2020").unwrap(), movie("\u{c9}toile", Some(2020)));
}

#[test]
fn reversed_and_equal_ranges_are_refused() {
    for name in ["Show.S01E04-E03", "Show.S01E04E04"] {
        match parse_filename(name) {
            Err(ParseError::NotIncreasing { .. }) => {}
            other => panic!("{:?}", other),
        }
    }
    assert_eq!(
        parse_filename("Show.S01E04-E03").unwrap_err().message(),
        "invalid episode range 'S01E04-E03': the last episode must come after the first; file left unchanged"
    );
}

#[test]
fn ranges_cover_ten_episodes_at_most() {
    assert_eq!(parse_filename("Show.S01E01-E10").unwrap(), episode("Show", 1, 1, Some(10), None));
    let error = parse_filename("Show.S01E01-E11").unwrap_err();
    assert_eq!(error, ParseError::TooLong { first: 1, last: 11 });
    assert_eq!(
        error.message(),
        "multi-episode range E01-E11 exceeds the 10-episode safety limit"
    );
}

#[test]
fn other_episode_sequences_are_refused() {
    for name in [
        "Show.S01E03-04",
        "Show.S01E01E02E03",
        "Show.S01E01S02E01",
        "Show.S01-S02E01",
        "Show.S01E03-S02",
        "Show 1x03-04",
        "Show 1x03x04",
        "Show 1x03-E04",
        "Show Season 1 Episode 3-4",
        "Show Season 1 Episode 3 Episode 4",
        "Show Season 1 Episode 3 E04",
    ] {
        match parse_filename(name) {
            Err(ParseError::Unsupported { .. }) => {}
            other => panic!("{}: {:?}", name, other),
        }
    }
    assert_eq!(
        parse_filename("Show.S01E03-04").unwrap_err().message(),
        "unsupported episode sequence 'S01E03-04': use one range such as S01E03-E04; file left unchanged"
    );
}

#[test]
fn names_with_several_markers_are_refused() {
    for (name, first, second) in [
        ("Show.S01E03.2x04", "S01E03", "2x04"),
        ("Show.2x04.S01E03", "S01E03", "2x04"),
        ("Show.S01E01-S02E01", "S01E01", "S02E01"),
        ("Show.S01E03.S02E04", "S01E03", "S02E04"),
        ("Show 1x03 1x04", "1x03", "1x04"),
        ("Show 1x03 Season 1 Episode 4", "Season 1 Episode 4", "1x03"),
        ("Show.S01E03-E04.Season.1.Episode.5", "S01E03-E04", "Season 1 Episode 5"),
        ("Show Season 1 Episode 3 Season 1 Episode 4", "Season 1 Episode 3", "Season 1 Episode 4"),
    ] {
        assert_eq!(
            parse_filename(name),
            Err(ParseError::Several { first: first.to_string(), second: second.to_string() })
        );
    }
    assert_eq!(
        parse_filename("Show.S01E03.2x04").unwrap_err().message(),
        "multiple episode markers 'S01E03' and '2x04': use one range such as S01E03-E04; file left unchanged"
    );
    assert_eq!(
        parse_filename("Show.S01E04.Episode.4.1920x1080").unwrap(),
        episode("Show", 1, 4, None, None)
    );
}

#[test]
fn ambiguous_numbers_are_named_in_the_message() {
    assert_eq!(
        parse_filename("Outlander.s01e0304").unwrap_err().message(),
        "ambiguous episode numbering 's01e0304': use an explicit range such as S01E03-E04 if you mean episodes 3 through 4; file left unchanged"
    );
}

#[test]
fn single_episodes_in_words_and_crosses_are_read() {
    assert_eq!(parse_filename("Show 1x03").unwrap(), episode("Show", 1, 3, None, None));
    assert_eq!(parse_filename("Show.S01E123").unwrap(), episode("Show", 1, 123, None, None));
}

#[test]
fn cleaned_titles_change_in_case_only_and_once() {
    for (raw, cleaned) in [
        (" -the MATRIX (reloaded)- ", "The Matrix (reloaded"),
        ("iPhone  USER", "iPhone  User"),
        ("[]", ""),
    ] {
        assert_eq!(clean_title(raw), cleaned);
        assert_eq!(clean_title(cleaned), cleaned);
        assert!(cleaned.eq_ignore_ascii_case(raw.trim_matches(|c: char| "-.()[]{} ".contains(c))));
    }
    assert_eq!(clean_title("-\tfoo"), "\tfoo");
    assert_eq!(clean_title("\tfoo"), "Foo");
}
