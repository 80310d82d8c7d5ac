use mnamer::rename::{render_episode, render_movie, sanitize, EpisodeVars, MovieVars};

#[test]
fn renders_movie() {
    let vars = MovieVars {
        title: "The Matrix",
        year: Some(1999),
        ext: "mkv",
    };
    assert_eq!(
        render_movie("{title} ({year}){ext}", &vars, false, false),
        "The Matrix (1999).mkv"
    );
}

#[test]
fn renders_episode_scene_style() {
    let vars = EpisodeVars {
        series: "Breaking Bad",
        year: None,
        season: 5,
        episode: 14,
        episode_end: None,
        episode_title: "Ozymandias",
        ext: "mkv",
    };
    assert_eq!(
        render_episode(
            "{series} - S{season}E{episode} - {episode_title}{ext}",
            &vars,
            false,
            true
        ),
        "Breaking.Bad.-.S05E14.-.Ozymandias.mkv"
    );
}

#[test]
fn strips_illegal_characters() {
    assert_eq!(sanitize("Weird: Title? *Name*"), "Weird Title Name");
}

#[test]
fn renders_multi_episode_range() {
    let vars = EpisodeVars {
        series: "Show Name",
        year: Some(2024),
        season: 1,
        episode: 3,
        episode_end: Some(4),
        episode_title: "Part One + Part Two",
        ext: "mkv",
    };

    assert_eq!(
        render_episode(
            "{series} - S{season}E{episode_range} - {episode_title}{ext}",
            &vars,
            false,
            false,
        ),
        "Show Name - S01E03-E04 - Part One + Part Two.mkv"
    );
    assert_eq!(
        render_episode(
            "{series} - s{season}e{episode} - {episode_title}{ext}",
            &vars,
            false,
            false,
        ),
        "Show Name - s01e03-E04 - Part One + Part Two.mkv"
    );
    assert_eq!(
        render_episode(
            "{series} - S{season}E{episode}-E{episode_end}{ext}",
            &vars,
            false,
            false,
        ),
        "Show Name - S01E03-E04.mkv"
    );
}

fn matrix<'a>(year: Option<u32>, ext: &'a str) -> MovieVars<'a> {
    MovieVars { title: "The Matrix", year, ext }
}

#[test]
fn missing_year_and_extension_are_rendered() {
    assert_eq!(
        render_movie("{title} ({year}){ext}", &matrix(None, ""), false, false),
        "The Matrix (Unknown)"
    );
}

#[test]
fn names_are_lower_cased_on_demand() {
    assert_eq!(
        render_movie("{title} ({year}){ext}", &matrix(Some(1999), "MKV"), true, true),
        "the.matrix.(1999).mkv"
    );
}

#[test]
fn nested_templates_keep_their_directories() {
    let vars = EpisodeVars {
        series: "AC/DC: Live",
        year: None,
        season: 1,
        episode: 2,
        episode_end: Some(3),
        episode_title: "One",
        ext: "mkv",
    };
    assert_eq!(
        render_episode(
            "{series}/Season {season}/{series} S{season}E{episode_range} {episode_title}{ext}",
            &vars,
            false,
            false
        ),
        "AC DC Live/Season 01/AC DC Live S01E02-E03 One.mkv"
    );
}

#[test]
fn clean_names_are_left_alone() {
    let once = sanitize("..What? Ever..");
    assert_eq!(once, "What Ever");
    assert_eq!(sanitize(&once), once);
    assert_eq!(sanitize("A Clean Name"), "A Clean Name");
}

#[test]
fn scene_names_hold_no_blank() {
    let vars = MovieVars { title: "Spider-Man: Homecoming", year: Some(2017), ext: "mkv" };
    let name = render_movie("{title} ({year}){ext}", &vars, false, true);
    assert!(!name.contains(' '));
    assert_eq!(name, "Spider-Man..Homecoming.(2017).mkv");
    let vars = MovieVars { title: " What? / If\t", year: None, ext: "m k" };
    assert_eq!(
        render_movie("{title}/{year} {ext}", &vars, false, true),
        "What....If/Unknown..m.k"
    );
}

#[test]
fn runs_of_blanks_become_runs_of_dots() {
    for (title, name) in [("A  B", "A..B.mkv"), ("A - B", "A.-.B.mkv"), ("A\tB", "A.B.mkv")] {
        let vars = MovieVars { title, year: None, ext: "mkv" };
        assert_eq!(render_movie("{title}{ext}", &vars, false, true), name);
    }
    let vars = MovieVars { title: "A  B", year: None, ext: "mkv" };
    assert_eq!(render_movie("{title}{ext}", &vars, false, false), "A B.mkv");
}

#[test]
fn lower_case_changes_letters_only() {
    for scene in [false, true] {
        for title in ["Spider-Man: Homecoming", ". A. B .", "{year}"] {
            let vars = MovieVars { title, year: None, ext: "MKV" };
            let template = "Films/{title} ({year}){ext}";
            assert_eq!(
                render_movie(template, &vars, true, scene),
                render_movie(template, &vars, false, scene).to_ascii_lowercase()
            );
        }
    }
}

#[test]
fn older_templates_render_the_range() {
    for episode_end in [None, Some(4)] {
        let vars = EpisodeVars {
            series: "Show",
            year: None,
            season: 1,
            episode: 3,
            episode_end,
            episode_title: "Title}",
            ext: "mkv",
        };
        let older = "{series}/S{season}/E{episode} {episode_title}{episode}{ext}";
        let newer = older.replace("{episode}", "{episode_range}");
        assert_eq!(
            render_episode(older, &vars, false, true),
            render_episode(&newer, &vars, false, true)
        );
    }
}
