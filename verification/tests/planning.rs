use mnamer::cli::MediaType;
use mnamer::model::{MediaPath, SubtitlePlan};
use mnamer::planning::{file_step, read_name, FileEvent, FileStage, Planning};
use mnamer::workflow::{Destination, FileOutcome};

fn path(name: &str) -> MediaPath {
    MediaPath { directory: "films".to_string(), name: name.to_string() }
}

fn movie() -> FileStage {
    FileStage::Movie { title: "Dune".to_string(), year: Some(2021) }
}

fn episode() -> FileStage {
    FileStage::Episode { series: "Lost".to_string(), season: 1, episode: 2, episode_end: None }
}

fn outcome(stage: FileStage) -> (FileOutcome, Option<MediaPath>) {
    match stage {
        FileStage::Ended { outcome, destination } => (outcome, destination),
        _ => panic!("the file is not over"),
    }
}

fn failure() -> FileEvent {
    FileEvent::Failed("down".to_string())
}

#[test]
fn refused_names_are_not_looked_up() {
    let message = match read_name("Show.S01E03-04", MediaType::Auto) {
        FileEvent::Refused(message) => message,
        _ => panic!("the name was read"),
    };
    assert!(message.starts_with("unsupported episode sequence 'S01E03-04'"));
    let mut stage = file_step(FileStage::Guess, FileEvent::Refused(message.clone()));
    stage = file_step(stage, FileEvent::Found("x".to_string()));
    stage = file_step(stage, read_name("Dune.2021", MediaType::Auto));
    assert_eq!(outcome(stage), (FileOutcome::Failed(message), None));
}

#[test]
fn names_lead_to_a_lookup() {
    match file_step(FileStage::Guess, read_name("Dune.2021", MediaType::Auto)) {
        FileStage::Movie { title, year } => assert_eq!((title.as_str(), year), ("Dune", Some(2021))),
        _ => panic!("no movie"),
    }
    match file_step(FileStage::Guess, read_name("Lost.S01E02-E03", MediaType::Auto)) {
        FileStage::Episode { series, season, episode, episode_end } => {
            assert_eq!((series.as_str(), season, episode, episode_end), ("Lost", 1, 2, Some(3)));
        }
        _ => panic!("no episode"),
    }
    assert!(matches!(
        file_step(FileStage::Guess, read_name("Lost.S01E02", MediaType::Movie)),
        FileStage::Movie { .. }
    ));
}

#[test]
fn lookups_end_or_name_a_file() {
    assert_eq!(outcome(file_step(movie(), FileEvent::NotFound)), (FileOutcome::NoMovie, None));
    assert_eq!(outcome(file_step(episode(), FileEvent::NotFound)), (FileOutcome::NoSeries, None));
    for stage in [movie(), episode()] {
        let (ended, destination) = outcome(file_step(stage, failure()));
        assert_eq!((ended, destination), (FileOutcome::Failed("down".to_string()), None));
    }
    for stage in [movie(), episode()] {
        match file_step(stage, FileEvent::Found("Dune (2021).mkv".to_string())) {
            FileStage::Named(name) => assert_eq!(name, "Dune (2021).mkv"),
            _ => panic!("no name"),
        }
    }
}

#[test]
fn destinations_are_settled_before_subtitles() {
    let step = |destination, subtitles| {
        let stage = FileStage::Named("a.mkv".to_string());
        file_step(stage, FileEvent::Settled { destination, subtitles })
    };
    assert_eq!(outcome(step(Destination::NoName, true)), (FileOutcome::NoName, None));
    assert_eq!(
        outcome(step(Destination::Unchanged(path("a.mkv")), true)),
        (FileOutcome::Unchanged, Some(path("a.mkv")))
    );
    match step(Destination::New(path("a.mkv")), false) {
        FileStage::Planned { destination, subtitles } => {
            assert_eq!((destination, subtitles), (path("a.mkv"), None));
        }
        _ => panic!("no plan"),
    }
    assert_eq!(
        outcome(file_step(step(Destination::New(path("a.mkv")), true), failure())),
        (FileOutcome::Failed("down".to_string()), Some(path("a.mkv")))
    );
    let found = vec![SubtitlePlan { source: path("b.srt"), destination: path("a.srt") }];
    let stage = step(Destination::New(path("a.mkv")), true);
    match file_step(stage, FileEvent::SubtitlesFound(found.clone())) {
        FileStage::Planned { destination, subtitles } => {
            assert_eq!((destination, subtitles), (path("a.mkv"), Some(found)));
        }
        _ => panic!("no plan"),
    }
}

#[test]
fn events_out_of_turn_change_nothing() {
    assert!(matches!(file_step(FileStage::Guess, FileEvent::NotFound), FileStage::Guess));
    assert!(matches!(
        file_step(movie(), FileEvent::SubtitlesFound(Vec::new())),
        FileStage::Movie { .. }
    ));
}

#[test]
fn other_files_go_on_after_one_that_failed() {
    let (planning, end) = Planning::new().step(read_name("Show.S01E0304", MediaType::Auto));
    assert!(matches!(outcome(end.unwrap()).0, FileOutcome::Failed(_)));
    assert_eq!(planning.file, 1);
    let (planning, end) = planning.step(read_name("Dune.2021", MediaType::Auto));
    assert!(end.is_none());
    assert!(matches!(planning.stage, FileStage::Movie { .. }));
    let (planning, end) = planning.step(failure());
    assert_eq!(outcome(end.unwrap()).0, FileOutcome::Failed("down".to_string()));
    assert_eq!(planning.file, 2);
    assert!(matches!(planning.stage, FileStage::Guess));
}
