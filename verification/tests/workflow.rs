use mnamer::cli::EpisodeApi;
use mnamer::duplicates::Standing;
use mnamer::metadata::{MovieMatch, SeriesMatch};
use mnamer::model::{MediaPath, RenamePlan, SubtitlePlan};
use mnamer::operations::{
    undo_message, GroupMove, GroupStage, Move, MoveFailure, MoveStage,
};
use mnamer::report::{record_dry_run, record_file, record_group, record_renamed, Status};
use mnamer::settings::Settings;
use mnamer::workflow::{
    ensure_no_failures, episode_name, file_end, group_step, movie_name, settle_destination,
    Destination, FileOutcome, GroupEnd, GroupFacts, GroupStep, Ledger, SkipGroup,
};

fn path(directory: &str, name: &str) -> MediaPath {
    MediaPath { directory: directory.to_string(), name: name.to_string() }
}

fn plan() -> RenamePlan {
    RenamePlan {
        source: path("", "messy.mkv"),
        destination: path("", "Clean.mkv"),
        subtitles: ["srt", "en.ass"]
            .into_iter()
            .map(|suffix| SubtitlePlan {
                source: path("", &format!("messy.{suffix}")),
                destination: path("", &format!("Clean.{suffix}")),
            })
            .collect(),
    }
}

#[test]
fn returns_failure_status_only_when_files_failed() {
    assert!(ensure_no_failures(0).is_ok());
    assert_eq!(
        ensure_no_failures(2).unwrap_err().message(),
        "2 files failed; see the messages above"
    );
}

#[test]
fn one_failed_file_is_one_file() {
    assert_eq!(
        ensure_no_failures(1).unwrap_err().message(),
        "1 file failed; see the messages above"
    );
}

#[test]
fn destinations_lie_in_the_output_directory_or_beside_the_source() {
    let source = path("in", "a.mkv");
    let output = Some("/out".to_string());
    match settle_destination("Show/Season 01/x.mkv", &output, &source) {
        Destination::New(to) => assert_eq!(to, path("/out/Show/Season 01", "x.mkv")),
        _ => panic!(),
    }
    match settle_destination("x.mkv", &None, &source) {
        Destination::New(to) => assert_eq!(to, path("in", "x.mkv")),
        _ => panic!(),
    }
    match settle_destination("a.mkv", &None, &source) {
        Destination::Unchanged(to) => assert_eq!(to, source),
        _ => panic!(),
    }
    assert!(matches!(settle_destination("", &None, &source), Destination::NoName));
    match settle_destination("d/x", &Some("/".to_string()), &source) {
        Destination::New(to) => assert_eq!(to.display(), "/d/x"),
        _ => panic!(),
    }
}

#[test]
fn groups_are_applied_only_with_a_free_way() {
    let free = GroupFacts {
        standing: Standing::Alone,
        destination_exists: false,
        subtitle_exists: false,
        batch: true,
        dry_run: false,
        answer: None,
    };
    assert_eq!(group_step(free), GroupStep::Apply);
    let skip = |facts: GroupFacts, reason: SkipGroup, text: &str| {
        assert_eq!(group_step(facts), GroupStep::Skip(reason));
        assert_eq!(reason.reason(), text);
    };
    skip(
        GroupFacts { standing: Standing::Outranked, ..free },
        SkipGroup::Outranked,
        "a higher-quality duplicate was selected",
    );
    skip(
        GroupFacts { standing: Standing::Undecided, ..free },
        SkipGroup::Undecided,
        "duplicate quality is tied, unknown, or not comparable",
    );
    skip(
        GroupFacts { destination_exists: true, ..free },
        SkipGroup::DestinationExists,
        "destination already exists",
    );
    skip(
        GroupFacts { subtitle_exists: true, dry_run: true, ..free },
        SkipGroup::SubtitleExists,
        "a subtitle destination already exists",
    );
    skip(
        GroupFacts { batch: false, answer: Some(false), ..free },
        SkipGroup::Declined,
        "rename declined by user",
    );
    assert_eq!(group_step(GroupFacts { batch: false, ..free }), GroupStep::Ask);
    assert_eq!(
        group_step(GroupFacts { batch: false, answer: Some(true), ..free }),
        GroupStep::Apply
    );
    assert_eq!(
        group_step(GroupFacts { batch: false, dry_run: true, ..free }),
        GroupStep::Show
    );
}

#[test]
fn ledgers_count_whole_groups() {
    let ledger = Ledger::new()
        .end_file("a.mkv", None, Status::Skipped, "no movie match chosen")
        .end_group(&plan(), &GroupEnd::Renamed)
        .end_group(&plan(), &GroupEnd::Shown)
        .end_group(&plan(), &GroupEnd::Failed("denied".to_string()))
        .end_group(&plan(), &GroupEnd::Skipped(SkipGroup::Declined));
    assert_eq!(ledger.tally().summary(), "3 renamed, 4 skipped, 3 failed.");
    assert_eq!(ledger.records().len(), 13);
    assert_eq!(ledger.records()[8].reason, "subtitle rename group failed: denied");
    assert_eq!(ledger.records()[10].reason, "rename declined by user");
}

#[test]
fn names_follow_the_settings() {
    let settings = Settings {
        recursive: false,
        batch: true,
        lower: true,
        scene: false,
        episode_api: EpisodeApi::Tmdb,
        output_dir: None,
        ffprobe: "ffprobe".to_string(),
        extensions: vec![],
        format_movie: "{title}-{year}{ext}".to_string(),
        format_episode: "{series} {season}x{episode} {episode_title}{ext}".to_string(),
    };
    let found = MovieMatch { title: "Alien".to_string(), year: Some(1979) };
    assert_eq!(movie_name(&settings, &found, "mkv"), "alien-1979.mkv");
    let series = SeriesMatch { id: 1, name: "Lost".to_string(), first_air_year: None };
    assert_eq!(
        episode_name(&settings, &series, 2, 3, Some(4), "One + Two", "mkv"),
        "lost 02x03-e04 one + two.mkv"
    );
}

#[test]
fn every_member_of_a_group_is_recorded() {
    let reason = "destination already exists";
    let records = record_group(&plan(), Status::Skipped, reason);
    assert_eq!(records.len(), 3);
    assert_eq!(records[0].source, "messy.mkv");
    assert_eq!(records[0].reason, reason);
    assert_eq!(records[2].source, "messy.en.ass");
    assert_eq!(records[2].destination.as_deref(), Some("Clean.en.ass"));
    assert_eq!(records[2].status.name(), "skipped");
    assert_eq!(records[2].reason, "subtitle rename group skipped: destination already exists");
    assert_eq!(record_renamed(&plan())[1].reason, "subtitle rename completed");
    assert_eq!(record_renamed(&plan())[0].status.name(), "renamed");
    assert_eq!(record_dry_run(&plan())[0].reason, "rename was not applied");
    assert_eq!(record_dry_run(&plan())[1].status.name(), "dry_run");
    let record = record_file("a.mkv", None, Status::Failed, "why");
    assert_eq!((record.destination, record.status.name()), (None, "failed"));
}

fn fail(what: &str) -> Result<(), String> {
    Err(what.to_string())
}

#[test]
fn a_link_moves_a_file() {
    let mut step = Move::new(true, false);
    for stage in [MoveStage::MakeParent, MoveStage::Check, MoveStage::Link, MoveStage::RemoveLinked] {
        assert_eq!(step.stage, stage);
        step.advance(Ok(()));
    }
    assert_eq!(step.stage, MoveStage::Done);
}

#[test]
fn a_failed_link_falls_back_to_a_copy() {
    let mut step = Move::new(false, false);
    step.advance(Ok(()));
    step.advance(fail("cross-device link"));
    for stage in [
        MoveStage::Recheck,
        MoveStage::Open,
        MoveStage::Metadata,
        MoveStage::Temporary,
        MoveStage::Copy,
        MoveStage::Permissions,
        MoveStage::Sync,
        MoveStage::Publish,
        MoveStage::RemoveCopied,
    ] {
        assert_eq!(step.stage, stage);
        step.advance(Ok(()));
    }
    assert_eq!(step.stage, MoveStage::Done);
}

#[test]
fn existing_destinations_stop_a_move() {
    let mut step = Move::new(false, true);
    step.advance(fail(""));
    assert_eq!(step.stage, MoveStage::Failed(MoveFailure::Exists));
    assert_eq!(
        step.full_message(MoveFailure::Exists, "a", "b"),
        "destination already exists: b"
    );
    let mut step = Move::new(false, false);
    step.advance(Ok(()));
    step.advance(fail("File exists"));
    step.advance(fail(""));
    assert_eq!(step.stage, MoveStage::Failed(MoveFailure::Appeared));
    assert_eq!(
        step.full_message(MoveFailure::Appeared, "a", "b"),
        "destination appeared before the move completed and was left unchanged: b (File exists)"
    );
}

#[test]
fn a_source_that_stays_takes_the_destination_back() {
    let mut step = Move::new(false, true);
    for _ in 0..8 {
        step.advance(Ok(()));
    }
    assert_eq!(step.stage, MoveStage::RemoveCopied);
    let mut stuck = step.clone();
    step.advance(fail("denied"));
    step.advance(Ok(()));
    assert_eq!(step.stage, MoveStage::Failed(MoveFailure::CopyUndone));
    assert_eq!(
        step.full_message(MoveFailure::CopyUndone, "a", "b"),
        "failed to remove original file after copy; published destination was rolled back: denied"
    );
    stuck.advance(fail("denied"));
    stuck.advance(fail("denied too"));
    assert_eq!(stuck.stage, MoveStage::Failed(MoveFailure::CopyStuck));
    assert_eq!(
        stuck.full_message(MoveFailure::CopyStuck, "a", "b"),
        "failed to remove original file after copy; cleanup of published destination also failed: denied too: denied"
    );
    let mut linked = Move::new(false, false);
    linked.advance(Ok(()));
    linked.advance(Ok(()));
    linked.advance(fail("denied"));
    linked.advance(fail("busy"));
    assert_eq!(linked.stage, MoveStage::Failed(MoveFailure::LinkStuck));
    assert_eq!(
        linked.full_message(MoveFailure::LinkStuck, "a", "b"),
        "could not remove original a; cleanup of newly created destination b also failed: busy: denied"
    );
    assert_eq!(
        linked.message(MoveFailure::LinkUndone, "a", "b"),
        "could not remove original a; newly created destination was rolled back"
    );
}

#[test]
fn each_stage_of_a_copy_reports_its_own_failure() {
    let expected = [
        (MoveFailure::Parent, "failed to create destination directory: e"),
        (MoveFailure::Exists, "destination already exists: b"),
        (MoveFailure::Open, "failed to open source file for copying: e"),
        (MoveFailure::Metadata, "failed to read source file metadata: e"),
        (MoveFailure::Temporary, "failed to create temporary destination file: e"),
        (MoveFailure::Copy, "failed while copying file to temporary destination: e"),
        (MoveFailure::Permissions, "failed to preserve source file permissions: e"),
        (MoveFailure::Sync, "failed to finish writing temporary destination file: e"),
        (MoveFailure::Publish, "failed to publish copied file at destination: e"),
    ];
    for (good, (failure, message)) in expected.into_iter().enumerate() {
        let mut step = Move::new(true, true);
        for _ in 0..good {
            step.advance(Ok(()));
        }
        step.advance(fail("e"));
        assert_eq!(step.stage, MoveStage::Failed(failure));
        assert_eq!(step.full_message(failure, "a", "b"), message);
    }
}

#[test]
fn completed_moves_are_undone_in_reverse() {
    let mut group = GroupMove::new(3);
    group.advance(Ok(()));
    group.advance(Ok(()));
    assert_eq!(group.stage, GroupStage::Moving(2));
    group.advance(fail("no such file"));
    assert_eq!(group.stage, GroupStage::Undoing { failed: 2, next: 2 });
    let mut broken = group.clone();
    group.advance(Ok(()));
    assert_eq!(group.stage, GroupStage::Undoing { failed: 2, next: 1 });
    group.advance(Ok(()));
    assert_eq!(group.stage, GroupStage::Failed(2));
    assert_eq!(
        group.message(2, "missing.srt"),
        "subtitle move failed for missing.srt; completed group changes were rolled back: no such file"
    );
    broken.advance(Err(undo_message("b", "a", "busy")));
    broken.advance(Err(undo_message("d", "c", "gone")));
    assert_eq!(broken.stage, GroupStage::Failed(2));
    assert_eq!(
        broken.message(2, "missing.srt"),
        "subtitle move failed for missing.srt; rollback also failed: b -> a: busy; d -> c: gone: no such file"
    );
}

#[test]
fn a_failed_video_fails_its_group_at_once() {
    let mut group = GroupMove::new(2);
    group.advance(fail("denied"));
    assert_eq!(group.stage, GroupStage::Failed(0));
    assert_eq!(group.message(0, "a.mkv"), "denied");
    let mut group = GroupMove::new(1);
    group.advance(Ok(()));
    assert_eq!(group.stage, GroupStage::Done);
}

#[test]
fn files_that_end_early_have_a_status_and_a_reason() {
    let entry = |outcome: FileOutcome| {
        let (status, reason) = file_end(&outcome);
        (status.name(), reason)
    };
    let pair = |status: &'static str, reason: &str| (status, reason.to_string());
    assert_eq!(entry(FileOutcome::Failed("why".to_string())), pair("failed", "why"));
    assert_eq!(entry(FileOutcome::NoMovie), pair("skipped", "no movie match chosen"));
    assert_eq!(entry(FileOutcome::NoSeries), pair("skipped", "no series match chosen"));
    assert_eq!(
        entry(FileOutcome::NoName),
        pair("failed", "filename template produced an empty destination name")
    );
    assert_eq!(entry(FileOutcome::Unchanged), pair("skipped", "already correctly named"));
}
