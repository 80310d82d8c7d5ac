use mnamer::model::MediaPath;
use mnamer::scanning::{
    collect_files, deduplicate_input_files, find_subtitle_plans, has_media_extension, is_subtitle,
    normalize_extensions, skip_warning, subtitle_input_message, subtitle_suffix, target_step,
    SkipReason, TargetState, TargetStep,
};

fn path(directory: &str, name: &str) -> MediaPath {
    MediaPath { directory: directory.to_string(), name: name.to_string() }
}

fn texts(list: &[&str]) -> Vec<String> {
    list.iter().map(|text| text.to_string()).collect()
}

#[test]
fn media_extension_filter_excludes_wildcard_sidecars() {
    let configured = vec![" .MKV ".to_string(), "mp4".to_string()];
    let extensions = normalize_extensions(&configured);

    assert!(has_media_extension("episode.MKV", &extensions));
    assert!(!has_media_extension("episode.en.srt", &extensions));
    assert!(!has_media_extension("rename-report.jsonl", &extensions));
}

#[test]
fn subtitle_reporting_distinguishes_matches_from_unmatched_inputs() {
    let directory = tempfile::tempdir().unwrap();
    let here = directory.path().to_str().unwrap();
    let there = directory.path().join("other").to_str().unwrap().to_string();
    let report = |subtitle: &MediaPath, videos: &Vec<MediaPath>| {
        subtitle_input_message(&subtitle.display(), subtitle, videos)
    };
    let videos = vec![path(here, "Outlander.s07e03.socoolyo.mkv")];
    let matched = path(here, "Outlander.s07e03.socoolyo.en.forced.SRT");
    assert!(report(&matched, &videos).contains("matches a video input"));
    for subtitle in [
        path(here, "Outlander.s07e03.subs.srt"),
        path(here, "Outlander.s07e03.socoolyoExtra.srt"),
        path(&there, "Outlander.s07e03.socoolyo.srt"),
    ] {
        let message = report(&subtitle, &videos);
        assert!(message.contains("unmatched subtitle"));
        assert!(message.contains("left unchanged"));
    }
    assert!(report(&matched, &vec![]).contains("unmatched subtitle"));
}

#[test]
fn subtitle_suffixes_begin_behind_the_complete_stem() {
    assert_eq!(subtitle_suffix("show", "show.srt").as_deref(), Some(".srt"));
    assert_eq!(subtitle_suffix("show", "show.en.forced.ASS").as_deref(), Some(".en.forced.ASS"));
    assert_eq!(subtitle_suffix("show", "showy.srt"), None);
    assert_eq!(subtitle_suffix("show", "show.mkv"), None);
    assert!(is_subtitle("a.VTT"));
    assert!(!is_subtitle(".srt"));
    assert!(!is_subtitle("srt"));
}

#[test]
fn subtitles_are_planned_in_order_with_their_suffixes() {
    let plans = find_subtitle_plans(
        &path("in", "show.s01e01.1080p.mkv"),
        &path("out", "Show - S01E01 - Pilot.mkv"),
        &texts(&[
            "show.s01e01.1080p.srt",
            "show.s01e01.1080p.mkv",
            "show.s01e01.1080p.en.forced.ass",
            "different.srt",
        ]),
    );
    let destinations: Vec<String> = plans.iter().map(|plan| plan.destination.display()).collect();
    assert_eq!(
        destinations,
        vec![
            "out/Show - S01E01 - Pilot.en.forced.ass",
            "out/Show - S01E01 - Pilot.srt"
        ]
    );
    assert_eq!(plans[0].source, path("in", "show.s01e01.1080p.en.forced.ass"));
}

#[test]
fn the_first_file_of_each_identity_is_kept() {
    assert_eq!(
        deduplicate_input_files(&texts(&["/d/episode.mkv", "/d/episode.mkv", "/e/episode.mkv", "/d/episode.mkv"])),
        vec![0, 2]
    );
    assert_eq!(deduplicate_input_files(&vec![]), Vec::<usize>::new());
}

#[test]
fn extensions_are_brought_to_one_form() {
    assert_eq!(
        normalize_extensions(&texts(&[" .MKV ", "..Mp4", " . ", "", "t s"])),
        vec!["mkv", "mp4", "t s"]
    );
}

#[test]
fn inputs_are_sorted_apart() {
    let found = vec![
        path("b", "two.mkv"),
        path("a", "Show.s01e01.srt"),
        path("a", "one.MKV"),
        path("a", "notes.txt"),
        path("a", "one.MKV"),
    ];
    let (videos, subtitles) = collect_files(&found, &texts(&["mkv"]), true);
    assert_eq!(videos, vec![2, 4, 0]);
    assert_eq!(subtitles, vec![1]);
    let (videos, subtitles) = collect_files(&found, &texts(&["mkv"]), false);
    assert_eq!(videos, vec![2, 4, 0]);
    assert!(subtitles.is_empty());
}

#[test]
fn targets_are_taken_walked_or_refused() {
    let extensions = texts(&["mkv"]);
    let step = |state, name: &str| target_step(state, name, &extensions, true, true);
    assert_eq!(step(TargetState::File, "a.mkv"), TargetStep::TakeVideo);
    assert_eq!(step(TargetState::File, "a.srt"), TargetStep::TakeSubtitle);
    assert_eq!(step(TargetState::File, "a.txt"), TargetStep::Skip(SkipReason::NotEnabled));
    assert_eq!(step(TargetState::Directory, "a.mkv"), TargetStep::Walk { deep: true });
    assert_eq!(step(TargetState::Unreadable, "a.mkv"), TargetStep::Skip(SkipReason::Unreadable));
    assert_eq!(step(TargetState::Missing, "a.mkv"), TargetStep::Skip(SkipReason::Missing));
    assert_eq!(
        skip_warning("x", SkipReason::NotEnabled),
        "x does not have an enabled media extension, skipping"
    );
    assert_eq!(
        skip_warning("x", SkipReason::Unreadable),
        "x is not a readable file or directory, skipping"
    );
    assert_eq!(skip_warning("x", SkipReason::Missing), "x does not exist, skipping");
}
