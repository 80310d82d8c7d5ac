use mnamer::duplicates::{
    count_destinations, destination_keys, duplicate_destination_key, needs_probe, preference_for,
    select_preferred_sources, standing_of, Standing,
};
use mnamer::model::{extension_of, MediaPath, RenamePlan};
use mnamer::quality::VideoQuality;

fn path(text: &str) -> MediaPath {
    match text.rfind('/') {
        Some(i) => MediaPath {
            directory: text[..i].to_string(),
            name: text[i + 1..].to_string(),
        },
        None => MediaPath { directory: String::new(), name: text.to_string() },
    }
}

fn plan(source: &str, destination: &str) -> RenamePlan {
    RenamePlan { source: path(source), destination: path(destination), subtitles: Vec::new() }
}

fn preferred(plans: &[RenamePlan], key: &MediaPath) -> Option<MediaPath> {
    let probed: Vec<Option<VideoQuality>> = plans.iter().map(|_| None).collect();
    let preferences = select_preferred_sources(plans, &probed);
    preference_for(&preferences, key).unwrap().source.clone()
}

#[test]
fn counts_duplicate_planned_destinations() {
    let plans = vec![
        plan("messy-one.mkv", "Movie (2024).mkv"),
        plan("messy-two.mkv", "Movie (2024).mkv"),
    ];

    let counts = count_destinations(&plans);

    assert_eq!(counts.get(&path("Movie (2024)")), 2);
}

#[test]
fn selects_unique_highest_resolution_duplicate() {
    let destination = "Show - S01E01 - Pilot.mkv";
    let plans = vec![
        plan("show.s01e01.720p.mkv", destination),
        plan("show.s01e01.2160p.mkv", destination),
    ];

    assert_eq!(
        preferred(&plans, &duplicate_destination_key(&path(destination))),
        Some(path("show.s01e01.2160p.mkv"))
    );
}

#[test]
fn cross_extension_duplicates_prefer_resolution_not_container() {
    for title in ["The Runner (2026)", "Reacher - S04E06 - Plum Out of Luck"] {
        for (higher, lower) in [("mkv", "mp4"), ("mp4", "mkv")] {
            let plans = vec![
                plan(&format!("missing-source.720p.{lower}"), &format!("{title}.{lower}")),
                plan(&format!("missing-source.1080p.{higher}"), &format!("{title}.{higher}")),
            ];
            let key = duplicate_destination_key(&plans[0].destination);
            assert_eq!(count_destinations(&plans).get(&key), 2);
            assert_eq!(preferred(&plans, &key), Some(plans[1].source.clone()));
            assert_eq!(extension_of(&plans[1].destination.name).unwrap(), higher);
        }
    }
}

#[test]
fn duplicate_keys_preserve_directories_titles_and_episode_numbers() {
    let key = duplicate_destination_key(&path("one/Show.Name - S01E01.mkv"));
    assert_eq!(key, path("one/Show.Name - S01E01"));
    for other in [
        "two/Show.Name - S01E01.mp4",
        "one/Show.Name - S01E02.mp4",
        "one/Other.Name - S01E01.mp4",
    ] {
        assert_ne!(key, duplicate_destination_key(&path(other)));
    }
}

#[test]
fn cross_extension_resolution_ties_remain_ambiguous() {
    let plans: Vec<RenamePlan> = ["mkv", "mp4"]
        .into_iter()
        .map(|extension| {
            plan(
                &format!("missing-source.1080p.{extension}"),
                &format!("Movie (2026).{extension}"),
            )
        })
        .collect();
    let key = duplicate_destination_key(&plans[0].destination);
    assert_eq!(count_destinations(&plans).get(&key), 2);
    assert_eq!(preferred(&plans, &key), None);
}

#[test]
fn does_not_choose_when_highest_resolution_is_tied() {
    let destination = "Show - S01E01 - Pilot.mkv";
    let plans = vec![
        plan("show.s01e01.1080p.web.mkv", destination),
        plan("show.s01e01.1080p.bluray.mkv", destination),
    ];

    assert_eq!(preferred(&plans, &duplicate_destination_key(&path(destination))), None);
}

#[test]
fn probed_heights_win_over_tags_and_decide_the_standing() {
    let plans = vec![
        plan("d/a.2160p.mkv", "d/Movie.mkv"),
        plan("d/b.mp4", "d/Movie.mp4"),
        plan("d/c.mkv", "d/Other.mkv"),
        plan("d/e.mkv", "d/Third.mkv"),
        plan("d/f.mkv", "d/Third.mkv"),
    ];
    let probe = |height: u32| Some(VideoQuality { height, bitrate: None, codec: None });
    let probed = vec![probe(720), probe(1080), None, None, None];
    let preferences = select_preferred_sources(&plans, &probed);
    let counts = count_destinations(&plans);
    let standings: Vec<Standing> =
        plans.iter().map(|plan| standing_of(plan, &counts, &preferences)).collect();
    assert_eq!(
        standings,
        vec![
            Standing::Outranked,
            Standing::Preferred,
            Standing::Alone,
            Standing::Undecided,
            Standing::Undecided,
        ]
    );
    assert_eq!(
        preferences[0].notes,
        vec![
            "  quality: d/a.2160p.mkv: 720 pixels high; codec unknown; bitrate unknown; source: ffprobe",
            "  quality: d/b.mp4: 1080 pixels high; codec unknown; bitrate unknown; source: ffprobe",
            "  comparison: preferred d/b.mp4 (highest known resolution; same-codec bitrate breaks resolution ties)",
        ]
    );
    assert!(preferences[1].notes.is_empty());
    assert_eq!(preferences[1].source, None);
    assert_eq!(
        preferences[2].notes[2],
        "  comparison: no unique preference; quality is unknown, tied, or codecs/bitrates cannot be compared"
    );
}

#[test]
fn comparisons_with_unknown_candidates_say_so() {
    let plans = vec![plan("a.720p.mkv", "M.mkv"), plan("b.mkv", "M.mkv")];
    let preferences = select_preferred_sources(&plans, &vec![None, None]);
    assert_eq!(preferences[0].source, Some(path("a.720p.mkv")));
    assert_eq!(
        preferences[0].notes[3],
        "  comparison: some candidates have unknown quality; preference uses known metadata only"
    );
}

#[test]
fn keys_stand_once_in_path_order() {
    let plans = vec![
        plan("1", "b/z.mkv"),
        plan("2", "b-c/a.mkv"),
        plan("3", "b/z.mp4"),
        plan("4", "/root/x.mkv"),
        plan("5", "b/a.mkv"),
    ];
    let keys: Vec<String> = destination_keys(&plans).iter().map(|key| key.display()).collect();
    assert_eq!(keys, vec!["/root/x", "b/a", "b/z", "b-c/a"]);
}

#[test]
fn only_contested_destinations_are_probed() {
    let plans = [plan("a.mkv", "Film.mkv"), plan("b.mp4", "Film.mp4"), plan("c.mkv", "Other.mkv")];
    let counts = count_destinations(&plans);
    let probed: Vec<bool> = plans.iter().map(|plan| needs_probe(plan, &counts)).collect();
    assert_eq!(probed, vec![true, true, false]);
}
