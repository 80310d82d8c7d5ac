use mnamer::calendar::utc_date;
use mnamer::model::{extension_of, stem_of, MediaPath};
use mnamer::number::{decimal_text, padded_text, parse_u32, parse_u64};
use mnamer::path_order::sort_order;
use mnamer::pattern::Found;
use mnamer::parser::{check_numbering, choose_marker, normalize_separators, Markers, ParseError};

fn path(directory: &str, name: &str) -> MediaPath {
    MediaPath { directory: directory.to_string(), name: name.to_string() }
}

#[test]
fn names_are_stems_and_extensions() {
    for (name, stem, extension) in [
        ("movie.mkv", "movie", Some("mkv")),
        ("a.b.c", "a.b", Some("c")),
        (".hidden", ".hidden", None),
        ("plain", "plain", None),
        ("dot.", "dot", Some("")),
        ("..", "..", None),
        ("", "", None),
    ] {
        assert_eq!(stem_of(name), stem);
        assert_eq!(extension_of(name).as_deref(), extension);
    }
}

#[test]
fn numbers_are_written_and_read_back() {
    assert_eq!(decimal_text(0), "0");
    assert_eq!(padded_text(7, 2), "07");
    assert_eq!(padded_text(123, 2), "123");
    assert_eq!(parse_u64(&decimal_text(u64::MAX)), Some(u64::MAX));
    assert_eq!(parse_u64("18446744073709551616"), None);
    assert_eq!(parse_u32("+12"), Some(12));
    assert_eq!(parse_u32("4294967296"), None);
    assert_eq!(parse_u32(""), None);
    assert_eq!(parse_u32("-1"), None);
}

#[test]
fn paths_are_sorted_component_by_component() {
    let paths = vec![
        path("b", "x"),
        path("a-b", "x"),
        path("a", "x"),
        path("/z", "x"),
        path("..", "x"),
        path(".", "x"),
        path("a", "x"),
        path("", "(x"),
    ];
    assert_eq!(sort_order(&paths), vec![3, 5, 4, 7, 2, 6, 1, 0]);
}

#[test]
fn dates_follow_each_other() {
    assert_eq!(utc_date(0), "1970-01-01");
    assert_eq!(utc_date(951_782_400), "2000-02-29");
    assert_eq!(utc_date(951_868_800), "2000-03-01");
    assert!(utc_date(951_782_400) < utc_date(951_868_800));
}

#[test]
fn normalized_names_are_words() {
    assert_eq!(normalize_separators(" a_b..c - d  e "), "a b c d e");
}

fn found(groups: &[Option<&str>]) -> Option<Found> {
    Some(Found {
        before: String::new(),
        groups: groups.iter().map(|group| group.map(str::to_string)).collect(),
        after: String::new(),
    })
}

fn markers(compact: &[&[Option<&str>]], worded: &[&[Option<&str>]], crossed: &[&[Option<&str>]]) -> Markers {
    let list = |all: &[&[Option<&str>]]| all.iter().filter_map(|groups| found(groups)).collect();
    Markers { compact: list(compact), worded: list(worded), crossed: list(crossed) }
}

#[test]
fn markers_are_chosen_by_style() {
    let compact: &[Option<&str>] = &[Some("S01E02E03"), Some("01"), Some("02"), Some("03")];
    let worded: &[Option<&str>] = &[Some("Season 4 Episode 5"), Some("4"), Some("5")];
    let marker = choose_marker(&markers(&[compact, worded], &[worded], &[])).unwrap();
    assert_eq!((marker.season, marker.episode, marker.episode_end), (1, 2, Some(3)));
    let marker = choose_marker(&markers(&[], &[worded], &[compact])).unwrap();
    assert_eq!((marker.season, marker.episode, marker.episode_end), (4, 5, None));
    let marker = choose_marker(&markers(&[], &[], &[&[Some("x"), None, None]])).unwrap();
    assert_eq!((marker.season, marker.episode, marker.episode_end), (1, 1, None));
    assert!(choose_marker(&markers(&[], &[], &[])).is_none());
}

#[test]
fn numbering_is_judged_in_order() {
    let what = found(&[Some("S01E0304")]);
    let falling: &[Option<&str>] = &[Some("S01E04E03"), Some("01"), Some("04"), Some("03")];
    let crossed: &[Option<&str>] = &[Some("2x05"), Some("2"), Some("5")];
    let one = markers(&[falling], &[], &[]);
    let two = markers(&[falling], &[], &[crossed]);
    assert_eq!(
        check_numbering(&what, &what, &two),
        Err(ParseError::Ambiguous { marker: "S01E0304".to_string() })
    );
    assert_eq!(
        check_numbering(&None, &what, &two),
        Err(ParseError::Several { first: "S01E04E03".to_string(), second: "2x05".to_string() })
    );
    assert_eq!(
        check_numbering(&None, &what, &one),
        Err(ParseError::Unsupported { marker: "S01E0304".to_string() })
    );
    assert_eq!(
        check_numbering(&None, &None, &one),
        Err(ParseError::NotIncreasing { marker: "S01E04E03".to_string() })
    );
    assert_eq!(check_numbering(&None, &None, &markers(&[], &[], &[crossed])), Ok(()));
    assert_eq!(check_numbering(&None, &None, &markers(&[], &[], &[])), Ok(()));
}
