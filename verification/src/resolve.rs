//! From what a file name says to the movie or episode that it is.
use vstd::prelude::*;

use crate::chars::CharSet;
use crate::cli::{EpisodeApi, MediaType};
use crate::config::SeriesMapping;
use crate::metadata;
use crate::metadata::{
    EpisodeView, MovieMatch, MovieView, SeasonEpisode, SeriesMatch, SeriesView, TitleRule,
};
use crate::number;
use crate::parser;
use crate::parser::{Guess, GuessView, ParseError};
use crate::text;
use crate::titles;
use crate::titles::MappingError;

verus! {

/// A guess taken for a movie.
pub open spec fn as_movie(g: GuessView) -> GuessView {
    match g {
        GuessView::Movie { .. } => g,
        GuessView::Episode { series, year, .. } => GuessView::Movie { title: series, year },
    }
}

/// Takes a guess for a movie: an episode becomes a movie of the series' title.
pub fn force_movie(g: Guess) -> (res: Guess)
    ensures
        res@ == as_movie(g@),
{
    match g {
        Guess::Movie { title, year } => Guess::Movie { title, year },
        Guess::Episode { series, year, .. } => Guess::Movie { title: series, year },
    }
}

/// A guess taken for an episode.
pub open spec fn as_episode(g: GuessView) -> GuessView {
    match g {
        GuessView::Episode { .. } => g,
        GuessView::Movie { title, year } => GuessView::Episode {
            series: title,
            season: 1,
            episode: 1,
            episode_end: None,
            year,
        },
    }
}

/// Takes a guess for an episode: a movie becomes the first episode of a series
/// of its title.
pub fn force_episode(g: Guess) -> (res: Guess)
    ensures
        res@ == as_episode(g@),
{
    match g {
        Guess::Episode { series, season, episode, episode_end, year } => Guess::Episode {
            series,
            season,
            episode,
            episode_end,
            year,
        },
        Guess::Movie { title, year } => Guess::Episode {
            series: title,
            season: 1,
            episode: 1,
            episode_end: None,
            year,
        },
    }
}

/// A guess taken for the kind of media that was asked for.
pub open spec fn as_media(media: MediaType, g: GuessView) -> GuessView {
    match media {
        MediaType::Movie => as_movie(g),
        MediaType::Episode => as_episode(g),
        MediaType::Auto => g,
    }
}

/// Takes a guess for the kind of media that was asked for.
pub fn apply_media(media: MediaType, g: Guess) -> (res: Guess)
    ensures
        res@ == as_media(media, g@),
{
    match media {
        MediaType::Movie => force_movie(g),
        MediaType::Episode => force_episode(g),
        MediaType::Auto => g,
    }
}

/// Guesses what a file is from its name, and takes it for the kind of media that
/// was asked for. A name that is refused is refused whatever was asked for.
pub fn guess_file(stem: &str, media: MediaType) -> (res: Result<Guess, ParseError>)
    ensures
        match res {
            Ok(guess) => parser::name_error(parser::normalized(stem@)) is None && guess@
                == as_media(media, parser::guessed(parser::normalized(stem@))),
            Err(e) => parser::name_error(parser::normalized(stem@)) == Some(e@),
        },
{
    match parser::parse_filename(stem) {
        Ok(guess) => Ok(apply_media(media, guess)),
        Err(e) => Err(e),
    }
}

/// A forced guess is of the kind that was asked for, keeps its title and year,
/// and forcing it again changes nothing.
pub proof fn law_forced_guesses_keep_title_and_year(g: GuessView)
    ensures
        as_movie(g) is Movie,
        as_episode(g) is Episode,
        as_movie(as_movie(g)) == as_movie(g),
        as_episode(as_episode(g)) == as_episode(g),
        as_movie(as_episode(g)) == as_movie(g),
        g is Movie ==> as_movie(g) == g,
        g is Episode ==> as_episode(g) == g,
{
}

/// The episodes of a guess, with their markers.
pub open spec fn episode_label(episode: u32, episode_end: Option<u32>) -> Seq<char> {
    match episode_end {
        Some(end) => "E"@ + number::padded(episode as nat, 2) + "-E"@ + number::padded(
            end as nat,
            2,
        ),
        None => "E"@ + number::padded(episode as nat, 2),
    }
}

/// A guess on one line, behind the path that it was made for.
pub open spec fn guess_words(path: Seq<char>, g: GuessView) -> Seq<char> {
    match g {
        GuessView::Movie { title, year } => path + "  movie   title="@ + titles::quoted(title)
            + " year="@ + titles::year_or_mark(year),
        GuessView::Episode { series, season, episode, episode_end, year } => path
            + "  episode series="@ + titles::quoted(series) + " S"@ + number::padded(
            season as nat,
            2,
        ) + episode_label(episode, episode_end) + " year="@ + titles::year_or_mark(year),
    }
}

/// Writes a guess on one line, behind the path that it was made for.
pub fn guess_line(path: &str, guess: &Guess) -> (res: String)
    ensures
        res@ == guess_words(path@, guess@),
{
    let mut out = String::from_str(path);
    match guess {
        Guess::Movie { title, year } => {
            out.append("  movie   title=");
            out.append(titles::quote(title.as_str()).as_str());
            out.append(" year=");
            out.append(titles::year_label(*year).as_str());
        },
        Guess::Episode { series, season, episode, episode_end, year } => {
            out.append("  episode series=");
            out.append(titles::quote(series.as_str()).as_str());
            out.append(" S");
            out.append(number::padded_text(*season as u64, 2).as_str());
            let mut label = String::from_str("E");
            label.append(number::padded_text(*episode as u64, 2).as_str());
            if let Some(end) = episode_end {
                label.append("-E");
                label.append(number::padded_text(*end as u64, 2).as_str());
            }
            assert(label@ == episode_label(*episode, *episode_end));
            out.append(label.as_str());
            out.append(" year=");
            out.append(titles::year_label(*year).as_str());
        },
    }
    out
}

/// What to do with the matches of a search.
#[derive(Debug, Clone, PartialEq, Eq)]
pub enum Choice {
    /// There are none.
    NoMatches,
    /// Take the match with this index.
    Take(usize),
    /// The first match is not certain enough to take it without asking.
    Uncertain,
    /// Let the user choose among the labels; the last one skips the file.
    Ask { labels: Vec<String>, default: usize },
}

/// The labels of movies, and the choice to skip.
pub open spec fn movie_labels(matches: Seq<MovieView>) -> Seq<Seq<char>> {
    matches.map_values(|m: MovieView| titles::dated_title(m.title, m.year)).push(
        "Skip this file"@,
    )
}

/// Decides what to do with the movies that a search found. Without asking, only
/// the first is taken, and only where it is surely the right one.
pub fn choose_movie(title: &str, year: Option<u32>, matches: &Vec<MovieMatch>, batch: bool) -> (res:
    Choice)
    ensures
        match res {
            Choice::NoMatches => matches@.len() == 0,
            Choice::Take(i) => i == 0 && batch && matches@.len() > 0 && titles::movie_matches(
                title@,
                year,
                matches@[0]@,
            ),
            Choice::Uncertain => batch && matches@.len() > 0 && !titles::movie_matches(
                title@,
                year,
                matches@[0]@,
            ),
            Choice::Ask { labels, default } => {
                &&& !batch
                &&& matches@.len() > 0
                &&& text::views(labels@) == movie_labels(metadata::movie_views(matches@))
                &&& default == 0
            },
        },
{
    if matches.len() == 0 {
        return Choice::NoMatches;
    }
    if batch {
        if titles::movie_match_is_confident(title, year, &matches[0]) {
            return Choice::Take(0);
        }
        return Choice::Uncertain;
    }
    let ghost views = metadata::movie_views(matches@);
    let ghost f = |m: MovieView| titles::dated_title(m.title, m.year);
    let mut labels: Vec<String> = Vec::new();
    let mut i: usize = 0;
    assert(text::views(labels@) =~= views.take(0).map_values(f));
    while i < matches.len()
        invariant
            i <= matches.len(),
            views == metadata::movie_views(matches@),
            f == (|m: MovieView| titles::dated_title(m.title, m.year)),
            text::views(labels@) == views.take(i as int).map_values(f),
        decreases matches.len() - i,
    {
        let ghost before = text::views(labels@);
        labels.push(titles::dated_label(matches[i].title.as_str(), matches[i].year));
        assert(views[i as int] == matches@[i as int]@);
        assert(text::views(labels@) =~= before.push(f(views[i as int])));
        assert(views.take(i + 1).map_values(f) =~= before.push(f(views[i as int])));
        i += 1;
    }
    let ghost before = text::views(labels@);
    labels.push(String::from_str("Skip this file"));
    assert(text::views(labels@) =~= before.push("Skip this file"@));
    assert(views.take(views.len() as int) =~= views);
    Choice::Ask { labels, default: 0 }
}

/// The labels of series, and the choice to skip.
pub open spec fn series_labels(matches: Seq<SeriesView>, api: EpisodeApi) -> Seq<Seq<char>> {
    matches.map_values(|s: SeriesView| titles::series_label(s, api)).push("Skip this file"@)
}

/// Decides what to do with the series that a search found. Without asking, only
/// the first is taken, and only where its name surely is the right one.
pub fn choose_series(
    title: &str,
    matches: &Vec<SeriesMatch>,
    episode_api: EpisodeApi,
    batch: bool,
) -> (res: Choice)
    ensures
        match res {
            Choice::NoMatches => matches@.len() == 0,
            Choice::Take(i) => i == 0 && batch && matches@.len() > 0 && titles::titles_match(
                title@,
                matches@[0].name@,
            ),
            Choice::Uncertain => batch && matches@.len() > 0 && !titles::titles_match(
                title@,
                matches@[0].name@,
            ),
            Choice::Ask { labels, default } => {
                &&& !batch
                &&& matches@.len() > 0
                &&& text::views(labels@) == series_labels(
                    metadata::series_views(matches@),
                    episode_api,
                )
                &&& default == titles::first_match(title@, metadata::series_views(matches@))
            },
        },
{
    if matches.len() == 0 {
        return Choice::NoMatches;
    }
    if batch {
        if titles::title_match_is_confident(title, matches[0].name.as_str()) {
            return Choice::Take(0);
        }
        return Choice::Uncertain;
    }
    let mut labels = series_lines(matches, episode_api);
    let ghost before = text::views(labels@);
    labels.push(String::from_str("Skip this file"));
    assert(text::views(labels@) =~= before.push("Skip this file"@));
    Choice::Ask { labels, default: titles::default_series_match_index(title, matches) }
}

/// The labels of series.
pub fn series_lines(matches: &Vec<SeriesMatch>, episode_api: EpisodeApi) -> (res: Vec<String>)
    ensures
        text::views(res@) == metadata::series_views(matches@).map_values(
            |s: SeriesView| titles::series_label(s, episode_api),
        ),
{
    let ghost views = metadata::series_views(matches@);
    let ghost f = |s: SeriesView| titles::series_label(s, episode_api);
    let mut labels: Vec<String> = Vec::new();
    let mut i: usize = 0;
    assert(text::views(labels@) =~= views.take(0).map_values(f));
    while i < matches.len()
        invariant
            i <= matches.len(),
            views == metadata::series_views(matches@),
            f == (|s: SeriesView| titles::series_label(s, episode_api)),
            text::views(labels@) == views.take(i as int).map_values(f),
        decreases matches.len() - i,
    {
        let ghost before = text::views(labels@);
        labels.push(titles::series_match_label(&matches[i], episode_api));
        assert(views[i as int] == matches@[i as int]@);
        assert(text::views(labels@) =~= before.push(f(views[i as int])));
        assert(views.take(i + 1).map_values(f) =~= before.push(f(views[i as int])));
        i += 1;
    }
    assert(views.take(views.len() as int) =~= views);
    labels
}

/// The match that a user picked among `count`; whatever lies beyond them, or no
/// answer at all, skips the file.
pub fn picked_match(answer: Option<usize>, count: usize) -> (res: Option<usize>)
    ensures
        res == (match answer {
            Some(i) => if i < count {
                Some(i)
            } else {
                None
            },
            None => None,
        }),
{
    match answer {
        Some(i) => if i < count {
            Some(i)
        } else {
            None
        },
        None => None,
    }
}

/// The lines that a search for series shows.
pub open spec fn search_lines(
    query: Seq<char>,
    matches: Seq<SeriesView>,
    api: EpisodeApi,
) -> Seq<Seq<char>> {
    if matches.len() == 0 {
        seq!["No "@ + api.shown() + " series matches found for "@ + titles::quoted(query) + "."@]
    } else {
        seq![api.shown() + " series matches for "@ + titles::quoted(query) + ":"@]
            + matches.map_values(|s: SeriesView| "  "@ + titles::series_label(s, api))
    }
}

/// The query of a series search is blank.
pub open spec fn is_blank(query: Seq<char>) -> bool {
    text::trimmed(query, CharSet::Space).len() == 0
}

/// Whether a query can be searched for.
pub fn check_search_query(query: &str) -> (res: Result<(), &'static str>)
    ensures
        match res {
            Ok(()) => !is_blank(query@),
            Err(message) => is_blank(query@) && message@
                == "--search-series query cannot be empty"@,
        },
{
    if text::trim(query, CharSet::Space).as_str().is_empty() {
        Err("--search-series query cannot be empty")
    } else {
        Ok(())
    }
}

/// The lines that a search for series shows.
pub fn series_search_report(query: &str, matches: &Vec<SeriesMatch>, episode_api: EpisodeApi) -> (res:
    Vec<String>)
    ensures
        text::views(res@) == search_lines(
            query@,
            metadata::series_views(matches@),
            episode_api,
        ),
{
    let mut out: Vec<String> = Vec::new();
    let ghost views = metadata::series_views(matches@);
    if matches.len() == 0 {
        let mut line = String::from_str("No ");
        line.append(episode_api.display_name());
        line.append(" series matches found for ");
        line.append(titles::quote(query).as_str());
        line.append(".");
        out.push(line);
        assert(text::views(out@) =~= search_lines(query@, views, episode_api));
        return out;
    }
    let mut line = String::from_str(episode_api.display_name());
    line.append(" series matches for ");
    line.append(titles::quote(query).as_str());
    line.append(":");
    let ghost head = line@;
    out.push(line);
    let ghost f = |s: SeriesView| "  "@ + titles::series_label(s, episode_api);
    let mut i: usize = 0;
    assert(text::views(out@) =~= seq![head] + views.take(0).map_values(f));
    while i < matches.len()
        invariant
            i <= matches.len(),
            views == metadata::series_views(matches@),
            f == (|s: SeriesView| "  "@ + titles::series_label(s, episode_api)),
            text::views(out@) == seq![head] + views.take(i as int).map_values(f),
        decreases matches.len() - i,
    {
        let ghost before = text::views(out@);
        let mut label = String::from_str("  ");
        label.append(titles::series_match_label(&matches[i], episode_api).as_str());
        out.push(label);
        assert(views[i as int] == matches@[i as int]@);
        assert(text::views(out@) =~= before.push(f(views[i as int])));
        assert(seq![head] + views.take(i + 1).map_values(f) =~= before.push(f(views[i as int])));
        i += 1;
    }
    assert(views.take(views.len() as int) =~= views);
    out
}

/// How to find the series of an episode.
#[derive(Debug, Clone, Copy, PartialEq, Eq)]
pub enum SeriesSource {
    /// By its id.
    ById(u64),
    /// By a search for its title.
    Search,
}

/// Decides how to find the series of an episode: by the id that was given, else
/// by the id that the mappings give to the title, else by a search. Mappings
/// that contradict each other are refused even where an id was given.
pub fn series_source(
    series_id: Option<u64>,
    mappings: &[SeriesMapping],
    title: &str,
    episode_api: EpisodeApi,
) -> (res: Result<SeriesSource, MappingError>)
    ensures
        match res {
            Ok(source) => {
                &&& forall|a: u64, b: u64|
                    #[trigger] titles::maps_to(
                        titles::mapping_views(mappings@),
                        title@,
                        episode_api,
                        a,
                    ) && #[trigger] titles::maps_to(
                        titles::mapping_views(mappings@),
                        title@,
                        episode_api,
                        b,
                    ) ==> a == b && a != 0
                &&& match series_id {
                    Some(id) => source == SeriesSource::ById(id),
                    None => match source {
                        SeriesSource::ById(id) => titles::maps_to(
                            titles::mapping_views(mappings@),
                            title@,
                            episode_api,
                            id,
                        ),
                        SeriesSource::Search => forall|id: u64|
                            !#[trigger] titles::maps_to(
                                titles::mapping_views(mappings@),
                                title@,
                                episode_api,
                                id,
                            ),
                    },
                }
            },
            Err(MappingError::InvalidId { title: t }) => t@ == title@ && titles::maps_to(
                titles::mapping_views(mappings@),
                title@,
                episode_api,
                0,
            ),
            Err(MappingError::Conflict { title: t, episode_api: api }) => {
                &&& t@ == title@
                &&& api == episode_api
                &&& !titles::maps_to(titles::mapping_views(mappings@), title@, episode_api, 0)
                &&& exists|a: u64, b: u64|
                    a != b && #[trigger] titles::maps_to(
                        titles::mapping_views(mappings@),
                        title@,
                        episode_api,
                        a,
                    ) && #[trigger] titles::maps_to(
                        titles::mapping_views(mappings@),
                        title@,
                        episode_api,
                        b,
                    )
            },
        },
{
    match titles::series_mapping_id(mappings, title, episode_api) {
        Err(e) => Err(e),
        Ok(mapped) => match series_id {
            Some(id) => Ok(SeriesSource::ById(id)),
            None => match mapped {
                Some(id) => {
                    assert(titles::maps_to(
                        titles::mapping_views(mappings@),
                        title@,
                        episode_api,
                        id,
                    ));
                    Ok(SeriesSource::ById(id))
                },
                None => Ok(SeriesSource::Search),
            },
        },
    }
}

/// The message that no series has an id.
pub open spec fn unknown_id_words(series_id: u64) -> Seq<char> {
    "no series exists with ID "@ + number::decimal(series_id as nat)
        + " in the selected episode provider; file left unchanged"@
}

/// Writes the message that no series has an id.
pub fn unknown_id_message(series_id: u64) -> (res: String)
    ensures
        res@ == unknown_id_words(series_id),
{
    let mut out = String::from_str("no series exists with ID ");
    out.append(number::decimal_text(series_id).as_str());
    out.append(" in the selected episode provider; file left unchanged");
    out
}

/// The last episode that a file covers: the end of its range, or its only one.
pub open spec fn last_episode(episode: u32, episode_end: Option<u32>) -> u32 {
    match episode_end {
        Some(end) => end,
        None => episode,
    }
}

/// Settles the last episode of a file; more than ten episodes are refused.
pub fn check_range(episode: u32, episode_end: Option<u32>) -> (res: Result<u32, String>)
    ensures
        match res {
            Ok(last) => last == last_episode(episode, episode_end) && last - episode
                < parser::MAX_RANGE,
            Err(message) => last_episode(episode, episode_end) - episode >= parser::MAX_RANGE
                && message@ == parser::range_limit_message(
                episode,
                last_episode(episode, episode_end),
            ),
        },
{
    let last = match episode_end {
        Some(end) => end,
        None => episode,
    };
    if last > episode && last - episode >= parser::MAX_RANGE {
        Err(parser::range_limit_text(episode, last))
    } else {
        Ok(last)
    }
}

/// The titles of a range of episodes.
pub open spec fn range_titles(episodes: Seq<EpisodeView>, first: int, last: int) -> Seq<Seq<char>>
    decreases last - first + 1,
{
    if first > last {
        Seq::empty()
    } else {
        range_titles(episodes, first, last - 1).push(
            match metadata::find_episode(episodes, last as u32) {
                Some(e) => e.name,
                None => Seq::empty(),
            },
        )
    }
}

/// What the metadata of a season says of the requested episodes.
#[derive(Debug, Clone, PartialEq, Eq)]
pub struct EpisodeTitle {
    /// The titles, joined.
    pub title: String,
    /// What the user is warned of before the title is used.
    pub warning: Option<String>,
}

/// Why the requested episodes cannot be used. Temporary titles are used: theirs,
/// and those of the other episodes, stand in nobody's way.
pub open spec fn season_refusal(
    episodes: Seq<EpisodeView>,
    first: u32,
    last: u32,
    batch: bool,
    today: Seq<char>,
) -> Option<Seq<char>> {
    match metadata::range_issue(
        episodes,
        first as int,
        last as int,
        today,
        TitleRule::Temporary,
    ) {
        Some(reason) => Some(
            "episode metadata is not ready ("@ + reason
                + "); file left unchanged. Try again after the selected provider updates the episode"@,
        ),
        None => match metadata::season_issue(episodes, today, TitleRule::Temporary) {
            Some(reason) => if batch {
                Some(
                    "season metadata is not ready ("@ + reason
                        + "); batch mode left the file unchanged. Try an interactive run to review the requested episode"@,
                )
            } else {
                None
            },
            None => None,
        },
    }
}

/// Why the rest of a season is not complete, where temporary titles count as
/// missing: an episode that was not requested has an issue. Where none was
/// requested, the season as a whole is judged.
pub open spec fn rest_issue(
    episodes: Seq<EpisodeView>,
    first: u32,
    last: u32,
    today: Seq<char>,
) -> Option<Seq<char>> {
    if first <= last {
        metadata::other_issue(episodes, first, last, TitleRule::Final)
    } else {
        metadata::season_issue(episodes, today, TitleRule::Final)
    }
}

/// What the user is warned of before the titles of a season are used.
pub open spec fn season_warning(
    episodes: Seq<EpisodeView>,
    first: u32,
    last: u32,
    today: Seq<char>,
) -> Option<Seq<char>> {
    match rest_issue(episodes, first, last, today) {
        Some(reason) => Some(
            "other episodes in this season have incomplete metadata ("@ + reason
                + "); carefully review the requested title"@,
        ),
        None => None,
    }
}

/// The title of the requested episodes, joined by plus signs, from the metadata
/// of their season. An episode that is missing, has no title or no air date, or
/// has not aired is refused; without asking, so is a season in which another
/// episode has no title or no air date. Temporary titles are used; those of other
/// episodes are warned of.
pub fn episode_title(
    episodes: &[SeasonEpisode],
    first: u32,
    last: u32,
    batch: bool,
    today: &str,
) -> (res: Result<EpisodeTitle, String>)
    ensures
        match res {
            Ok(t) => {
                &&& season_refusal(
                    metadata::episode_views(episodes@),
                    first,
                    last,
                    batch,
                    today@,
                ) is None
                &&& t.title@ == text::joined(
                    range_titles(metadata::episode_views(episodes@), first as int, last as int),
                    " + "@,
                )
                &&& text::opt_view(t.warning) == season_warning(
                    metadata::episode_views(episodes@),
                    first,
                    last,
                    today@,
                )
            },
            Err(message) => season_refusal(
                metadata::episode_views(episodes@),
                first,
                last,
                batch,
                today@,
            ) == Some(message@),
        },
{
    let ghost views = metadata::episode_views(episodes@);
    if let Some(reason) = metadata::requested_issue_by(
        episodes,
        first,
        last,
        today,
        TitleRule::Temporary,
    ) {
        let mut out = String::from_str("episode metadata is not ready (");
        out.append(reason.as_str());
        out.append(
            "); file left unchanged. Try again after the selected provider updates the episode",
        );
        return Err(out);
    }
    if batch {
        if let Some(reason) = metadata::season_issue_by(episodes, today, TitleRule::Temporary) {
            let mut out = String::from_str("season metadata is not ready (");
            out.append(reason.as_str());
            out.append(
                "); batch mode left the file unchanged. Try an interactive run to review the requested episode",
            );
            return Err(out);
        }
    }
    let issue = if first <= last {
        metadata::other_issue_by(episodes, first, last, TitleRule::Final)
    } else {
        metadata::season_metadata_issue(episodes, today)
    };
    let mut warning: Option<String> = None;
    if let Some(reason) = issue {
        let mut out = String::from_str("other episodes in this season have incomplete metadata (");
        out.append(reason.as_str());
        out.append("); carefully review the requested title");
        warning = Some(out);
    }
    let mut names: Vec<String> = Vec::new();
    assert(text::views(names@) =~= Seq::<Seq<char>>::empty());
    if first <= last {
        let mut number: u32 = first;
        let mut done = false;
        while !done
            invariant
                first <= number <= last,
                views == metadata::episode_views(episodes@),
                !done ==> text::views(names@) == range_titles(views, first as int, number - 1),
                done ==> number == last && text::views(names@) == range_titles(
                    views,
                    first as int,
                    last as int,
                ),
            decreases last - number + (if done {
                0int
            } else {
                1int
            }),
        {
            let name = match metadata::episode_index(episodes, number) {
                Some(i) => episodes[i].name.clone(),
                None => String::new(),
            };
            let ghost before = text::views(names@);
            names.push(name);
            assert(name@ =~= match metadata::find_episode(views, number) {
                Some(e) => e.name,
                None => Seq::empty(),
            });
            assert(text::views(names@) =~= before.push(name@));
            assert(text::views(names@) == range_titles(views, first as int, number as int));
            if number == last {
                done = true;
            } else {
                number += 1;
            }
        }
    }
    Ok(EpisodeTitle { title: text::join(&names, " + "), warning })
}

/// The requested episodes are accepted just where each of them is on the list,
/// has a title of any kind, temporary ones included, and has aired; without
/// asking, every episode of the season must have a title and an air date.
pub proof fn law_aired_episodes_are_accepted(
    episodes: Seq<EpisodeView>,
    first: u32,
    last: u32,
    batch: bool,
    today: Seq<char>,
)
    requires
        first <= last,
    ensures
        season_refusal(episodes, first, last, batch, today) is None <==> {
            &&& forall|n: int|
                first <= n <= last ==> #[trigger] metadata::is_ready(episodes, n as u32, today)
            &&& batch ==> forall|i: int|
                0 <= i < episodes.len() ==> !metadata::is_untitled(
                    (#[trigger] episodes[i]).name,
                ) && episodes[i].air_date.len() > 0
        },
{
    let rule = TitleRule::Temporary;
    metadata::law_usable_range_is_usable_throughout(
        episodes,
        first as int,
        last as int,
        today,
        rule,
    );
    let usable = metadata::range_issue(episodes, first as int, last as int, today, rule) is None;
    let ready = forall|n: int|
        first <= n <= last ==> #[trigger] metadata::is_ready(episodes, n as u32, today);
    if usable {
        assert forall|n: int| first <= n <= last implies #[trigger] metadata::is_ready(
            episodes,
            n as u32,
            today,
        ) by {
            assert(metadata::requested_issue(episodes, n as u32, today, rule) is None);
            metadata::law_temporary_titles_are_usable(episodes, n as u32, today);
        }
    }
    if ready {
        assert forall|n: int| first <= n <= last implies #[trigger] metadata::requested_issue(
            episodes,
            n as u32,
            today,
            rule,
        ) is None by {
            assert(metadata::is_ready(episodes, n as u32, today));
            metadata::law_temporary_titles_are_usable(episodes, n as u32, today);
        }
    }
    assert(usable == ready);
    metadata::lemma_first_issue(episodes, rule);
    if usable {
        assert(metadata::is_ready(episodes, (first as int) as u32, today));
        metadata::lemma_aired_episode_opens_season(episodes, first, today);
        assert forall|i: int| 0 <= i < episodes.len() implies (metadata::episode_issue(
            #[trigger] episodes[i],
            rule,
        ) is None <==> !metadata::is_untitled(episodes[i].name) && episodes[i].air_date.len()
            > 0) by {}
    }
}

/// What is accepted without asking is accepted of a user too.
pub proof fn law_batch_accepts_no_more_than_a_user(
    episodes: Seq<EpisodeView>,
    first: u32,
    last: u32,
    today: Seq<char>,
)
    ensures
        season_refusal(episodes, first, last, true, today) is None ==> season_refusal(
            episodes,
            first,
            last,
            false,
            today,
        ) is None,
{
}

/// A warning comes just where an episode that was not requested has a temporary
/// title, no title or no air date; it gives the reason of such an episode.
pub proof fn law_warnings_speak_of_other_episodes(
    episodes: Seq<EpisodeView>,
    first: u32,
    last: u32,
    today: Seq<char>,
)
    requires
        first <= last,
    ensures
        match season_warning(episodes, first, last, today) {
            Some(warning) => exists|i: int|
                {
                    &&& 0 <= i < episodes.len()
                    &&& (#[trigger] episodes[i]).episode_number < first
                        || episodes[i].episode_number > last
                    &&& metadata::episode_issue(episodes[i], TitleRule::Final) is Some
                    &&& warning
                        == "other episodes in this season have incomplete metadata ("@
                        + metadata::episode_issue(episodes[i], TitleRule::Final)->0
                        + "); carefully review the requested title"@
                },
            None => forall|i: int|
                0 <= i < episodes.len() && ((#[trigger] episodes[i]).episode_number < first
                    || episodes[i].episode_number > last) ==> metadata::episode_issue(episodes[i], TitleRule::Final) is None,
        },
{
    metadata::lemma_other_issue(episodes, first, last, TitleRule::Final);
    assert forall|i: int|
        0 <= i < episodes.len() && ((#[trigger] episodes[i]).episode_number < first
            || episodes[i].episode_number > last) implies metadata::is_other(
        episodes[i],
        first,
        last,
    ) by {}
}

/// What is looked up for an episode.
#[derive(Debug, Clone)]
pub struct EpisodeQuery {
    pub series: String,
    pub season: u32,
    pub episode: u32,
    pub episode_end: Option<u32>,
    /// Whether nobody is asked.
    pub batch: bool,
    /// The series that was given.
    pub series_id: Option<u64>,
    pub episode_api: EpisodeApi,
}

/// How far the lookup of an episode is.
#[derive(Debug)]
pub enum EpisodeStage {
    /// The series with this id is looked up.
    ById(u64),
    /// The series is searched for.
    Search,
    /// The user chooses among the series; the last label skips the file.
    Pick { matches: Vec<SeriesMatch>, labels: Vec<String>, default: usize },
    /// The season of this series is looked up; `last` is the last episode.
    Season { series: SeriesMatch, last: u32 },
    /// No series was found.
    NoMatches,
    /// The series that was found is not certain enough to take it.
    Uncertain(SeriesMatch),
    /// The user chose no series.
    Declined,
    /// The episode cannot be used, with the reason.
    Failed(String),
    /// The episode was found.
    Found { series: SeriesMatch, title: EpisodeTitle },
}

fn copy_series(s: &SeriesMatch) -> (res: SeriesMatch)
    ensures
        res@ == s@,
{
    SeriesMatch { id: s.id, name: s.name.clone(), first_air_year: s.first_air_year }
}

/// The last episode that a query is for.
pub open spec fn query_last(q: EpisodeQuery) -> u32 {
    last_episode(q.episode, q.episode_end)
}

/// Once its series is settled, the season of an episode is looked up, unless the
/// file covers too many episodes.
pub open spec fn follows_series(q: EpisodeQuery, series: SeriesView, stage: EpisodeStage) -> bool {
    match stage {
        EpisodeStage::Season { series: s, last } => {
            &&& s@ == series
            &&& last == query_last(q)
            &&& last - q.episode < parser::MAX_RANGE
        },
        EpisodeStage::Failed(message) => {
            &&& query_last(q) - q.episode >= parser::MAX_RANGE
            &&& message@ == parser::range_limit_message(q.episode, query_last(q))
        },
        _ => false,
    }
}

fn settle_series(q: &EpisodeQuery, series: SeriesMatch) -> (res: EpisodeStage)
    ensures
        follows_series(*q, series@, res),
{
    match check_range(q.episode, q.episode_end) {
        Ok(last) => EpisodeStage::Season { series, last },
        Err(message) => EpisodeStage::Failed(message),
    }
}

/// Begins the lookup of an episode: by the id that was given or that a mapping
/// gives, else by a search.
pub fn begin_episode(q: &EpisodeQuery, mappings: &[SeriesMapping]) -> (res: EpisodeStage)
    ensures
        match res {
            EpisodeStage::ById(id) => q.series_id == Some(id) || (q.series_id is None
                && titles::maps_to(
                titles::mapping_views(mappings@),
                q.series@,
                q.episode_api,
                id,
            )),
            EpisodeStage::Search => q.series_id is None && forall|id: u64|
                !#[trigger] titles::maps_to(
                    titles::mapping_views(mappings@),
                    q.series@,
                    q.episode_api,
                    id,
                ),
            EpisodeStage::Failed(message) => if titles::maps_to(
                titles::mapping_views(mappings@),
                q.series@,
                q.episode_api,
                0,
            ) {
                message@ == titles::invalid_id_words(q.series@)
            } else {
                message@ == titles::conflict_words(q.series@, q.episode_api) && exists|
                    a: u64,
                    b: u64,
                |
                    a != b && #[trigger] titles::maps_to(
                        titles::mapping_views(mappings@),
                        q.series@,
                        q.episode_api,
                        a,
                    ) && #[trigger] titles::maps_to(
                        titles::mapping_views(mappings@),
                        q.series@,
                        q.episode_api,
                        b,
                    )
            },
            _ => false,
        },
        titles::maps_to(titles::mapping_views(mappings@), q.series@, q.episode_api, 0) ==> res
            is Failed,
        forall|a: u64, b: u64|
            #[trigger] titles::maps_to(
                titles::mapping_views(mappings@),
                q.series@,
                q.episode_api,
                a,
            ) && #[trigger] titles::maps_to(
                titles::mapping_views(mappings@),
                q.series@,
                q.episode_api,
                b,
            ) && a != b ==> res is Failed,
{
    match series_source(q.series_id, mappings, q.series.as_str(), q.episode_api) {
        Ok(SeriesSource::ById(id)) => EpisodeStage::ById(id),
        Ok(SeriesSource::Search) => EpisodeStage::Search,
        Err(e) => EpisodeStage::Failed(e.message()),
    }
}

/// Goes on with the series that has the id, where there is one.
pub fn series_found(q: &EpisodeQuery, series_id: u64, found: Option<SeriesMatch>) -> (res:
    EpisodeStage)
    ensures
        match found {
            Some(series) => follows_series(*q, series@, res),
            None => res matches EpisodeStage::Failed(message) && message@ == unknown_id_words(
                series_id,
            ),
        },
{
    match found {
        Some(series) => settle_series(q, series),
        None => EpisodeStage::Failed(unknown_id_message(series_id)),
    }
}

/// Goes on with the series that a search found.
pub fn matches_found(q: &EpisodeQuery, matches: Vec<SeriesMatch>) -> (res: EpisodeStage)
    ensures
        if matches@.len() == 0 {
            res is NoMatches
        } else if q.batch {
            if titles::titles_match(q.series@, matches@[0].name@) {
                follows_series(*q, matches@[0]@, res)
            } else {
                res matches EpisodeStage::Uncertain(series) && series@ == matches@[0]@
            }
        } else {
            res matches EpisodeStage::Pick { matches: m, labels, default } && m@ == matches@
                && text::views(labels@) == series_labels(
                metadata::series_views(matches@),
                q.episode_api,
            ) && default == titles::first_match(
                q.series@,
                metadata::series_views(matches@),
            )
        },
{
    match choose_series(q.series.as_str(), &matches, q.episode_api, q.batch) {
        Choice::NoMatches => EpisodeStage::NoMatches,
        Choice::Take(i) => settle_series(q, copy_series(&matches[i])),
        Choice::Uncertain => EpisodeStage::Uncertain(copy_series(&matches[0])),
        Choice::Ask { labels, default } => EpisodeStage::Pick { matches, labels, default },
    }
}

/// Goes on with the series that the user picked. Whatever lies beyond them, or
/// no answer at all, skips the file.
pub fn series_picked(q: &EpisodeQuery, matches: &Vec<SeriesMatch>, answer: Option<usize>) -> (res:
    EpisodeStage)
    ensures
        match answer {
            Some(i) => if i < matches@.len() {
                follows_series(*q, matches@[i as int]@, res)
            } else {
                res is Declined
            },
            None => res is Declined,
        },
{
    match picked_match(answer, matches.len()) {
        Some(i) => settle_series(q, copy_series(&matches[i])),
        None => EpisodeStage::Declined,
    }
}

/// Goes on with the episodes of the season, as of today.
pub fn season_found(
    q: &EpisodeQuery,
    series: SeriesMatch,
    last: u32,
    episodes: &[SeasonEpisode],
    today: &str,
) -> (res: EpisodeStage)
    ensures
        match season_refusal(
            metadata::episode_views(episodes@),
            q.episode,
            last,
            q.batch,
            today@,
        ) {
            Some(reason) => res matches EpisodeStage::Failed(message) && message@ == reason,
            None => res matches EpisodeStage::Found { series: s, title } && s@ == series@
                && title.title@ == text::joined(
                range_titles(
                    metadata::episode_views(episodes@),
                    q.episode as int,
                    last as int,
                ),
                " + "@,
            ) && text::opt_view(title.warning) == season_warning(
                metadata::episode_views(episodes@),
                q.episode,
                last,
                today@,
            ),
        },
{
    match episode_title(episodes, q.episode, last, q.batch, today) {
        Ok(title) => EpisodeStage::Found { series, title },
        Err(message) => EpisodeStage::Failed(message),
    }
}

/// A guess that is taken for a movie has the title and the year of the guess; one
/// that is taken for an episode keeps its numbers, and a movie becomes the first
/// episode of a first season. Left alone it stays as it is.
pub proof fn law_guesses_are_taken_as_asked(
    title: Seq<char>,
    year: Option<u32>,
    season: u32,
    episode: u32,
    episode_end: Option<u32>,
)
    ensures
        ({
            let movie = GuessView::Movie { title, year };
            let one = GuessView::Episode { series: title, season, episode, episode_end, year };
            let first = GuessView::Episode {
                series: title,
                season: 1,
                episode: 1,
                episode_end: None,
                year,
            };
            &&& as_media(MediaType::Auto, movie) == movie
            &&& as_media(MediaType::Auto, one) == one
            &&& as_media(MediaType::Movie, movie) == movie
            &&& as_media(MediaType::Movie, one) == movie
            &&& as_media(MediaType::Episode, movie) == first
            &&& as_media(MediaType::Episode, one) == one
        }),
{
}

/// A range of episodes has one title for each of them, in order: that of the
/// first in the list with its number.
pub proof fn law_each_episode_of_a_range_gives_its_title(
    episodes: Seq<EpisodeView>,
    first: u32,
    last: u32,
    n: u32,
)
    requires
        first <= n <= last,
    ensures
        range_titles(episodes, first as int, last as int).len() == last - first + 1,
        metadata::find_episode(episodes, n) matches Some(e) ==> range_titles(
            episodes,
            first as int,
            last as int,
        )[n - first] == e.name,
        first == last && metadata::find_episode(episodes, first) is Some ==> text::joined(
            range_titles(episodes, first as int, last as int),
            " + "@,
        ) == metadata::find_episode(episodes, first)->0.name,
        first < last ==> text::joined(range_titles(episodes, first as int, last as int), " + "@)
            == text::joined(range_titles(episodes, first as int, last - 1), " + "@) + seq![
            ' ',
            '+',
            ' ',
        ] + range_titles(episodes, first as int, last as int).last(),
    decreases last - first,
{
    lemma_range_length(episodes, first as int, last as int);
    let titles = range_titles(episodes, first as int, last as int);
    let front = range_titles(episodes, first as int, last - 1);
    reveal_strlit(" + ");
    assert(" + "@ =~= seq![' ', '+', ' ']);
    lemma_range_length(episodes, first as int, last - 1);
    assert(titles.drop_last() =~= front);
    if n < last {
        law_each_episode_of_a_range_gives_its_title(episodes, first, (last - 1) as u32, n);
        assert(titles[n - first] == front[n - first]);
    }
}

proof fn lemma_range_length(episodes: Seq<EpisodeView>, first: int, last: int)
    ensures
        range_titles(episodes, first, last).len() == (if first > last {
            0
        } else {
            last - first + 1
        }),
    decreases last - first + 1,
{
    if first <= last {
        lemma_range_length(episodes, first, last - 1);
    }
}

/// A file covers the episodes up to the end of its range, or its one episode,
/// and never more than ten.
pub proof fn law_files_cover_ten_episodes_at_most(
    q: EpisodeQuery,
    series: SeriesView,
    stage: EpisodeStage,
)
    requires
        follows_series(q, series, stage),
    ensures
        stage matches EpisodeStage::Season { series: s, last } ==> {
            &&& s@ == series
            &&& last as int <= q.episode + 9
            &&& q.episode_end matches Some(end) ==> last == end
            &&& q.episode_end is None ==> last == q.episode
        },
        !(stage is Season) ==> q.episode_end is Some && q.episode_end->0 > q.episode + 9,
{
}

/// The choices are the titles with their years, in the order in which they were
/// found, and behind them the choice to skip.
pub proof fn law_choices_end_with_skipping(
    movies: Seq<MovieView>,
    series: Seq<SeriesView>,
    api: EpisodeApi,
    i: int,
)
    ensures
        movie_labels(movies).len() == movies.len() + 1,
        movie_labels(movies).last() == "Skip this file"@,
        0 <= i < movies.len() ==> movie_labels(movies)[i] == titles::dated_title(
            movies[i].title,
            movies[i].year,
        ),
        series_labels(series, api).len() == series.len() + 1,
        series_labels(series, api).last() == "Skip this file"@,
        0 <= i < series.len() ==> series_labels(series, api)[i] == titles::dated_title(
            series[i].name,
            series[i].first_air_year,
        ) + " ["@ + api.shown() + " ID: "@ + number::decimal(series[i].id as nat) + "]"@,
        series.len() > 0 ==> search_lines(Seq::empty(), series, api).len() == series.len() + 1,
        0 <= i < series.len() ==> search_lines(Seq::empty(), series, api)[i + 1] == "  "@
            + series_labels(series, api)[i],
        series.len() == 0 ==> search_lines(Seq::empty(), series, api).len() == 1,
{
}

/// The line of a guess shows both ends of a range, so that different ranges give
/// different lines.
pub proof fn law_guess_lines_show_the_range(
    path: Seq<char>,
    series: Seq<char>,
    season: u32,
    episode: u32,
    end: u32,
    year: Option<u32>,
)
    ensures
        guess_words(
            path,
            GuessView::Episode { series, season, episode, episode_end: Some(end), year },
        ) == path + "  episode series="@ + titles::quoted(series) + " S"@ + number::padded(
            season as nat,
            2,
        ) + ("E"@ + number::padded(episode as nat, 2) + "-E"@ + number::padded(end as nat, 2))
            + " year="@ + titles::year_or_mark(year),
        guess_words(
            path,
            GuessView::Episode { series, season, episode, episode_end: None, year },
        ) == path + "  episode series="@ + titles::quoted(series) + " S"@ + number::padded(
            season as nat,
            2,
        ) + ("E"@ + number::padded(episode as nat, 2)) + " year="@ + titles::year_or_mark(year),
        guess_words(path, GuessView::Movie { title: series, year }) == path
            + "  movie   title="@ + titles::quoted(series) + " year="@ + titles::year_or_mark(year),
{
}

/// A query can be searched for where it holds anything but white space.
pub proof fn law_blank_queries_hold_white_space_only(query: Seq<char>)
    ensures
        is_blank(Seq::empty()),
        (forall|k: int|
            0 <= k < query.len() ==> CharSet::Space.contains(#[trigger] query[k])) ==> is_blank(
            query,
        ),
        query.len() > 0 && !CharSet::Space.contains(query[0]) && !CharSet::Space.contains(
            query.last(),
        ) ==> !is_blank(query),
{
    let none = Seq::<char>::empty();
    text::lemma_trimmed_fixed(none, CharSet::Space);
    if query.len() > 0 && !CharSet::Space.contains(query[0]) && !CharSet::Space.contains(
        query.last(),
    ) {
        text::lemma_trimmed_fixed(query, CharSet::Space);
    }
    if forall|k: int| 0 <= k < query.len() ==> CharSet::Space.contains(#[trigger] query[k]) {
        text::law_trimming_takes_the_ends_off(query, none, none, CharSet::Space);
        assert(query + none + none =~= query);
    }
}

/// A refusal says what is wrong: with the requested episodes first, and in a run
/// without questions with any episode of the season.
pub proof fn law_refusals_give_their_reason(
    episodes: Seq<EpisodeView>,
    first: u32,
    last: u32,
    batch: bool,
    today: Seq<char>,
)
    ensures
        metadata::range_issue(episodes, first as int, last as int, today, TitleRule::Temporary) matches Some(
            reason,
        ) ==> season_refusal(episodes, first, last, batch, today) == Some(
            "episode metadata is not ready ("@ + reason
                + "); file left unchanged. Try again after the selected provider updates the episode"@,
        ),
        metadata::range_issue(episodes, first as int, last as int, today, TitleRule::Temporary)
            is None && !batch ==> season_refusal(episodes, first, last, batch, today) is None,
        metadata::range_issue(episodes, first as int, last as int, today, TitleRule::Temporary)
            is None && batch && metadata::season_issue(episodes, today, TitleRule::Temporary)
            is None ==> season_refusal(episodes, first, last, batch, today) is None,
{
}

/// In a run without questions a season with an incomplete episode is refused with
/// that reason; where no episode was requested, a warning judges the season.
pub proof fn law_seasons_are_refused_without_questions(
    episodes: Seq<EpisodeView>,
    first: u32,
    last: u32,
    today: Seq<char>,
)
    ensures
        metadata::range_issue(episodes, first as int, last as int, today, TitleRule::Temporary)
            is None ==> (metadata::season_issue(episodes, today, TitleRule::Temporary) matches Some(
            reason,
        ) ==> season_refusal(episodes, first, last, true, today) == Some(
            "season metadata is not ready ("@ + reason
                + "); batch mode left the file unchanged. Try an interactive run to review the requested episode"@,
        )),
        first > last ==> (season_warning(episodes, first, last, today) is None
            <==> metadata::season_issue(episodes, today, TitleRule::Final) is None),
{
}

/// That no series has an id is told with the id.
pub proof fn law_unknown_ids_are_named(series_id: u64)
    ensures
        unknown_id_words(series_id) == "no series exists with ID "@ + number::decimal(
            series_id as nat,
        ) + " in the selected episode provider; file left unchanged"@,
        text::has_text(unknown_id_words(series_id), number::decimal(series_id as nat)),
{
    text::law_texts_are_found_where_they_stand(
        "no series exists with ID "@,
        number::decimal(series_id as nat),
        " in the selected episode provider; file left unchanged"@,
    );
}

} // verus!
