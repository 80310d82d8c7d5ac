//! What metadata providers report of movies, series and episodes.
use vstd::prelude::*;

use crate::chars;
use crate::chars::CharSet;
use crate::number;
use crate::text;

verus! {

/// A movie that a search found.
#[derive(Debug, Clone)]
pub struct MovieMatch {
    pub title: String,
    pub year: Option<u32>,
}

/// A series that a search found.
#[derive(Debug, Clone)]
pub struct SeriesMatch {
    pub id: u64,
    pub name: String,
    pub first_air_year: Option<u32>,
}

/// An episode of a season.
#[derive(Debug, Clone)]
pub struct SeasonEpisode {
    pub episode_number: u32,
    pub name: String,
    pub air_date: String,
}

/// A movie with its title as a sequence of characters.
pub struct MovieView {
    pub title: Seq<char>,
    pub year: Option<u32>,
}

impl View for MovieMatch {
    type V = MovieView;

    open spec fn view(&self) -> MovieView {
        MovieView { title: self.title@, year: self.year }
    }
}

/// A series with its name as a sequence of characters.
pub struct SeriesView {
    pub id: u64,
    pub name: Seq<char>,
    pub first_air_year: Option<u32>,
}

impl View for SeriesMatch {
    type V = SeriesView;

    open spec fn view(&self) -> SeriesView {
        SeriesView { id: self.id, name: self.name@, first_air_year: self.first_air_year }
    }
}

/// An episode with its texts as sequences of characters.
pub struct EpisodeView {
    pub episode_number: u32,
    pub name: Seq<char>,
    pub air_date: Seq<char>,
}

impl View for SeasonEpisode {
    type V = EpisodeView;

    open spec fn view(&self) -> EpisodeView {
        EpisodeView {
            episode_number: self.episode_number,
            name: self.name@,
            air_date: self.air_date@,
        }
    }
}

/// The views of a list of movies.
pub open spec fn movie_views(list: Seq<MovieMatch>) -> Seq<MovieView> {
    list.map_values(|m: MovieMatch| m@)
}

/// The views of a list of series.
pub open spec fn series_views(list: Seq<SeriesMatch>) -> Seq<SeriesView> {
    list.map_values(|s: SeriesMatch| s@)
}

/// The views of a list of episodes.
pub open spec fn episode_views(list: Seq<SeasonEpisode>) -> Seq<EpisodeView> {
    list.map_values(|e: SeasonEpisode| e@)
}

/// Whether a character takes one byte in UTF-8.
pub open spec fn one_byte(s: Seq<char>, n: int) -> bool {
    n <= s.len() && forall|i: int| 0 <= i < n ==> chars::is_ascii_char(#[trigger] s[i])
}

/// The year at the start of a date: its first four bytes, where they are a
/// number.
pub open spec fn date_year(date: Seq<char>) -> Option<u32> {
    if one_byte(date, 4) {
        number::u32_value(date.take(4))
    } else {
        None
    }
}

/// Reads the year at the start of a date.
pub fn year_from_date(date: &str) -> (res: Option<u32>)
    ensures
        res == date_year(date@),
{
    let letters = text::to_chars(date);
    if letters.len() < 4 {
        return None;
    }
    let mut i: usize = 0;
    while i < 4
        invariant
            i <= 4 <= letters.len(),
            letters@ == date@,
            forall|k: int| 0 <= k < i ==> chars::is_ascii_char(#[trigger] date@[k]),
        decreases 4 - i,
    {
        if letters[i] > '\x7f' {
            assert(!chars::is_ascii_char(date@[i as int]));
            return None;
        }
        i += 1;
    }
    assert(date@.take(4) =~= date@.subrange(0, 4));
    number::parse_u32(text::from_chars(&letters, 0, 4).as_str())
}

/// A title that only stands in for the real one.
pub open spec fn is_placeholder(name: Seq<char>, number: u32) -> bool {
    let plain = chars::ascii_lower_text(text::trimmed(name, CharSet::Space));
    plain.len() == 0 || plain == "episode "@ + number::decimal(number as nat) || plain == "tba"@
        || plain == "tbd"@
}

/// A title that is not there.
pub open spec fn is_untitled(name: Seq<char>) -> bool {
    text::trimmed(name, CharSet::Space).len() == 0
}

/// Which titles are good enough.
#[derive(Debug, Clone, Copy, PartialEq, Eq)]
pub enum TitleRule {
    /// Titles that are no placeholders.
    Final,
    /// Any title, temporary ones included: the file can be renamed again when
    /// the provider knows better.
    Temporary,
}

/// Whether a title is not good enough.
pub open spec fn lacks_title(e: EpisodeView, rule: TitleRule) -> bool {
    match rule {
        TitleRule::Final => is_placeholder(e.name, e.episode_number),
        TitleRule::Temporary => is_untitled(e.name),
    }
}

/// What an episode's metadata lacks.
pub open spec fn episode_issue(e: EpisodeView, rule: TitleRule) -> Option<Seq<char>> {
    if lacks_title(e, rule) {
        Some(
            "episode "@ + number::decimal(e.episode_number as nat)
                + " still has a placeholder title"@,
        )
    } else if e.air_date.len() == 0 {
        Some("episode "@ + number::decimal(e.episode_number as nat) + " has no air date"@)
    } else {
        None
    }
}

fn numbered(number: u32, words: &str) -> (res: String)
    ensures
        res@ == "episode "@ + number::decimal(number as nat) + words@,
{
    let mut out = String::from_str("episode ");
    out.append(number::decimal_text(number as u64).as_str());
    out.append(words);
    out
}

/// Tells what an episode's metadata lacks: a title that is good enough, or an
/// air date.
pub fn episode_metadata_issue(episode: &SeasonEpisode, rule: TitleRule) -> (res: Option<String>)
    ensures
        text::opt_view(res) == episode_issue(episode@, rule),
{
    let trimmed = text::trim(episode.name.as_str(), CharSet::Space);
    let untitled = trimmed.as_str().is_empty();
    let lacking = match rule {
        TitleRule::Temporary => untitled,
        TitleRule::Final => {
            let name = chars::lower_ascii(trimmed.as_str());
            let placeholder = numbered(episode.episode_number, "");
            proof {
                reveal_strlit("");
                assert(placeholder@ =~= "episode "@ + number::decimal(
                    episode.episode_number as nat,
                ));
            }
            untitled || text::same_text(name.as_str(), placeholder.as_str()) || text::same_text(
                name.as_str(),
                "tba",
            ) || text::same_text(name.as_str(), "tbd")
        },
    };
    if lacking {
        return Some(numbered(episode.episode_number, " still has a placeholder title"));
    }
    if episode.air_date.as_str().is_empty() {
        return Some(numbered(episode.episode_number, " has no air date"));
    }
    None
}

/// The first episode of a list with this number.
pub open spec fn find_episode(episodes: Seq<EpisodeView>, number: u32) -> Option<EpisodeView>
    decreases episodes.len(),
{
    if episodes.len() == 0 {
        None
    } else if episodes[0].episode_number == number {
        Some(episodes[0])
    } else {
        find_episode(episodes.skip(1), number)
    }
}

/// Finds the first episode of a list with this number.
pub fn episode_index(episodes: &[SeasonEpisode], number: u32) -> (res: Option<usize>)
    ensures
        match res {
            Some(i) => i < episodes@.len() && find_episode(episode_views(episodes@), number) == Some(
                episodes@[i as int]@,
            ),
            None => find_episode(episode_views(episodes@), number) is None,
        },
{
    let ghost views = episode_views(episodes@);
    let mut i: usize = 0;
    assert(views.skip(0) =~= views);
    while i < episodes.len()
        invariant
            i <= episodes.len(),
            views == episode_views(episodes@),
            find_episode(views, number) == find_episode(views.skip(i as int), number),
        decreases episodes.len() - i,
    {
        assert(views.skip(i as int)[0] == episodes@[i as int]@);
        if episodes[i].episode_number == number {
            return Some(i);
        }
        assert(views.skip(i as int).skip(1) =~= views.skip(i + 1));
        i += 1;
    }
    None
}

/// Why one requested episode cannot be used.
pub open spec fn requested_issue(
    episodes: Seq<EpisodeView>,
    number: u32,
    today: Seq<char>,
    rule: TitleRule,
) -> Option<Seq<char>> {
    match find_episode(episodes, number) {
        None => Some("episode "@ + number::decimal(number as nat) + " is missing"@),
        Some(e) => match episode_issue(e, rule) {
            Some(reason) => Some(reason),
            None => if text::precedes(today, e.air_date) {
                Some(
                    "episode "@ + number::decimal(e.episode_number as nat)
                        + " does not air until "@ + e.air_date,
                )
            } else {
                None
            },
        },
    }
}

/// Why the requested episodes cannot be used: the reason of the first that
/// cannot.
pub open spec fn range_issue(
    episodes: Seq<EpisodeView>,
    first: int,
    last: int,
    today: Seq<char>,
    rule: TitleRule,
) -> Option<Seq<char>>
    decreases last - first + 1,
{
    if first > last {
        None
    } else {
        match requested_issue(episodes, first as u32, today, rule) {
            Some(reason) => Some(reason),
            None => range_issue(episodes, first + 1, last, today, rule),
        }
    }
}

fn single_issue(
    episodes: &[SeasonEpisode],
    number: u32,
    today: &str,
    rule: TitleRule,
) -> (res: Option<String>)
    ensures
        text::opt_view(res) == requested_issue(episode_views(episodes@), number, today@, rule),
{
    match episode_index(episodes, number) {
        None => Some(numbered(number, " is missing")),
        Some(i) => {
            let episode = &episodes[i];
            if let Some(reason) = episode_metadata_issue(episode, rule) {
                return Some(reason);
            }
            if text::text_precedes(today, episode.air_date.as_str()) {
                let mut out = numbered(episode.episode_number, " does not air until ");
                out.append(episode.air_date.as_str());
                return Some(out);
            }
            None
        },
    }
}

/// Tells why the metadata of the requested episodes is not final: one is missing,
/// has a placeholder for a title or no air date, or has not aired.
pub fn requested_episode_metadata_issue(
    episodes: &[SeasonEpisode],
    first_episode: u32,
    final_episode: u32,
    today: &str,
) -> (res: Option<String>)
    ensures
        text::opt_view(res) == range_issue(
            episode_views(episodes@),
            first_episode as int,
            final_episode as int,
            today@,
            TitleRule::Final,
        ),
{
    requested_issue_by(episodes, first_episode, final_episode, today, TitleRule::Final)
}

/// Tells why the requested episodes cannot be used: one is missing, has no title
/// that is good enough or no air date, or has not aired.
pub fn requested_issue_by(
    episodes: &[SeasonEpisode],
    first_episode: u32,
    final_episode: u32,
    today: &str,
    rule: TitleRule,
) -> (res: Option<String>)
    ensures
        text::opt_view(res) == range_issue(
            episode_views(episodes@),
            first_episode as int,
            final_episode as int,
            today@,
            rule,
        ),
{
    let ghost views = episode_views(episodes@);
    if first_episode > final_episode {
        return None;
    }
    let mut number: u32 = first_episode;
    while number < final_episode
        invariant
            first_episode <= number <= final_episode,
            views == episode_views(episodes@),
            range_issue(views, first_episode as int, final_episode as int, today@, rule)
                == range_issue(views, number as int, final_episode as int, today@, rule),
        decreases final_episode - number,
    {
        if let Some(reason) = single_issue(episodes, number, today, rule) {
            return Some(reason);
        }
        number += 1;
    }
    assert(range_issue(views, final_episode + 1, final_episode as int, today@, rule) is None);
    single_issue(episodes, number, today, rule)
}

/// The first reason why an episode of a season is not complete.
pub open spec fn first_issue(episodes: Seq<EpisodeView>, rule: TitleRule) -> Option<Seq<char>>
    decreases episodes.len(),
{
    if episodes.len() == 0 {
        None
    } else {
        match episode_issue(episodes[0], rule) {
            Some(reason) => Some(reason),
            None => first_issue(episodes.skip(1), rule),
        }
    }
}

/// Whether an episode is none of the requested ones.
pub open spec fn is_other(e: EpisodeView, first: u32, last: u32) -> bool {
    e.episode_number < first || last < e.episode_number
}

/// The first reason why an episode that was not requested is not complete.
pub open spec fn other_issue(
    episodes: Seq<EpisodeView>,
    first: u32,
    last: u32,
    rule: TitleRule,
) -> Option<Seq<char>>
    decreases episodes.len(),
{
    if episodes.len() == 0 {
        None
    } else if is_other(episodes[0], first, last) && episode_issue(episodes[0], rule) is Some {
        episode_issue(episodes[0], rule)
    } else {
        other_issue(episodes.skip(1), first, last, rule)
    }
}

/// Tells why an episode other than the requested ones is not complete: it has no
/// title that is good enough, or no air date.
pub fn other_issue_by(
    episodes: &[SeasonEpisode],
    first: u32,
    last: u32,
    rule: TitleRule,
) -> (res: Option<String>)
    ensures
        text::opt_view(res) == other_issue(episode_views(episodes@), first, last, rule),
{
    let ghost views = episode_views(episodes@);
    let mut i: usize = 0;
    assert(views.skip(0) =~= views);
    while i < episodes.len()
        invariant
            i <= episodes.len(),
            views == episode_views(episodes@),
            other_issue(views, first, last, rule) == other_issue(
                views.skip(i as int),
                first,
                last,
                rule,
            ),
        decreases episodes.len() - i,
    {
        assert(views.skip(i as int)[0] == episodes@[i as int]@);
        let number: u32 = episodes[i].episode_number;
        if number < first || last < number {
            if let Some(reason) = episode_metadata_issue(&episodes[i], rule) {
                return Some(reason);
            }
        }
        assert(views.skip(i as int).skip(1) =~= views.skip(i + 1));
        i += 1;
    }
    None
}

/// The reason comes from an episode that was not requested, and there is none
/// just where each of those is complete.
pub proof fn lemma_other_issue(
    episodes: Seq<EpisodeView>,
    first: u32,
    last: u32,
    rule: TitleRule,
)
    ensures
        match other_issue(episodes, first, last, rule) {
            Some(reason) => exists|i: int|
                0 <= i < episodes.len() && is_other(#[trigger] episodes[i], first, last)
                    && episode_issue(episodes[i], rule) == Some(reason),
            None => forall|i: int|
                0 <= i < episodes.len() && is_other(#[trigger] episodes[i], first, last)
                    ==> episode_issue(episodes[i], rule) is None,
        },
    decreases episodes.len(),
{
    if episodes.len() > 0 {
        let rest = episodes.skip(1);
        lemma_other_issue(rest, first, last, rule);
        if is_other(episodes[0], first, last) && episode_issue(episodes[0], rule) is Some {
            assert(is_other(episodes[0], first, last));
        } else if other_issue(rest, first, last, rule) is Some {
            let i = choose|i: int|
                0 <= i < rest.len() && is_other(#[trigger] rest[i], first, last)
                    && episode_issue(rest[i], rule) == other_issue(rest, first, last, rule);
            assert(episodes[i + 1] == rest[i]);
        } else {
            assert forall|i: int|
                0 <= i < episodes.len() && is_other(
                    #[trigger] episodes[i],
                    first,
                    last,
                ) implies episode_issue(episodes[i], rule) is None by {
                if i > 0 {
                    assert(rest[i - 1] == episodes[i]);
                }
            }
        }
    }
}

/// A date that no episode's date precedes.
pub open spec fn is_first_air_date(episodes: Seq<EpisodeView>, date: Seq<char>) -> bool {
    &&& exists|i: int| 0 <= i < episodes.len() && (#[trigger] episodes[i]).air_date == date
    &&& forall|i: int|
        0 <= i < episodes.len() ==> !text::precedes((#[trigger] episodes[i]).air_date, date)
}

/// Why a season's metadata is not complete.
pub open spec fn season_issue(
    episodes: Seq<EpisodeView>,
    today: Seq<char>,
    rule: TitleRule,
) -> Option<Seq<char>> {
    if episodes.len() == 0 {
        Some("the season has no episodes"@)
    } else {
        match first_issue(episodes, rule) {
            Some(reason) => Some(reason),
            None => {
                let first = choose|date: Seq<char>| is_first_air_date(episodes, date);
                if text::precedes(today, first) {
                    Some("the season does not air until "@ + first)
                } else {
                    None
                }
            },
        }
    }
}

proof fn lemma_first_air_date(episodes: Seq<EpisodeView>, a: Seq<char>, b: Seq<char>)
    requires
        is_first_air_date(episodes, a),
        is_first_air_date(episodes, b),
    ensures
        a == b,
{
    text::lemma_precedes_one_way(a, b);
}

/// Tells why a season's metadata is not final: it has no episodes, one of them
/// has a placeholder for a title or no air date, or none has aired.
pub fn season_metadata_issue(episodes: &[SeasonEpisode], today: &str) -> (res: Option<String>)
    ensures
        text::opt_view(res) == season_issue(
            episode_views(episodes@),
            today@,
            TitleRule::Final,
        ),
{
    season_issue_by(episodes, today, TitleRule::Final)
}

/// Tells why a season's metadata is not complete: it has no episodes, one of
/// them has no title that is good enough or no air date, or none has aired.
pub fn season_issue_by(episodes: &[SeasonEpisode], today: &str, rule: TitleRule) -> (res: Option<
    String,
>)
    ensures
        text::opt_view(res) == season_issue(episode_views(episodes@), today@, rule),
{
    let ghost views = episode_views(episodes@);
    if episodes.len() == 0 {
        return Some(String::from_str("the season has no episodes"));
    }
    let mut first: usize = 0;
    let mut i: usize = 0;
    assert(views.skip(0) =~= views);
    proof {
        text::lemma_precedes_one_way(views[0].air_date, views[0].air_date);
    }
    while i < episodes.len()
        invariant
            i <= episodes.len(),
            first < episodes.len(),
            first <= i,
            views == episode_views(episodes@),
            first_issue(views, rule) == first_issue(views.skip(i as int), rule),
            forall|k: int|
                0 <= k < i ==> !text::precedes(
                    (#[trigger] views[k]).air_date,
                    views[first as int].air_date,
                ),
        decreases episodes.len() - i,
    {
        assert(views.skip(i as int)[0] == episodes@[i as int]@);
        assert(views[first as int] == episodes@[first as int]@);
        if let Some(reason) = episode_metadata_issue(&episodes[i], rule) {
            return Some(reason);
        }
        assert(views.skip(i as int).skip(1) =~= views.skip(i + 1));
        if text::text_precedes(episodes[i].air_date.as_str(), episodes[first].air_date.as_str()) {
            proof {
                text::lemma_precedes_one_way(
                    views[i as int].air_date,
                    views[i as int].air_date,
                );
                assert forall|k: int| 0 <= k < i implies !text::precedes(
                    (#[trigger] views[k]).air_date,
                    views[i as int].air_date,
                ) by {
                    if text::precedes(views[k].air_date, views[i as int].air_date) {
                        text::lemma_precedes_chain(
                            views[k].air_date,
                            views[i as int].air_date,
                            views[first as int].air_date,
                        );
                    }
                }
            }
            first = i;
        }
        i += 1;
    }
    assert(views[first as int] == episodes@[first as int]@);
    proof {
        let date = choose|date: Seq<char>| is_first_air_date(views, date);
        assert(is_first_air_date(views, views[first as int].air_date));
        lemma_first_air_date(views, date, views[first as int].air_date);
    }
    if text::text_precedes(today, episodes[first].air_date.as_str()) {
        let mut out = String::from_str("the season does not air until ");
        out.append(episodes[first].air_date.as_str());
        return Some(out);
    }
    None
}

/// The requested episodes are usable just where each of them is.
pub proof fn law_usable_range_is_usable_throughout(
    episodes: Seq<EpisodeView>,
    first: int,
    last: int,
    today: Seq<char>,
    rule: TitleRule,
)
    requires
        0 <= first,
        last <= u32::MAX,
    ensures
        range_issue(episodes, first, last, today, rule) is None <==> forall|n: int|
            first <= n <= last ==> #[trigger] requested_issue(episodes, n as u32, today, rule)
                is None,
    decreases last - first + 1,
{
    if first <= last {
        law_usable_range_is_usable_throughout(episodes, first + 1, last, today, rule);
    }
}

/// Whether an episode is on the list, has a title and has aired.
pub open spec fn is_ready(episodes: Seq<EpisodeView>, number: u32, today: Seq<char>) -> bool {
    match find_episode(episodes, number) {
        Some(e) => !is_untitled(e.name) && e.air_date.len() > 0 && !text::precedes(
            today,
            e.air_date,
        ),
        None => false,
    }
}

/// Where temporary titles are good enough, an episode is usable just where it is
/// on the list, has a title of any kind, and has aired by today.
pub proof fn law_temporary_titles_are_usable(
    episodes: Seq<EpisodeView>,
    number: u32,
    today: Seq<char>,
)
    ensures
        requested_issue(episodes, number, today, TitleRule::Temporary) is None <==> is_ready(
            episodes,
            number,
            today,
        ),
        requested_issue(episodes, number, today, TitleRule::Final) is None ==> is_ready(
            episodes,
            number,
            today,
        ),
        find_episode(episodes, number) matches Some(e) ==> e.episode_number == number,
{
    lemma_found_number(episodes, number);
    if let Some(e) = find_episode(episodes, number) {
        let t = text::trimmed(e.name, CharSet::Space);
        assert(chars::ascii_lower_text(t).len() == t.len());
    }
}

/// A season whose metadata is final is complete by the lesser rule too.
pub proof fn law_final_seasons_are_complete(episodes: Seq<EpisodeView>, today: Seq<char>)
    requires
        season_issue(episodes, today, TitleRule::Final) is None,
    ensures
        season_issue(episodes, today, TitleRule::Temporary) is None,
{
    lemma_first_issue(episodes, TitleRule::Final);
    lemma_first_issue(episodes, TitleRule::Temporary);
    assert forall|i: int| 0 <= i < episodes.len() implies episode_issue(
        #[trigger] episodes[i],
        TitleRule::Temporary,
    ) is None by {
        assert(episode_issue(episodes[i], TitleRule::Final) is None);
        let t = text::trimmed(episodes[i].name, CharSet::Space);
        assert(chars::ascii_lower_text(t).len() == t.len());
    }
}

pub proof fn lemma_first_issue(episodes: Seq<EpisodeView>, rule: TitleRule)
    ensures
        first_issue(episodes, rule) is None <==> forall|i: int|
            0 <= i < episodes.len() ==> episode_issue(#[trigger] episodes[i], rule) is None,
    decreases episodes.len(),
{
    if episodes.len() > 0 {
        let rest = episodes.skip(1);
        lemma_first_issue(rest, rule);
        assert forall|i: int| 0 <= i < rest.len() implies #[trigger] rest[i] == episodes[i + 1] by {}
        if first_issue(episodes, rule) is None {
            assert forall|i: int| 0 <= i < episodes.len() implies episode_issue(
                #[trigger] episodes[i],
                rule,
            ) is None by {
                if i > 0 {
                    assert(rest[i - 1] == episodes[i]);
                }
            }
        } else if forall|i: int|
            0 <= i < episodes.len() ==> episode_issue(#[trigger] episodes[i], rule) is None {
            assert forall|i: int| 0 <= i < rest.len() implies episode_issue(
                #[trigger] rest[i],
                rule,
            ) is None by {
                assert(rest[i] == episodes[i + 1]);
            }
            assert(episode_issue(episodes[0], rule) is None);
        }
    }
}

/// A season in which an episode has aired has opened.
pub proof fn lemma_aired_episode_opens_season(
    episodes: Seq<EpisodeView>,
    number: u32,
    today: Seq<char>,
)
    requires
        is_ready(episodes, number, today),
    ensures
        episodes.len() > 0,
        season_issue(episodes, today, TitleRule::Temporary) is None <==> first_issue(
            episodes,
            TitleRule::Temporary,
        ) is None,
{
    lemma_found_at(episodes, number);
    let i = choose|i: int|
        0 <= i < episodes.len() && find_episode(episodes, number) == Some(#[trigger] episodes[i]);
    lemma_has_first_air_date(episodes);
    let date = choose|date: Seq<char>| is_first_air_date(episodes, date);
    assert(!text::precedes(episodes[i].air_date, date));
    if text::precedes(today, date) {
        text::lemma_precedes_one_way(episodes[i].air_date, date);
        if episodes[i].air_date != date {
            text::lemma_precedes_chain(today, date, episodes[i].air_date);
        }
    }
}

proof fn lemma_found_at(episodes: Seq<EpisodeView>, number: u32)
    requires
        find_episode(episodes, number) is Some,
    ensures
        exists|i: int|
            0 <= i < episodes.len() && find_episode(episodes, number) == Some(
                #[trigger] episodes[i],
            ),
    decreases episodes.len(),
{
    if episodes[0].episode_number == number {
        assert(find_episode(episodes, number) == Some(episodes[0]));
    } else {
        let rest = episodes.skip(1);
        lemma_found_at(rest, number);
        let i = choose|i: int|
            0 <= i < rest.len() && find_episode(rest, number) == Some(#[trigger] rest[i]);
        assert(episodes[i + 1] == rest[i]);
    }
}

proof fn lemma_has_first_air_date(episodes: Seq<EpisodeView>)
    requires
        episodes.len() > 0,
    ensures
        exists|date: Seq<char>| is_first_air_date(episodes, date),
    decreases episodes.len(),
{
    let last = episodes.last();
    text::lemma_precedes_one_way(last.air_date, last.air_date);
    if episodes.len() == 1 {
        assert(episodes[0].air_date == last.air_date);
        assert(is_first_air_date(episodes, last.air_date));
    } else {
        let front = episodes.drop_last();
        lemma_has_first_air_date(front);
        let date = choose|date: Seq<char>| is_first_air_date(front, date);
        let k = choose|k: int| 0 <= k < front.len() && (#[trigger] front[k]).air_date == date;
        if text::precedes(last.air_date, date) {
            assert(episodes[episodes.len() - 1].air_date == last.air_date);
            assert forall|i: int| 0 <= i < episodes.len() implies !text::precedes(
                (#[trigger] episodes[i]).air_date,
                last.air_date,
            ) by {
                if i < front.len() {
                    assert(front[i] == episodes[i]);
                    if text::precedes(front[i].air_date, last.air_date) {
                        text::lemma_precedes_chain(front[i].air_date, last.air_date, date);
                    }
                }
            }
            assert(is_first_air_date(episodes, last.air_date));
        } else {
            assert(episodes[k].air_date == date);
            assert forall|i: int| 0 <= i < episodes.len() implies !text::precedes(
                (#[trigger] episodes[i]).air_date,
                date,
            ) by {
                if i < front.len() {
                    assert(front[i] == episodes[i]);
                }
            }
            assert(is_first_air_date(episodes, date));
        }
    }
}

proof fn lemma_found_number(episodes: Seq<EpisodeView>, number: u32)
    ensures
        find_episode(episodes, number) matches Some(e) ==> e.episode_number == number,
    decreases episodes.len(),
{
    if episodes.len() > 0 {
        lemma_found_number(episodes.skip(1), number);
    }
}

/// The year of a date is the number that its first four characters write; what
/// follows makes no difference. A date of fewer than four characters, or with
/// anything but digits among the first four, has none.
pub proof fn law_dates_begin_with_their_year(year: nat, date: Seq<char>, rest: Seq<char>)
    requires
        year < 10_000,
    ensures
        date_year(number::padded(year, 4) + rest) == Some(year as u32),
        date.len() < 4 ==> date_year(date) is None,
        date.len() == 4 ==> date_year(date + rest) == date_year(date),
        date.len() >= 4 && date[0] != '+' && date_year(date) is Some ==> forall|i: int|
            0 <= i < 4 ==> '0' <= #[trigger] date[i] <= '9',
{
    let y = number::padded(year, 4);
    reveal_with_fuel(number::decimal, 5);
    number::law_numbers_are_written_shortest(year, 4);
    number::law_written_numbers_read_back(year, 4);
    number::lemma_padded_value(year, 4);
    assert(y.len() == 4);
    let whole = y + rest;
    assert(whole.take(4) =~= y);
    assert forall|i: int| 0 <= i < 4 implies chars::is_ascii_char(#[trigger] whole[i]) by {
        assert(chars::is_digit(y[i]));
        assert(whole[i] == y[i]);
    }
    if date.len() == 4 {
        let longer = date + rest;
        assert(longer.take(4) =~= date.take(4));
        assert forall|i: int| 0 <= i < 4 implies #[trigger] longer[i] == date[i] by {}
        if one_byte(date, 4) {
            assert forall|i: int| 0 <= i < 4 implies chars::is_ascii_char(#[trigger] longer[i]) by {
                assert(chars::is_ascii_char(date[i]));
            }
        }
        if one_byte(longer, 4) {
            assert forall|i: int| 0 <= i < 4 implies chars::is_ascii_char(#[trigger] date[i]) by {
                assert(chars::is_ascii_char(longer[i]));
            }
        }
    }
    if date.len() >= 4 && date[0] != '+' && date_year(date) is Some {
        let head = date.take(4);
        assert forall|i: int| 0 <= i < 4 implies '0' <= #[trigger] date[i] <= '9' by {
            assert(chars::is_digit(head[i]));
        }
    }
}

/// Without white space around it, a title stands in for the real one just where
/// it is nothing, the word for an episode with its own number, or one of the two
/// abbreviations for a title to come, in any case.
pub proof fn law_placeholders_are_told_by_their_words(name: Seq<char>, number: u32, other: u32)
    requires
        name.len() > 0 ==> !chars::is_space(name[0]) && !chars::is_space(name.last()),
    ensures
        is_placeholder(name, number) <==> {
            let t = chars::ascii_lower_text(name);
            ||| t.len() == 0
            ||| t == seq!['e', 'p', 'i', 's', 'o', 'd', 'e', ' '] + number::decimal(number as nat)
            ||| t == seq!['t', 'b', 'a']
            ||| t == seq!['t', 'b', 'd']
        },
        chars::ascii_lower_text(name) == seq!['e', 'p', 'i', 's', 'o', 'd', 'e', ' ']
            + number::decimal(other as nat) && number != other ==> !is_placeholder(name, number),
        is_untitled(name) <==> name.len() == 0,
{
    text::lemma_trimmed_fixed(name, CharSet::Space);
    reveal_strlit("episode ");
    reveal_strlit("tba");
    reveal_strlit("tbd");
    assert("episode "@ =~= seq!['e', 'p', 'i', 's', 'o', 'd', 'e', ' ']);
    assert("tba"@ =~= seq!['t', 'b', 'a']);
    assert("tbd"@ =~= seq!['t', 'b', 'd']);
    let t = chars::ascii_lower_text(name);
    let a = number::decimal(number as nat);
    let b = number::decimal(other as nat);
    number::law_written_numbers_read_back(number as nat, 0);
    number::law_written_numbers_read_back(other as nat, 0);
    let word = seq!['e', 'p', 'i', 's', 'o', 'd', 'e', ' '];
    if t == word + b {
        assert(t[0] == 'e');
        if t == word + a {
            assert(t.skip(8) =~= a);
            assert(t.skip(8) =~= b);
        }
    }
}

/// White space around a title makes no difference to whether it is one.
pub proof fn law_titles_are_judged_without_white_space(
    left: Seq<char>,
    name: Seq<char>,
    right: Seq<char>,
    number: u32,
)
    requires
        forall|i: int| 0 <= i < left.len() ==> CharSet::Space.contains(#[trigger] left[i]),
        forall|i: int| 0 <= i < right.len() ==> CharSet::Space.contains(#[trigger] right[i]),
        name.len() > 0 ==> !chars::is_space(name[0]) && !chars::is_space(name.last()),
    ensures
        is_placeholder(left + name + right, number) == is_placeholder(name, number),
        is_untitled(left + name + right) == is_untitled(name),
{
    text::law_trimming_takes_the_ends_off(left, name, right, CharSet::Space);
    text::lemma_trimmed_fixed(name, CharSet::Space);
}

/// An episode's metadata is complete just where its title is good enough and it
/// has an air date; what is wrong with it names its number.
pub proof fn law_complete_episodes_have_title_and_date(e: EpisodeView, rule: TitleRule)
    ensures
        episode_issue(e, rule) is None <==> !lacks_title(e, rule) && e.air_date.len() > 0,
        lacks_title(e, rule) ==> episode_issue(e, rule) == Some(
            "episode "@ + number::decimal(e.episode_number as nat)
                + " still has a placeholder title"@,
        ),
        !lacks_title(e, rule) && e.air_date.len() == 0 ==> episode_issue(e, rule) == Some(
            "episode "@ + number::decimal(e.episode_number as nat) + " has no air date"@,
        ),
{
}

/// An episode is found by its number: the first in the list that has it.
pub proof fn law_episodes_are_found_by_number(episodes: Seq<EpisodeView>, number: u32)
    ensures
        match find_episode(episodes, number) {
            Some(e) => exists|i: int|
                {
                    &&& 0 <= i < episodes.len()
                    &&& #[trigger] episodes[i] == e
                    &&& e.episode_number == number
                    &&& forall|j: int|
                        0 <= j < i ==> (#[trigger] episodes[j]).episode_number != number
                },
            None => forall|i: int|
                0 <= i < episodes.len() ==> (#[trigger] episodes[i]).episode_number != number,
        },
    decreases episodes.len(),
{
    if episodes.len() > 0 {
        let rest = episodes.skip(1);
        if episodes[0].episode_number == number {
            assert(episodes[0] == find_episode(episodes, number)->0);
        } else {
            law_episodes_are_found_by_number(rest, number);
            assert forall|i: int| 1 <= i < episodes.len() implies #[trigger] episodes[i] == rest[i
                - 1] by {}
            if let Some(e) = find_episode(rest, number) {
                let i = choose|i: int|
                    {
                        &&& 0 <= i < rest.len()
                        &&& #[trigger] rest[i] == e
                        &&& e.episode_number == number
                        &&& forall|j: int|
                            0 <= j < i ==> (#[trigger] rest[j]).episode_number != number
                    };
                assert(episodes[i + 1] == e);
                assert forall|j: int| 0 <= j < i + 1 implies (
                #[trigger] episodes[j]).episode_number != number by {
                    if j > 0 {
                        assert(rest[j - 1] == episodes[j]);
                    }
                }
            }
        }
    }
}

/// A requested episode can be used just where it is found, its metadata is
/// complete, and its air date is not later than today.
pub proof fn law_requested_episodes_have_aired(
    episodes: Seq<EpisodeView>,
    number: u32,
    today: Seq<char>,
    rule: TitleRule,
)
    ensures
        requested_issue(episodes, number, today, rule) is None <==> (find_episode(
            episodes,
            number,
        ) matches Some(e) && !lacks_title(e, rule) && e.air_date.len() > 0 && !text::precedes(
            today,
            e.air_date,
        )),
        find_episode(episodes, number) is None ==> requested_issue(episodes, number, today, rule)
            == Some("episode "@ + number::decimal(number as nat) + " is missing"@),
        find_episode(episodes, number) matches Some(e) ==> (episode_issue(e, rule) is Some
            ==> requested_issue(episodes, number, today, rule) == episode_issue(e, rule)),
{
}

/// A season is complete just where it has episodes, all of them are complete,
/// and one of them has aired by today.
pub proof fn law_complete_seasons_have_begun(
    episodes: Seq<EpisodeView>,
    today: Seq<char>,
    rule: TitleRule,
)
    ensures
        season_issue(episodes, today, rule) is None <==> {
            &&& forall|i: int|
                0 <= i < episodes.len() ==> !lacks_title(#[trigger] episodes[i], rule)
                    && episodes[i].air_date.len() > 0
            &&& exists|i: int|
                0 <= i < episodes.len() && !text::precedes(today, (#[trigger] episodes[i]).air_date)
        },
{
    if episodes.len() > 0 {
        lemma_first_issue(episodes, rule);
        assert forall|i: int| 0 <= i < episodes.len() implies (episode_issue(
            #[trigger] episodes[i],
            rule,
        ) is None <==> !lacks_title(episodes[i], rule) && episodes[i].air_date.len() > 0) by {}
        lemma_has_first_air_date(episodes);
        let date = choose|date: Seq<char>| is_first_air_date(episodes, date);
        let k = choose|k: int| 0 <= k < episodes.len() && (#[trigger] episodes[k]).air_date == date;
        if exists|i: int|
            0 <= i < episodes.len() && !text::precedes(today, (#[trigger] episodes[i]).air_date) {
            let i = choose|i: int|
                0 <= i < episodes.len() && !text::precedes(today, (#[trigger] episodes[i]).air_date);
            assert(!text::precedes(episodes[i].air_date, date));
            if text::precedes(today, date) {
                text::lemma_precedes_one_way(episodes[i].air_date, date);
                if episodes[i].air_date != date {
                    text::lemma_precedes_chain(today, date, episodes[i].air_date);
                }
            }
        }
    }
}

/// The reason given for a range is that of the first episode in it that cannot
/// be used.
pub proof fn law_the_first_unusable_episode_is_reported(
    episodes: Seq<EpisodeView>,
    first: int,
    last: int,
    today: Seq<char>,
    rule: TitleRule,
)
    ensures
        range_issue(episodes, first, last, today, rule) matches Some(reason) ==> exists|n: int|
            {
                &&& first <= n <= last
                &&& #[trigger] requested_issue(episodes, n as u32, today, rule) == Some(reason)
                &&& forall|m: int|
                    first <= m < n ==> #[trigger] requested_issue(episodes, m as u32, today, rule)
                        is None
            },
    decreases last - first + 1,
{
    if let Some(reason) = range_issue(episodes, first, last, today, rule) {
        if requested_issue(episodes, first as u32, today, rule) is Some {
            assert(requested_issue(episodes, first as u32, today, rule) == Some(reason));
        } else {
            law_the_first_unusable_episode_is_reported(episodes, first + 1, last, today, rule);
            let n = choose|n: int|
                {
                    &&& first + 1 <= n <= last
                    &&& #[trigger] requested_issue(episodes, n as u32, today, rule) == Some(reason)
                    &&& forall|m: int|
                        first + 1 <= m < n ==> #[trigger] requested_issue(
                            episodes,
                            m as u32,
                            today,
                            rule,
                        ) is None
                };
            assert(requested_issue(episodes, n as u32, today, rule) == Some(reason));
        }
    }
}

/// An episode that has not aired is reported with its date; a season that has not
/// begun with the earliest date of its episodes.
pub proof fn law_later_dates_are_reported(
    episodes: Seq<EpisodeView>,
    number: u32,
    today: Seq<char>,
    rule: TitleRule,
)
    ensures
        find_episode(episodes, number) matches Some(e) ==> (episode_issue(e, rule) is None
            && text::precedes(today, e.air_date) ==> requested_issue(
            episodes,
            number,
            today,
            rule,
        ) == Some(
            "episode "@ + number::decimal(e.episode_number as nat) + " does not air until "@
                + e.air_date,
        )),
        episodes.len() == 0 ==> season_issue(episodes, today, rule) == Some(
            "the season has no episodes"@,
        ),
        episodes.len() > 0 && first_issue(episodes, rule) is None && season_issue(
            episodes,
            today,
            rule,
        ) is Some ==> exists|i: int|
            {
                &&& 0 <= i < episodes.len()
                &&& season_issue(episodes, today, rule) == Some(
                    "the season does not air until "@ + (#[trigger] episodes[i]).air_date,
                )
                &&& forall|j: int|
                    0 <= j < episodes.len() ==> !text::precedes(
                        (#[trigger] episodes[j]).air_date,
                        episodes[i].air_date,
                    )
            },
        first_issue(episodes, rule) matches Some(reason) ==> season_issue(episodes, today, rule)
            == Some(reason),
{
    if episodes.len() > 0 {
        lemma_has_first_air_date(episodes);
        let date = choose|date: Seq<char>| is_first_air_date(episodes, date);
        let i = choose|i: int| 0 <= i < episodes.len() && (#[trigger] episodes[i]).air_date == date;
        assert(episodes[i].air_date == date);
    }
}

/// Where titles are to be final, an episode lacks one that stands in for the real
/// title; where temporary ones are good enough, only one that is nothing but
/// white space.
pub proof fn law_rules_decide_which_titles_are_good_enough(e: EpisodeView)
    ensures
        lacks_title(e, TitleRule::Final) <==> is_placeholder(e.name, e.episode_number),
        lacks_title(e, TitleRule::Temporary) <==> text::trimmed(e.name, CharSet::Space).len() == 0,
        lacks_title(e, TitleRule::Temporary) ==> lacks_title(e, TitleRule::Final),
{
    let t = text::trimmed(e.name, CharSet::Space);
    assert(chars::ascii_lower_text(t).len() == t.len());
}

} // verus!
