//! Guessing a movie or an episode from a file name.
use vstd::prelude::*;

use crate::chars;
use crate::chars::CharSet;
use crate::number;
use crate::pattern;
use crate::pattern::{Found, FoundView};
use crate::text;

verus! {

/// What a file name says about the video it names.
#[derive(Debug, Clone, PartialEq, Eq)]
pub enum Guess {
    Movie { title: String, year: Option<u32> },
    Episode {
        series: String,
        season: u32,
        episode: u32,
        episode_end: Option<u32>,
        year: Option<u32>,
    },
}

/// A guess with its texts as sequences of characters.
pub enum GuessView {
    Movie { title: Seq<char>, year: Option<u32> },
    Episode {
        series: Seq<char>,
        season: u32,
        episode: u32,
        episode_end: Option<u32>,
        year: Option<u32>,
    },
}

impl View for Guess {
    type V = GuessView;

    open spec fn view(&self) -> GuessView {
        match *self {
            Guess::Movie { title, year } => GuessView::Movie { title: title@, year },
            Guess::Episode { series, season, episode, episode_end, year } => GuessView::Episode {
                series: series@,
                season,
                episode,
                episode_end,
                year,
            },
        }
    }
}

/// S01E02, S1E2, s01.e02
pub const SEASON_EPISODE: &'static str = r"(?i)\bS(\d{1,2})[\s._-]?E(\d{1,3})(?:[\s._-]?E(\d{1,3}))?\b";

/// Four or more episode digits are ambiguous (for example, E0304). They are
/// looked for first so that a valid prefix cannot hide an invalid second episode.
pub const AMBIGUOUS_EPISODE: &'static str = r"(?i)\bS\d{1,2}[\s._-]?E(?:\d+[\s._-]?E)*\d{4,}\b";

/// Sequences of episodes that no range denotes, written as one marker or run
/// into one: a third episode, a second season, an end without its own marker
/// (S01E03-04), or a second episode after a marker that has no ranges.
pub const UNSUPPORTED_SEQUENCE: &'static str = r"(?ix)
      \bS\d{1,2}[\s._-]?E\d{1,3}[\s._-]?E\d{1,3}[\s._-]?E\d
    | \bS\d{1,2}[\s._-]?E\d{1,3}(?:[\s._-]?E\d{1,3})?-S?\d{1,3}\b
    | \bS\d{1,2}[\s._-]?E\d.*\dS\d{1,2}[\s._-]?E\d
    | \bS\d{1,2}-S\d{1,2}[\s._-]?E\d
    | \b\d{1,2}x\d{1,3}(?:[x-]|[\s._-]?E)\d{1,3}\b
    | \bseason[\s._-]*\d{1,2}[\s._-]+episode[\s._-]*\d{1,3}(?:-|[\s._-]?E)\d{1,3}\b
    | \bseason[\s._-]*\d{1,2}[\s._-]+episode[\s._-]*\d{1,3}\b.*\bepisode[\s._-]*\d
";

/// 1x02, 12x345
pub const SEASON_EPISODE_X: &'static str = r"(?i)\b(\d{1,2})x(\d{1,3})\b";

/// "Season 1 Episode 2"
pub const SEASON_EPISODE_WORDS: &'static str =
    r"(?i)\bseason[\s._-]*(\d{1,2})[\s._-]+episode[\s._-]*(\d{1,3})\b";

/// A standalone four-digit year, 1900 to 2099.
pub const YEAR: &'static str = r"\b(19\d{2}|20\d{2})\b";

/// Resolution, codec, source and release tags: the title ends before the first of them.
pub const JUNK_TAGS: &'static str = r"(?ix)
        \b(
            480p|720p|1080p|2160p|4k|uhd|hdr10?|dv|
            web[-._]?dl|webrip|web|bluray|blu-ray|bdrip|brrip|dvdrip|dvdscr|hdtv|hdrip|hdcam|cam|
            x264|x265|h264|h265|hevc|avc|xvid|divx|
            aac|ac3|dts|flac|mp3|atmos|
            [257]\.1|
            proper|repack|extended|remastered|unrated|directors[-._]?cut|
            yify|yts|rarbg|ettv|eztv
        )\b
    ";

/// The most episodes that one file may cover.
pub const MAX_RANGE: u32 = 10;

/// Dots, underscores and free-standing dashes become blanks, and runs of white
/// space one blank.
pub open spec fn normalized(stem: Seq<char>) -> Seq<char> {
    let spaced = text::replaced(text::replaced(stem, "_"@, " "@), "."@, " "@);
    text::joined(text::words(text::replaced(spaced, " - "@, " "@), CharSet::Space), " "@)
}

/// Replaces common file name separators by blanks, so that patterns work on
/// words rather than raw scene-style tokens.
pub fn normalize_separators(stem: &str) -> (res: String)
    ensures
        res@ == normalized(stem@),
{
    proof {
        reveal_strlit("_");
        reveal_strlit(".");
        reveal_strlit(" - ");
    }
    let spaced = text::replace(text::replace(stem, "_", " ").as_str(), ".", " ");
    let joined_dashes = text::replace(spaced.as_str(), " - ", " ");
    text::join(&text::split_words(joined_dashes.as_str(), CharSet::Space), " ")
}

/// What stands before the first junk tag, without the padding around it.
pub open spec fn without_junk(part: Seq<char>, junk: Option<FoundView>) -> Seq<char> {
    text::trimmed(
        match junk {
            Some(tag) => tag.before,
            None => part,
        },
        CharSet::Padding,
    )
}

/// Cuts a title at the junk tag that was found in it.
pub fn cut_junk(part: &str, junk: &Option<Found>) -> (res: String)
    ensures
        res@ == without_junk(part@, pattern::found_view(*junk)),
{
    match junk {
        Some(tag) => text::trim(tag.before.as_str(), CharSet::Padding),
        None => text::trim(part, CharSet::Padding),
    }
}

/// Cuts a title at its first junk tag.
pub fn strip_junk(s: &str) -> (res: String)
    ensures
        res@ == without_junk(s@, pattern::regex_captures(JUNK_TAGS@, s@)),
{
    cut_junk(s, &pattern::captures(JUNK_TAGS, s))
}

pub open spec fn has_upper(w: Seq<char>) -> bool {
    exists|i: int| 0 <= i < w.len() && chars::is_uppercase(#[trigger] w[i])
}

pub open spec fn has_lower(w: Seq<char>) -> bool {
    exists|i: int| 0 <= i < w.len() && chars::is_lowercase(#[trigger] w[i])
}

/// A word in title case; a word of mixed case (McDonald, iPhone) as it is.
pub open spec fn title_word(w: Seq<char>) -> Seq<char> {
    if has_upper(w) && has_lower(w) {
        w
    } else {
        chars::capitalized(w)
    }
}

/// The words of a title, each in title case.
pub open spec fn title_words(pieces: Seq<Seq<char>>) -> Seq<Seq<char>> {
    pieces.map_values(|w: Seq<char>| title_word(w))
}

/// A title without the padding around it, its words in title case.
pub open spec fn cleaned_title(raw: Seq<char>) -> Seq<char> {
    let core = text::trimmed(text::trimmed(raw, CharSet::Space), CharSet::Padding);
    text::joined(title_words(text::split(core, CharSet::Blank)), " "@)
}

fn title_case_word(w: &str) -> (res: String)
    ensures
        res@ == title_word(w@),
{
    let letters = text::to_chars(w);
    let mut upper = false;
    let mut lower = false;
    let mut i: usize = 0;
    while i < letters.len()
        invariant
            letters@ == w@,
            i <= letters.len(),
            upper == exists|j: int| 0 <= j < i && chars::is_uppercase(#[trigger] w@[j]),
            lower == exists|j: int| 0 <= j < i && chars::is_lowercase(#[trigger] w@[j]),
        decreases letters.len() - i,
    {
        let c = letters[i];
        assert(w@[i as int] == c);
        upper = upper || c.is_uppercase();
        lower = lower || c.is_lowercase();
        i += 1;
    }
    if upper && lower {
        text::from_chars(&letters, 0, letters.len())
    } else {
        chars::capitalize(w)
    }
}

/// Trims a title and puts its words in title case.
pub fn clean_title(raw: &str) -> (res: String)
    ensures
        res@ == cleaned_title(raw@),
{
    let core = text::trim(text::trim(raw, CharSet::Space).as_str(), CharSet::Padding);
    let pieces = text::split_text(core.as_str(), CharSet::Blank);
    let ghost all = text::views(pieces@);
    let mut out: Vec<String> = Vec::new();
    let mut i: usize = 0;
    while i < pieces.len()
        invariant
            all == text::views(pieces@),
            i <= pieces.len(),
            text::views(out@) == title_words(all.take(i as int)),
        decreases pieces.len() - i,
    {
        let ghost before = text::views(out@);
        assert(all[i as int] == pieces@[i as int]@);
        out.push(title_case_word(pieces[i].as_str()));
        assert(text::views(out@) =~= before.push(title_word(all[i as int])));
        assert(title_words(all.take(i + 1)) =~= title_words(all.take(i as int)).push(
            title_word(all[i as int]),
        ));
        i += 1;
    }
    assert(all.take(all.len() as int) =~= all);
    text::join(&out, " ")
}

/// The season and the episodes that a marker in a file name denotes.
pub struct Marker {
    pub text: String,
    pub season: u32,
    pub episode: u32,
    pub episode_end: Option<u32>,
}

/// A marker with its text as a sequence of characters.
pub struct MarkerView {
    pub text: Seq<char>,
    pub season: u32,
    pub episode: u32,
    pub episode_end: Option<u32>,
}

impl View for Marker {
    type V = MarkerView;

    open spec fn view(&self) -> MarkerView {
        MarkerView {
            text: self.text@,
            season: self.season,
            episode: self.episode,
            episode_end: self.episode_end,
        }
    }
}

/// The view of an optional marker.
pub open spec fn marker_view(m: Option<Marker>) -> Option<MarkerView> {
    match m {
        Some(marker) => Some(marker@),
        None => None,
    }
}

/// The number in group `k` of a match, where there is one.
pub open spec fn group_number(found: FoundView, k: int) -> Option<u32> {
    match found.group(k) {
        Some(digits) => number::u32_value(digits),
        None => None,
    }
}

/// The number in group `k` of a match, or 1.
pub open spec fn group_number_or_one(found: FoundView, k: int) -> u32 {
    match group_number(found, k) {
        Some(n) => n,
        None => 1,
    }
}

/// The marker that a match denotes: season in group 1, episode in group 2, and,
/// where the pattern has ranges, the last episode in group 3.
pub open spec fn marker_of(found: FoundView, ranged: bool) -> MarkerView {
    MarkerView {
        text: found.matched(),
        season: group_number_or_one(found, 1),
        episode: group_number_or_one(found, 2),
        episode_end: if ranged {
            group_number(found, 3)
        } else {
            None
        },
    }
}

fn number_in(found: &Found, k: usize) -> (res: Option<u32>)
    ensures
        res == group_number(found@, k as int),
{
    match found.group(k) {
        Some(digits) => number::parse_u32(digits.as_str()),
        None => None,
    }
}

/// Reads the marker that a match denotes.
pub fn read_marker(found: &Found, ranged: bool) -> (res: Marker)
    ensures
        res@ == marker_of(found@, ranged),
{
    Marker {
        text: found.text(),
        season: match number_in(found, 1) {
            Some(n) => n,
            None => 1,
        },
        episode: match number_in(found, 2) {
            Some(n) => n,
            None => 1,
        },
        episode_end: if ranged {
            number_in(found, 3)
        } else {
            None
        },
    }
}

/// The matches of the three marker styles in a name.
pub struct Markers {
    pub compact: Vec<Found>,
    pub worded: Vec<Found>,
    pub crossed: Vec<Found>,
}

/// The matches of the marker styles as sequences.
pub struct MarkersView {
    pub compact: Seq<FoundView>,
    pub worded: Seq<FoundView>,
    pub crossed: Seq<FoundView>,
}

impl View for Markers {
    type V = MarkersView;

    open spec fn view(&self) -> MarkersView {
        MarkersView {
            compact: pattern::found_views(self.compact@),
            worded: pattern::found_views(self.worded@),
            crossed: pattern::found_views(self.crossed@),
        }
    }
}

impl MarkersView {
    /// The matches of all styles, in order of specificity.
    pub open spec fn all(self) -> Seq<FoundView> {
        self.compact + self.worded + self.crossed
    }

    /// The first marker among the styles, in order of specificity. Only the
    /// compact style has ranges.
    pub open spec fn chosen(self) -> Option<MarkerView> {
        if self.all().len() > 0 {
            Some(marker_of(self.all()[0], self.compact.len() > 0))
        } else {
            None
        }
    }
}

impl Markers {
    /// The match at `i` among those of all styles.
    fn get(&self, i: usize) -> (res: Option<&Found>)
        ensures
            match res {
                Some(found) => i < self@.all().len() && self@.all()[i as int] == found@,
                None => i >= self@.all().len(),
            },
    {
        let mut k: usize = i;
        if k < self.compact.len() {
            return Some(&self.compact[k]);
        }
        k -= self.compact.len();
        if k < self.worded.len() {
            return Some(&self.worded[k]);
        }
        k -= self.worded.len();
        if k < self.crossed.len() {
            return Some(&self.crossed[k]);
        }
        None
    }
}

/// The episode markers in a normalized file name, in any style.
pub open spec fn markers_in(name: Seq<char>) -> MarkersView {
    MarkersView {
        compact: pattern::regex_captures_iter(SEASON_EPISODE@, name),
        worded: pattern::regex_captures_iter(SEASON_EPISODE_WORDS@, name),
        crossed: pattern::regex_captures_iter(SEASON_EPISODE_X@, name),
    }
}

/// The episode marker by which a normalized file name is read.
pub open spec fn marker_in(name: Seq<char>) -> Option<MarkerView> {
    markers_in(name).chosen()
}

/// Chooses among the matches of the three marker styles.
pub fn choose_marker(markers: &Markers) -> (res: Option<Marker>)
    ensures
        marker_view(res) == markers@.chosen(),
{
    match markers.get(0) {
        Some(found) => Some(read_marker(found, markers.compact.len() > 0)),
        None => None,
    }
}

fn find_markers(name: &str) -> (res: Markers)
    ensures
        res@ == markers_in(name@),
{
    Markers {
        compact: pattern::captures_iter(SEASON_EPISODE, name),
        worded: pattern::captures_iter(SEASON_EPISODE_WORDS, name),
        crossed: pattern::captures_iter(SEASON_EPISODE_X, name),
    }
}

/// The text before a year.
pub open spec fn before_year(part: Seq<char>, year: Option<FoundView>) -> Seq<char> {
    match year {
        Some(found) => found.before,
        None => part,
    }
}

/// The number of a year that was found.
pub open spec fn year_number(year: Option<FoundView>) -> Option<u32> {
    match year {
        Some(found) => group_number(found, 1),
        None => None,
    }
}

/// A title, or the whole normalized name where no title is left.
pub open spec fn title_or_name(title: Seq<char>, name: Seq<char>) -> Seq<char> {
    if title.len() == 0 {
        text::trimmed(name, CharSet::Space)
    } else {
        title
    }
}

/// The title in a part of a normalized name: what stands before its year and
/// before its first junk tag, in title case.
pub open spec fn title_in(part: Seq<char>, year: Option<FoundView>) -> Seq<char> {
    let head = before_year(part, year);
    cleaned_title(without_junk(head, pattern::regex_captures(JUNK_TAGS@, head)))
}

/// The part of a normalized name before the first occurrence of a marker's text.
pub open spec fn series_part(name: Seq<char>, marker: Seq<char>) -> Seq<char> {
    match text::find_from(name, marker, 0) {
        Some(i) => name.take(i),
        None => name,
    }
}

/// An episode range that ends after its first episode; anything else is none.
pub open spec fn increasing_end(episode: u32, episode_end: Option<u32>) -> Option<u32> {
    match episode_end {
        Some(end) => if end > episode {
            Some(end)
        } else {
            None
        },
        None => None,
    }
}

/// The episode that a marker in a normalized name denotes.
pub open spec fn episode_guess(
    name: Seq<char>,
    marker: Seq<char>,
    season: u32,
    episode: u32,
    episode_end: Option<u32>,
) -> GuessView {
    let part = series_part(name, marker);
    let year = pattern::regex_captures(YEAR@, part);
    GuessView::Episode {
        series: title_or_name(title_in(part, year), name),
        season,
        episode,
        episode_end: increasing_end(episode, episode_end),
        year: year_number(year),
    }
}

/// The movie that a normalized name denotes.
pub open spec fn movie_guess(name: Seq<char>) -> GuessView {
    let year = pattern::regex_captures(YEAR@, name);
    GuessView::Movie {
        title: title_or_name(title_in(name, year), name),
        year: year_number(year),
    }
}

/// What a normalized name says: an episode where it has a marker, else a movie.
pub open spec fn guessed(name: Seq<char>) -> GuessView {
    match marker_in(name) {
        Some(m) => episode_guess(name, m.text, m.season, m.episode, m.episode_end),
        None => movie_guess(name),
    }
}

/// Takes the year off a part of a name: what stands before it, and its number.
pub fn split_year(part: &str, year: &Option<Found>) -> (res: (String, Option<u32>))
    ensures
        res.0@ == before_year(part@, pattern::found_view(*year)),
        res.1 == year_number(pattern::found_view(*year)),
{
    match year {
        Some(found) => (found.before.clone(), number_in(found, 1)),
        None => (String::from_str(part), None),
    }
}

fn find_title(part: &str, name: &str) -> (res: (String, Option<u32>))
    ensures
        res.0@ == title_or_name(title_in(part@, pattern::regex_captures(YEAR@, part@)), name@),
        res.1 == year_number(pattern::regex_captures(YEAR@, part@)),
{
    let (head, year) = split_year(part, &pattern::captures(YEAR, part));
    let title = clean_title(strip_junk(head.as_str()).as_str());
    if title.as_str().is_empty() {
        (text::trim(name, CharSet::Space), year)
    } else {
        (title, year)
    }
}

/// Builds the guess for a name with an episode marker.
pub fn build_episode(
    normalized: &str,
    marker: &str,
    season: u32,
    episode: u32,
    episode_end: Option<u32>,
) -> (res: Guess)
    ensures
        res@ == episode_guess(normalized@, marker@, season, episode, episode_end),
{
    let part = match text::find_text(normalized, marker) {
        Some(i) => {
            let letters = text::to_chars(normalized);
            assert(normalized@.take(i as int) =~= normalized@.subrange(0, i as int));
            text::from_chars(&letters, 0, i)
        },
        None => String::from_str(normalized),
    };
    let (series, year) = find_title(part.as_str(), normalized);
    Guess::Episode {
        series,
        season,
        episode,
        episode_end: match episode_end {
            Some(end) => if end > episode {
                Some(end)
            } else {
                None
            },
            None => None,
        },
        year,
    }
}

/// Guesses what a file name stem denotes.
pub fn parse_guess(stem: &str) -> (res: Guess)
    ensures
        res@ == guessed(normalized(stem@)),
{
    let name = normalize_separators(stem);
    match choose_marker(&find_markers(name.as_str())) {
        Some(m) => build_episode(
            name.as_str(),
            m.text.as_str(),
            m.season,
            m.episode,
            m.episode_end,
        ),
        None => {
            let (title, year) = find_title(name.as_str(), name.as_str());
            Guess::Movie { title, year }
        },
    }
}

/// Why a file name is not taken at its word.
#[derive(Debug, Clone, PartialEq, Eq)]
pub enum ParseError {
    /// Four or more episode digits in a row.
    Ambiguous { marker: String },
    /// More than one episode marker.
    Several { first: String, second: String },
    /// A sequence of episodes that is not one range.
    Unsupported { marker: String },
    /// A range whose last episode does not come after its first.
    NotIncreasing { marker: String },
    /// A range of more than ten episodes.
    TooLong { first: u32, last: u32 },
}

/// An error with its text as a sequence of characters.
pub enum ParseErrorView {
    Ambiguous { marker: Seq<char> },
    Several { first: Seq<char>, second: Seq<char> },
    Unsupported { marker: Seq<char> },
    NotIncreasing { marker: Seq<char> },
    TooLong { first: u32, last: u32 },
}

impl View for ParseError {
    type V = ParseErrorView;

    open spec fn view(&self) -> ParseErrorView {
        match *self {
            ParseError::Ambiguous { marker } => ParseErrorView::Ambiguous { marker: marker@ },
            ParseError::Several { first, second } => ParseErrorView::Several {
                first: first@,
                second: second@,
            },
            ParseError::Unsupported { marker } => ParseErrorView::Unsupported { marker: marker@ },
            ParseError::NotIncreasing { marker } => ParseErrorView::NotIncreasing {
                marker: marker@,
            },
            ParseError::TooLong { first, last } => ParseErrorView::TooLong { first, last },
        }
    }
}

impl ParseErrorView {
    /// The message shown for an error.
    pub open spec fn message(self) -> Seq<char> {
        match self {
            ParseErrorView::Ambiguous { marker } => "ambiguous episode numbering '"@ + marker
                + "': use an explicit range such as S01E03-E04 if you mean episodes 3 through 4; file left unchanged"@,
            ParseErrorView::Several { first, second } => "multiple episode markers '"@ + first
                + "' and '"@ + second
                + "': use one range such as S01E03-E04; file left unchanged"@,
            ParseErrorView::Unsupported { marker } => "unsupported episode sequence '"@ + marker
                + "': use one range such as S01E03-E04; file left unchanged"@,
            ParseErrorView::NotIncreasing { marker } => "invalid episode range '"@ + marker
                + "': the last episode must come after the first; file left unchanged"@,
            ParseErrorView::TooLong { first, last } => range_limit_message(first, last),
        }
    }
}

/// The message shown for a range of more than ten episodes.
pub open spec fn range_limit_message(first: u32, last: u32) -> Seq<char> {
    "multi-episode range E"@ + number::padded(first as nat, 2) + "-E"@ + number::padded(
        last as nat,
        2,
    ) + " exceeds the 10-episode safety limit"@
}

/// Writes the message for a range of more than ten episodes.
pub fn range_limit_text(first: u32, last: u32) -> (res: String)
    ensures
        res@ == range_limit_message(first, last),
{
    let mut out = String::from_str("multi-episode range E");
    out.append(number::padded_text(first as u64, 2).as_str());
    out.append("-E");
    out.append(number::padded_text(last as u64, 2).as_str());
    out.append(" exceeds the 10-episode safety limit");
    out
}

impl ParseError {
    /// The message shown for this error.
    pub fn message(&self) -> (res: String)
        ensures
            res@ == self@.message(),
    {
        match self {
            ParseError::Ambiguous { marker } => {
                let mut out = String::from_str("ambiguous episode numbering '");
                out.append(marker.as_str());
                out.append(
                    "': use an explicit range such as S01E03-E04 if you mean episodes 3 through 4; file left unchanged",
                );
                out
            },
            ParseError::Several { first, second } => {
                let mut out = String::from_str("multiple episode markers '");
                out.append(first.as_str());
                out.append("' and '");
                out.append(second.as_str());
                out.append("': use one range such as S01E03-E04; file left unchanged");
                out
            },
            ParseError::Unsupported { marker } => {
                let mut out = String::from_str("unsupported episode sequence '");
                out.append(marker.as_str());
                out.append("': use one range such as S01E03-E04; file left unchanged");
                out
            },
            ParseError::NotIncreasing { marker } => {
                let mut out = String::from_str("invalid episode range '");
                out.append(marker.as_str());
                out.append("': the last episode must come after the first; file left unchanged");
                out
            },
            ParseError::TooLong { first, last } => range_limit_text(*first, *last),
        }
    }
}

/// What is wrong with the episode numbers of a name, given the ambiguous
/// numbering, the unsupported sequence and the markers that were found in it.
pub open spec fn numbering_error(
    ambiguous: Option<FoundView>,
    unsupported: Option<FoundView>,
    markers: MarkersView,
) -> Option<ParseErrorView> {
    if ambiguous is Some {
        Some(ParseErrorView::Ambiguous { marker: (ambiguous->0).matched() })
    } else if markers.all().len() > 1 {
        Some(
            ParseErrorView::Several {
                first: markers.all()[0].matched(),
                second: markers.all()[1].matched(),
            },
        )
    } else if unsupported is Some {
        Some(ParseErrorView::Unsupported { marker: (unsupported->0).matched() })
    } else {
        match markers.chosen() {
            Some(m) => range_error(m),
            None => None,
        }
    }
}

/// What is wrong with the range of a marker: it does not increase, or it covers
/// too many episodes.
pub open spec fn range_error(m: MarkerView) -> Option<ParseErrorView> {
    match m.episode_end {
        Some(end) => if end <= m.episode {
            Some(ParseErrorView::NotIncreasing { marker: m.text })
        } else if end - m.episode >= MAX_RANGE {
            Some(ParseErrorView::TooLong { first: m.episode, last: end })
        } else {
            None
        },
        None => None,
    }
}

/// What is wrong with the episode numbers of a normalized name.
pub open spec fn name_error(name: Seq<char>) -> Option<ParseErrorView> {
    numbering_error(
        pattern::regex_captures(AMBIGUOUS_EPISODE@, name),
        pattern::regex_captures(UNSUPPORTED_SEQUENCE@, name),
        markers_in(name),
    )
}

/// Judges the episode numbers of a name by what was found in it.
pub fn check_numbering(
    ambiguous: &Option<Found>,
    unsupported: &Option<Found>,
    markers: &Markers,
) -> (res: Result<(), ParseError>)
    ensures
        match res {
            Ok(()) => numbering_error(
                pattern::found_view(*ambiguous),
                pattern::found_view(*unsupported),
                markers@,
            ) is None,
            Err(e) => numbering_error(
                pattern::found_view(*ambiguous),
                pattern::found_view(*unsupported),
                markers@,
            ) == Some(e@),
        },
{
    if let Some(found) = ambiguous {
        return Err(ParseError::Ambiguous { marker: found.text() });
    }
    if let Some(second) = markers.get(1) {
        if let Some(first) = markers.get(0) {
            return Err(ParseError::Several { first: first.text(), second: second.text() });
        }
    }
    if let Some(found) = unsupported {
        return Err(ParseError::Unsupported { marker: found.text() });
    }
    if let Some(m) = choose_marker(markers) {
        if let Some(end) = m.episode_end {
            if end <= m.episode {
                return Err(ParseError::NotIncreasing { marker: m.text });
            }
            if end - m.episode >= MAX_RANGE {
                return Err(ParseError::TooLong { first: m.episode, last: end });
            }
        }
    }
    Ok(())
}

/// Parses a file name stem (no extension, no directory) into a best-effort
/// guess: whether it is a movie or an episode, with its title, year, season and
/// episodes. Episode numbers that could be read in two ways are refused.
pub fn parse_filename(stem: &str) -> (res: Result<Guess, ParseError>)
    ensures
        match res {
            Ok(guess) => name_error(normalized(stem@)) is None && guess@ == guessed(
                normalized(stem@),
            ),
            Err(e) => name_error(normalized(stem@)) == Some(e@),
        },
{
    let name = normalize_separators(stem);
    let ambiguous = pattern::captures(AMBIGUOUS_EPISODE, name.as_str());
    let unsupported = pattern::captures(UNSUPPORTED_SEQUENCE, name.as_str());
    let markers = find_markers(name.as_str());
    match check_numbering(&ambiguous, &unsupported, &markers) {
        Ok(()) => Ok(parse_guess(stem)),
        Err(e) => Err(e),
    }
}

/// A normalized name holds no dot and no underscore, and its white space is
/// one blank at a time between other characters.
pub proof fn law_normalized_names_are_words(stem: Seq<char>)
    ensures
        forall|i: int|
            0 <= i < normalized(stem).len() ==> #[trigger] normalized(stem)[i] != '.'
                && normalized(stem)[i] != '_',
        text::spaced_once(normalized(stem)),
{
    reveal_strlit("_");
    reveal_strlit(".");
    reveal_strlit(" ");
    assert("_"@ =~= seq!['_']);
    assert("."@ =~= seq!['.']);
    let no_line = |c: char| c != '_';
    let plain = |c: char| c != '_' && c != '.';
    let a = text::replaced(stem, "_"@, " "@);
    let b = text::replaced(a, "."@, " "@);
    let c = text::replaced(b, " - "@, " "@);
    text::lemma_replaced_char(stem, '_', " "@, no_line);
    assert forall|i: int| 0 <= i < a.len() && a[i] != '.' implies plain(#[trigger] a[i]) by {
        assert(no_line(a[i]));
    }
    text::lemma_replaced_char(a, '.', " "@, plain);
    text::lemma_replaced_chars(b, " - "@, " "@, plain);
    text::lemma_collapsed(c, plain);
    assert forall|i: int| 0 <= i < normalized(stem).len() implies #[trigger] normalized(stem)[i]
        != '.' && normalized(stem)[i] != '_' by {
        assert(plain(normalized(stem)[i]));
    }
}

/// The title of a guess is empty only where the name holds no word at all.
pub proof fn law_titles_are_not_empty(name: Seq<char>)
    ensures
        match guessed(name) {
            GuessView::Movie { title, .. } => title.len() == 0 ==> text::trimmed(
                name,
                CharSet::Space,
            ).len() == 0,
            GuessView::Episode { series, .. } => series.len() == 0 ==> text::trimmed(
                name,
                CharSet::Space,
            ).len() == 0,
        },
{
}

/// A name that is accepted holds at most one episode marker, whatever its style:
/// it is read as an episode by that marker, and as a movie where there is none.
pub proof fn law_accepted_names_hold_one_marker(name: Seq<char>)
    requires
        name_error(name) is None,
    ensures
        pattern::regex_captures_iter(SEASON_EPISODE@, name).len()
            + pattern::regex_captures_iter(SEASON_EPISODE_WORDS@, name).len()
            + pattern::regex_captures_iter(SEASON_EPISODE_X@, name).len() <= 1,
        match guessed(name) {
            GuessView::Episode { season, episode, .. } => {
                &&& markers_in(name).all().len() == 1
                &&& season == group_number_or_one(markers_in(name).all()[0], 1)
                &&& episode == group_number_or_one(markers_in(name).all()[0], 2)
            },
            GuessView::Movie { .. } => markers_in(name).all().len() == 0,
        },
{
}

/// A name that is accepted denotes a range that increases and covers at most
/// ten episodes, or a single episode, and keeps the last episode of its marker.
pub proof fn law_accepted_ranges_are_short_and_increasing(name: Seq<char>)
    requires
        name_error(name) is None,
    ensures
        match guessed(name) {
            GuessView::Episode { episode, episode_end, .. } => {
                &&& marker_in(name) is Some
                &&& episode_end == (marker_in(name)->0).episode_end
                &&& episode_end matches Some(end) ==> episode < end && end - episode < MAX_RANGE
            },
            GuessView::Movie { .. } => marker_in(name) is None,
        },
{
}

/// Whether the white space of a text is blanks.
pub open spec fn has_blanks_only(s: Seq<char>) -> bool {
    forall|i: int| 0 <= i < s.len() && chars::is_space(#[trigger] s[i]) ==> s[i] == ' '
}

proof fn lemma_title_core(x: Seq<char>)
    requires
        has_blanks_only(x),
    ensures
        text::trimmed(text::trimmed(x, CharSet::Space), CharSet::Padding) == text::trimmed(
            x,
            CharSet::Padding,
        ),
{
    assert forall|i: int| 0 <= i < x.len() && CharSet::Space.contains(#[trigger] x[i]) implies
        CharSet::Padding.contains(x[i]) by {
        assert(chars::is_space(x[i]));
    }
    text::lemma_trimmed_after_trimmed(x, CharSet::Space, CharSet::Padding);
}

proof fn lemma_padding_is_cleaned_off(x: Seq<char>)
    requires
        has_blanks_only(x),
    ensures
        cleaned_title(text::trimmed(x, CharSet::Padding)) == cleaned_title(x),
{
    let y = text::trimmed(x, CharSet::Padding);
    let p = |c: char| chars::is_space(c) ==> c == ' ';
    text::lemma_trimmed_chars(x, CharSet::Padding, p);
    assert(has_blanks_only(y)) by {
        assert forall|i: int| 0 <= i < y.len() && chars::is_space(#[trigger] y[i]) implies y[i]
            == ' ' by {
            assert(p(y[i]));
        }
    }
    lemma_title_core(x);
    lemma_title_core(y);
    text::lemma_trimmed_after_trimmed(x, CharSet::Padding, CharSet::Padding);
}

/// Brackets, dashes, dots and blanks around a title are no part of it: the title
/// of a text is that of what stands between them.
pub proof fn law_titles_lose_their_padding(left: Seq<char>, core: Seq<char>, right: Seq<char>)
    requires
        has_blanks_only(core),
        forall|i: int| 0 <= i < left.len() ==> chars::is_padding(#[trigger] left[i]),
        forall|i: int| 0 <= i < right.len() ==> chars::is_padding(#[trigger] right[i]),
        core.len() > 0,
        !chars::is_padding(core[0]),
        !chars::is_padding(core.last()),
    ensures
        cleaned_title(left + core + right) == cleaned_title(core),
{
    let all = left + core + right;
    assert(has_blanks_only(all)) by {
        assert forall|i: int| 0 <= i < all.len() && chars::is_space(#[trigger] all[i]) implies all[i]
            == ' ' by {
            if i < left.len() {
                assert(chars::is_padding(left[i]));
            } else if i < left.len() + core.len() {
                assert(all[i] == core[i - left.len()]);
            } else {
                assert(chars::is_padding(right[i - left.len() - core.len()]));
            }
        }
    }
    assert forall|i: int| 0 <= i < left.len() implies CharSet::Padding.contains(
        #[trigger] left[i],
    ) by {
        assert(chars::is_padding(left[i]));
    }
    assert forall|i: int| 0 <= i < right.len() implies CharSet::Padding.contains(
        #[trigger] right[i],
    ) by {
        assert(chars::is_padding(right[i]));
    }
    text::law_trimming_takes_the_ends_off(left, core, right, CharSet::Padding);
    text::lemma_trimmed_fixed(core, CharSet::Padding);
    lemma_title_core(all);
    lemma_title_core(core);
}

/// The title of two texts with a blank between them is the two titles with a
/// blank between them: each word is put in title case on its own.
pub proof fn law_titles_are_cased_word_by_word(a: Seq<char>, b: Seq<char>)
    requires
        a.len() > 0,
        b.len() > 0,
        has_blanks_only(a),
        has_blanks_only(b),
        !chars::is_padding(a[0]) && !chars::is_padding(a.last()),
        !chars::is_padding(b[0]) && !chars::is_padding(b.last()),
    ensures
        cleaned_title(a.push(' ') + b) == cleaned_title(a) + " "@ + cleaned_title(b),
{
    let all = a.push(' ') + b;
    assert(has_blanks_only(all)) by {
        assert forall|i: int| 0 <= i < all.len() && chars::is_space(#[trigger] all[i]) implies all[i]
            == ' ' by {
            if i < a.len() {
                assert(all[i] == a[i]);
            } else if i > a.len() {
                assert(all[i] == b[i - a.len() - 1]);
            }
        }
    }
    lemma_title_core(all);
    lemma_title_core(a);
    lemma_title_core(b);
    text::lemma_trimmed_fixed(a, CharSet::Padding);
    text::lemma_trimmed_fixed(b, CharSet::Padding);
    assert(all[0] == a[0] && all.last() == b.last());
    text::lemma_trimmed_fixed(all, CharSet::Padding);
    text::law_texts_are_split_at_the_set(a, ' ', b, CharSet::Blank);
    let x = text::split(a, CharSet::Blank);
    let y = text::split(b, CharSet::Blank);
    text::lemma_split_nonempty(a, CharSet::Blank);
    text::lemma_split_nonempty(b, CharSet::Blank);
    assert(title_words(x + y) =~= title_words(x) + title_words(y));
    text::law_joining_separates_pieces(title_words(x), title_words(y), " "@);
}

/// A single ASCII word is kept as it is where it mixes capitals and small
/// letters, and is otherwise written with a capital and small letters.
pub proof fn law_words_are_put_in_title_case(w: Seq<char>, i: int)
    requires
        chars::is_ascii_text(w),
        w.len() > 0,
        !chars::is_padding(w[0]) && !chars::is_padding(w.last()),
        forall|k: int| 0 <= k < w.len() ==> !chars::is_space(#[trigger] w[k]),
        0 <= i < w.len(),
    ensures
        cleaned_title(w).len() == w.len(),
        (exists|j: int, k: int|
            0 <= j < w.len() && 0 <= k < w.len() && 'A' <= #[trigger] w[j] <= 'Z' && 'a'
                <= #[trigger] w[k] <= 'z') ==> cleaned_title(w) == w,
        !(exists|j: int, k: int|
            0 <= j < w.len() && 0 <= k < w.len() && 'A' <= #[trigger] w[j] <= 'Z' && 'a'
                <= #[trigger] w[k] <= 'z') ==> {
            &&& i == 0 && 'a' <= w[i] <= 'z' ==> cleaned_title(w)[i] as int == w[i] as int - 32
            &&& i > 0 && 'A' <= w[i] <= 'Z' ==> cleaned_title(w)[i] as int == w[i] as int + 32
            &&& i == 0 && !('a' <= w[i] <= 'z') ==> cleaned_title(w)[i] == w[i]
            &&& i > 0 && !('A' <= w[i] <= 'Z') ==> cleaned_title(w)[i] == w[i]
        },
{
    assert(has_blanks_only(w));
    lemma_title_core(w);
    text::lemma_trimmed_fixed(w, CharSet::Padding);
    assert forall|k: int| 0 <= k < w.len() implies !CharSet::Blank.contains(#[trigger] w[k]) by {
        assert(!chars::is_space(w[k]));
    }
    text::law_texts_are_split_at_the_set(w, ' ', Seq::empty(), CharSet::Blank);
    assert(title_words(seq![w]) =~= seq![title_word(w)]);
    assert(cleaned_title(w) == title_word(w));
    chars::law_ascii_texts_are_mapped_letter_by_letter(w, i);
    if has_upper(w) && has_lower(w) {
        let j = choose|j: int| 0 <= j < w.len() && chars::is_uppercase(#[trigger] w[j]);
        let k = choose|k: int| 0 <= k < w.len() && chars::is_lowercase(#[trigger] w[k]);
        assert(chars::is_ascii_char(w[j]) && chars::is_ascii_char(w[k]));
        assert('A' <= w[j] <= 'Z' && 'a' <= w[k] <= 'z');
    }
    if exists|j: int, k: int|
        0 <= j < w.len() && 0 <= k < w.len() && 'A' <= #[trigger] w[j] <= 'Z' && 'a'
            <= #[trigger] w[k] <= 'z' {
        let (j, k) = choose|j: int, k: int|
            0 <= j < w.len() && 0 <= k < w.len() && 'A' <= #[trigger] w[j] <= 'Z' && 'a'
                <= #[trigger] w[k] <= 'z';
        assert(chars::is_uppercase(w[j]));
        assert(chars::is_lowercase(w[k]));
    }
}

/// What is left of a part of a name as its title: it ends where the year begins,
/// where there is one, and then where the first junk tag begins, where there is
/// one.
pub open spec fn is_title_text(part: Seq<char>, head: Seq<char>, title: Seq<char>) -> bool {
    &&& match pattern::regex_captures(YEAR@, part) {
        Some(year) => head == year.before,
        None => head == part,
    }
    &&& match pattern::regex_captures(JUNK_TAGS@, head) {
        Some(tag) => title == tag.before,
        None => title == head,
    }
}

/// The number of the year in a part of a name.
pub open spec fn is_year_of(part: Seq<char>, year: Option<u32>) -> bool {
    match pattern::regex_captures(YEAR@, part) {
        Some(found) => found.groups.len() > 1 && found.groups[1] is Some ==> year
            == number::u32_value(found.groups[1]->0),
        None => year is None,
    }
}

proof fn lemma_title_in(part: Seq<char>, head: Seq<char>, title: Seq<char>)
    requires
        is_title_text(part, head, title),
        has_blanks_only(title),
    ensures
        title_in(part, pattern::regex_captures(YEAR@, part)) == cleaned_title(title),
{
    lemma_padding_is_cleaned_off(title);
}

/// A name without an episode marker is a movie. Its title is made of exactly the
/// words before its year and before the first junk tag, in title case; where no
/// word is left there, it is the whole name. Its year is the one found.
pub proof fn law_movie_titles_end_before_year_and_junk(
    name: Seq<char>,
    head: Seq<char>,
    title: Seq<char>,
)
    requires
        pattern::regex_captures_iter(SEASON_EPISODE@, name).len() == 0,
        pattern::regex_captures_iter(SEASON_EPISODE_WORDS@, name).len() == 0,
        pattern::regex_captures_iter(SEASON_EPISODE_X@, name).len() == 0,
        is_title_text(name, head, title),
        has_blanks_only(title),
    ensures
        guessed(name) matches GuessView::Movie { title: t, year } && is_year_of(name, year) && (
        cleaned_title(title).len() > 0 ==> t == cleaned_title(title)) && (cleaned_title(title).len()
            == 0 ==> t == text::trimmed(name, CharSet::Space)),
{
    lemma_title_in(name, head, title);
}

/// Whether a number is the one in a group of a match, or one where there is none.
pub open spec fn is_number_of(marker: FoundView, k: int, n: u32) -> bool {
    if k < marker.groups.len() && marker.groups[k] is Some && number::u32_value(
        marker.groups[k]->0,
    ) is Some {
        number::u32_value(marker.groups[k]->0) == Some(n)
    } else {
        n == 1
    }
}

/// A name with an episode marker is an episode: of the first compact marker, or
/// else of the first in words, or else of the first with a cross. Its season and
/// episodes are the numbers in that marker; its series is made of exactly the
/// words before the marker, before their year and before their first junk tag.
pub proof fn law_series_end_before_marker_year_and_junk(
    name: Seq<char>,
    marker: FoundView,
    before: Seq<char>,
    after: Seq<char>,
    head: Seq<char>,
    title: Seq<char>,
)
    requires
        ({
            let compact = pattern::regex_captures_iter(SEASON_EPISODE@, name);
            let worded = pattern::regex_captures_iter(SEASON_EPISODE_WORDS@, name);
            let crossed = pattern::regex_captures_iter(SEASON_EPISODE_X@, name);
            ||| compact.len() > 0 && marker == compact[0]
            ||| compact.len() == 0 && worded.len() > 0 && marker == worded[0]
            ||| compact.len() == 0 && worded.len() == 0 && crossed.len() > 0 && marker == crossed[0]
        }),
        marker.groups.len() > 2,
        marker.groups[0] is Some,
        name == before + marker.groups[0]->0 + after,
        forall|i: int|
            0 <= i < before.len() ==> !#[trigger] text::occurs_at(name, marker.groups[0]->0, i),
        is_title_text(before, head, title),
        has_blanks_only(title),
    ensures
        match guessed(name) {
            GuessView::Movie { .. } => false,
            GuessView::Episode { series, season, episode, episode_end, year } => {
                let compact = pattern::regex_captures_iter(SEASON_EPISODE@, name);
                &&& is_year_of(before, year)
                &&& cleaned_title(title).len() > 0 ==> series == cleaned_title(title)
                &&& cleaned_title(title).len() == 0 ==> series == text::trimmed(
                    name,
                    CharSet::Space,
                )
                &&& is_number_of(marker, 1, season)
                &&& is_number_of(marker, 2, episode)
                &&& compact.len() == 0 ==> episode_end is None
                &&& episode_end matches Some(last) ==> last > episode && is_number_of(
                    marker,
                    3,
                    last,
                )
                &&& episode_end is None && compact.len() > 0 && marker.groups.len() > 3 ==> {
                    ||| marker.groups[3] is None
                    ||| number::u32_value(marker.groups[3]->0) is None
                    ||| number::u32_value(marker.groups[3]->0)->0 <= episode
                }
            },
        },
{
    assert(markers_in(name).all()[0] == marker);
    let shown = marker.groups[0]->0;
    text::law_texts_are_found_where_they_stand(before, shown, after);
    text::lemma_found_first(name, shown, 0);
    assert(text::find_from(name, shown, 0) == Some(before.len() as int));
    assert(name.take(before.len() as int) =~= before);
    lemma_title_in(before, head, title);
}

/// A title does not depend on what its first junk tag is or on what follows it:
/// parts of names with the same words before the year or the first tag have the
/// same title, and a blank before the tag is no part of it.
pub proof fn law_titles_do_not_reach_into_junk(
    p: Seq<char>,
    rest: Seq<char>,
    tag: FoundView,
)
    requires
        has_blanks_only(p),
        pattern::regex_captures(YEAR@, p.push(' ') + rest) is None,
        pattern::regex_captures(JUNK_TAGS@, p.push(' ') + rest) == Some(tag),
        tag.before == p.push(' '),
    ensures
        title_in(p.push(' ') + rest, None) == cleaned_title(p),
{
    let part = p.push(' ') + rest;
    let q = p.push(' ');
    assert(has_blanks_only(q)) by {
        assert forall|i: int| 0 <= i < q.len() && chars::is_space(#[trigger] q[i]) implies q[i]
            == ' ' by {
            if i < p.len() {
                assert(q[i] == p[i]);
            }
        }
    }
    lemma_title_in(part, part, q);
    lemma_title_core(p);
    lemma_title_core(q);
    text::lemma_trimmed_behind(p, ' ', CharSet::Padding);
}

/// A name is refused just for four or more episode digits, a second marker, a
/// sequence that no range denotes, or a range that does not increase or covers
/// more than ten episodes; any other name is accepted. What is reported is the
/// text or the numbers at fault.
pub proof fn law_only_doubtful_numbering_is_refused(
    ambiguous: Option<FoundView>,
    unsupported: Option<FoundView>,
    markers: MarkersView,
)
    ensures
        ambiguous is Some && (ambiguous->0).groups.len() > 0 && (ambiguous->0).groups[0] is Some
            ==> numbering_error(ambiguous, unsupported, markers) == Some(
            ParseErrorView::Ambiguous { marker: (ambiguous->0).groups[0]->0 },
        ),
        ambiguous is None && markers.compact.len() + markers.worded.len() + markers.crossed.len() > 1
            ==> numbering_error(ambiguous, unsupported, markers) is Some && numbering_error(
            ambiguous,
            unsupported,
            markers,
        )->0 is Several,
        ambiguous is None && markers.compact.len() + markers.worded.len() + markers.crossed.len()
            <= 1 && unsupported is Some && (unsupported->0).groups.len() > 0 && (
        unsupported->0).groups[0] is Some ==> numbering_error(ambiguous, unsupported, markers) == Some(
            ParseErrorView::Unsupported { marker: (unsupported->0).groups[0]->0 },
        ),
        ambiguous is None && unsupported is None && markers.compact.len() + markers.worded.len()
            + markers.crossed.len() <= 1 && markers.compact.len() == 0 ==> numbering_error(
            ambiguous,
            unsupported,
            markers,
        ) is None,
        ambiguous is None && unsupported is None && markers.compact.len() == 1
            && markers.worded.len() + markers.crossed.len() == 0 ==> ({
            let m = marker_of(markers.compact[0], true);
            let error = numbering_error(ambiguous, unsupported, markers);
            &&& m.episode_end is None ==> error is None
            &&& m.episode_end matches Some(last) ==> {
                &&& last <= m.episode ==> error == Some(
                    ParseErrorView::NotIncreasing { marker: m.text },
                )
                &&& m.episode < last <= m.episode + 9 ==> error is None
                &&& last > m.episode + 9 ==> error == Some(
                    ParseErrorView::TooLong { first: m.episode, last },
                )
            }
        }),
{
    let all = markers.all();
    if markers.compact.len() == 1 {
        assert(all[0] == markers.compact[0]);
    }
}

proof fn lemma_free_dashes_apart(x: Seq<char>, z: Seq<char>)
    requires
        x.len() > 0 ==> x.last() != ' ' && x.last() != '-',
    ensures
        text::replaced(x + z, seq![' ', '-', ' '], seq![' ']) == text::replaced(
            x,
            seq![' ', '-', ' '],
            seq![' '],
        ) + text::replaced(z, seq![' ', '-', ' '], seq![' ']),
    decreases x.len(),
{
    let from = seq![' ', '-', ' '];
    let to = seq![' '];
    let all = x + z;
    if x.len() == 0 {
        assert(all =~= z);
        assert(text::replaced(x, from, to) =~= Seq::empty());
        assert(Seq::empty() + text::replaced(z, from, to) =~= text::replaced(z, from, to));
    } else if x.len() >= 3 && x.take(3) == from {
        let rest = x.skip(3);
        assert(x[2] == x.take(3)[2]);
        assert(rest.len() > 0);
        assert(rest.last() == x.last());
        lemma_free_dashes_apart(rest, z);
        assert(all.take(3) =~= x.take(3));
        assert(all.skip(3) =~= rest + z);
        assert(text::replaced(all, from, to) =~= text::replaced(x, from, to) + text::replaced(
            z,
            from,
            to,
        ));
    } else {
        let rest = x.skip(1);
        if rest.len() > 0 {
            assert(rest.last() == x.last());
        }
        lemma_free_dashes_apart(rest, z);
        assert(all.skip(1) =~= rest + z);
        if all.len() >= 3 {
            let head = all.take(3);
            if head == from {
                assert(head[0] == ' ' && head[1] == '-' && head[2] == ' ');
                if x.len() >= 3 {
                    assert(head =~= x.take(3));
                }
                assert(head[x.len() - 1] == x.last());
            }
        } else {
            assert(text::replaced(z, from, to) == z);
        }
        assert(text::replaced(x, from, to) =~= seq![x[0]] + text::replaced(rest, from, to)) by {
            if x.len() < 3 {
                assert(text::replaced(rest, from, to) == rest);
                assert(x =~= seq![x[0]] + rest);
            }
        }
        assert(text::replaced(all, from, to) =~= seq![x[0]] + text::replaced(rest + z, from, to)) by {
            if all.len() < 3 {
                assert(text::replaced(rest + z, from, to) == rest + z);
                assert(all =~= seq![x[0]] + (rest + z));
            }
        }
        assert(seq![x[0]] + (text::replaced(rest, from, to) + text::replaced(z, from, to)) =~= (
        seq![x[0]] + text::replaced(rest, from, to)) + text::replaced(z, from, to));
    }
}

/// Whether a text neither begins nor ends in a separator or a dash.
pub open spec fn is_bounded(s: Seq<char>) -> bool {
    &&& s.len() > 0
    &&& !chars::is_space(s[0]) && s[0] != '.' && s[0] != '_' && s[0] != '-'
    &&& !chars::is_space(s.last()) && s.last() != '.' && s.last() != '_' && s.last() != '-'
}

spec fn spaced(s: Seq<char>) -> Seq<char> {
    s.map_values(
        |c: char|
            if c == '_' || c == '.' {
                ' '
            } else {
                c
            },
    )
}

proof fn lemma_normalized(s: Seq<char>)
    ensures
        normalized(s) == text::joined(
            text::words(
                text::replaced(spaced(s), seq![' ', '-', ' '], seq![' ']),
                CharSet::Space,
            ),
            " "@,
        ),
{
    reveal_strlit("_");
    reveal_strlit(".");
    reveal_strlit(" ");
    reveal_strlit(" - ");
    assert("_"@ =~= seq!['_']);
    assert("."@ =~= seq!['.']);
    assert(" "@ =~= seq![' ']);
    assert(" - "@ =~= seq![' ', '-', ' ']);
    text::lemma_replaced_one(s, '_', ' ');
    let a = text::replaced(s, seq!['_'], seq![' ']);
    text::lemma_replaced_one(a, '.', ' ');
    assert(text::replaced(a, seq!['.'], seq![' ']) =~= spaced(s));
}

proof fn lemma_dashes_have_words(x: Seq<char>)
    requires
        x.len() > 0,
        !chars::is_space(x[0]),
    ensures
        text::words(
            text::replaced(x, seq![' ', '-', ' '], seq![' ']),
            CharSet::Space,
        ).len() > 0,
{
    let from = seq![' ', '-', ' '];
    let y = text::replaced(x, from, seq![' ']);
    if x.len() >= 3 {
        assert(x.take(3)[0] == x[0]);
        assert(from[0] == ' ');
        assert(x.take(3) != from);
    }
    assert(y[0] == x[0]);
    text::lemma_has_words(y);
}

/// Between two parts of a name, a dot, an underscore, white space or a dash with
/// blanks around it becomes one blank.
pub proof fn law_separators_become_blanks(a: Seq<char>, c: char, b: Seq<char>)
    requires
        is_bounded(a),
        is_bounded(b),
        c == '.' || c == '_' || chars::is_space(c),
    ensures
        normalized(a.push(c) + b) == normalized(a) + " "@ + normalized(b),
        normalized(a + seq![' ', '-', ' '] + b) == normalized(a) + " "@ + normalized(b),
{
    let from = seq![' ', '-', ' '];
    let to = seq![' '];
    let d = if c == '_' || c == '.' {
        ' '
    } else {
        c
    };
    let x = spaced(a);
    let y = spaced(b);
    assert(x[0] == a[0] && x.last() == a.last());
    assert(y[0] == b[0] && y.last() == b.last());
    let rx = text::replaced(x, from, to);
    let ry = text::replaced(y, from, to);
    lemma_normalized(a);
    lemma_normalized(b);
    lemma_dashes_have_words(x);
    lemma_dashes_have_words(y);
    let first = a.push(c) + b;
    lemma_normalized(first);
    assert(spaced(first) =~= x + (seq![d] + y));
    lemma_free_dashes_apart(x, seq![d] + y);
    let tail = seq![d] + y;
    assert(text::replaced(tail, from, to) =~= seq![d] + ry) by {
        assert(tail.skip(1) =~= y);
        if tail.len() >= 3 {
            assert(tail.take(3)[1] == y[0]);
            assert(from[1] == '-');
        } else {
            assert(ry == y);
        }
    }
    assert(rx + (seq![d] + ry) =~= rx.push(d) + ry);
    text::lemma_collapsed_concat(rx, d, ry);
    let second = a + seq![' ', '-', ' '] + b;
    lemma_normalized(second);
    assert(spaced(second) =~= x + (from + y));
    lemma_free_dashes_apart(x, from + y);
    assert((from + y).take(3) =~= from);
    assert((from + y).skip(3) =~= y);
    assert(rx + (to + ry) =~= rx.push(' ') + ry);
    text::lemma_collapsed_concat(rx, ' ', ry);
}

/// A name without dots, underscores and white space is a word, and kept as it
/// is; separators around a name are dropped.
pub proof fn law_words_are_kept(w: Seq<char>, c: char)
    requires
        is_bounded(w),
        c == '.' || c == '_' || chars::is_space(c),
    ensures
        (forall|i: int|
            0 <= i < w.len() ==> #[trigger] w[i] != '.' && w[i] != '_' && !chars::is_space(w[i]))
            ==> normalized(w) == w,
        normalized(w.push(c)) == normalized(w),
        normalized(seq![c] + w) == normalized(w),
{
    let from = seq![' ', '-', ' '];
    let to = seq![' '];
    let none = Seq::<char>::empty();
    let d = if c == '_' || c == '.' {
        ' '
    } else {
        c
    };
    let x = spaced(w);
    let rx = text::replaced(x, from, to);
    assert(x[0] == w[0] && x.last() == w.last());
    lemma_normalized(w);
    if forall|i: int|
        0 <= i < w.len() ==> #[trigger] w[i] != '.' && w[i] != '_' && !chars::is_space(w[i]) {
        assert(x =~= w);
        assert forall|i: int| !#[trigger] text::occurs_at(w, from, i) by {
            if text::occurs_at(w, from, i) {
                assert(w.subrange(i, i + 3)[0] == from[0]);
                assert(!chars::is_space(w[i]));
            }
        }
        text::lemma_replaced_nowhere(w, from, to);
        assert forall|i: int| 0 <= i < w.len() implies !CharSet::Space.contains(#[trigger] w[i]) by {
            assert(!chars::is_space(w[i]));
        }
        text::law_texts_are_split_at_the_set(w, ' ', none, CharSet::Space);
    }
    let ws = text::words(rx, CharSet::Space);
    lemma_normalized(w.push(c));
    assert(spaced(w.push(c)) =~= x + seq![d]);
    lemma_free_dashes_apart(x, seq![d]);
    assert(text::replaced(seq![d], from, to) == seq![d]);
    assert(rx + seq![d] =~= rx.push(d) + none);
    text::law_texts_are_split_at_the_set(rx, d, none, CharSet::Space);
    assert(ws + Seq::<Seq<char>>::empty() =~= ws);
    let before = seq![c] + w;
    lemma_normalized(before);
    assert(spaced(before) =~= seq![d] + x);
    let tail = seq![d] + x;
    assert(text::replaced(tail, from, to) =~= seq![d] + rx) by {
        assert(tail.skip(1) =~= x);
        if tail.len() >= 3 {
            assert(tail.take(3)[1] == x[0]);
            assert(from[1] == '-');
        } else {
            assert(rx == x);
        }
    }
    assert(seq![d] + rx =~= none.push(d) + rx);
    text::law_texts_are_split_at_the_set(none, d, rx, CharSet::Space);
    assert(Seq::<Seq<char>>::empty() + ws =~= ws);
}

/// A single word of any script is kept as it is where it mixes capitals and small
/// letters, and is otherwise its first character as a capital and the rest in
/// lower case.
pub proof fn law_words_of_any_script_are_put_in_title_case(w: Seq<char>)
    requires
        w.len() > 0,
        !chars::is_padding(w[0]) && !chars::is_padding(w.last()),
        forall|k: int| 0 <= k < w.len() ==> !chars::is_space(#[trigger] w[k]),
    ensures
        (exists|j: int| 0 <= j < w.len() && chars::is_uppercase(#[trigger] w[j])) && (exists|k: int|
            0 <= k < w.len() && chars::is_lowercase(#[trigger] w[k])) ==> cleaned_title(w) == w,
        !((exists|j: int| 0 <= j < w.len() && chars::is_uppercase(#[trigger] w[j])) && (exists|
            k: int,
        |
            0 <= k < w.len() && chars::is_lowercase(#[trigger] w[k]))) ==> cleaned_title(w)
            == chars::upper_chars(w[0]) + chars::lower_text(w.skip(1)),
{
    assert(has_blanks_only(w));
    lemma_title_core(w);
    text::lemma_trimmed_fixed(w, CharSet::Padding);
    assert forall|k: int| 0 <= k < w.len() implies !CharSet::Blank.contains(#[trigger] w[k]) by {
        assert(!chars::is_space(w[k]));
    }
    text::law_texts_are_split_at_the_set(w, ' ', Seq::empty(), CharSet::Blank);
    assert(title_words(seq![w]) =~= seq![title_word(w)]);
}

/// A text of nothing but padding has no title.
pub proof fn law_padding_has_no_title(s: Seq<char>)
    requires
        forall|i: int| 0 <= i < s.len() ==> chars::is_padding(#[trigger] s[i]),
    ensures
        cleaned_title(s).len() == 0,
{
    let none = Seq::<char>::empty();
    assert(has_blanks_only(s)) by {
        assert forall|i: int| 0 <= i < s.len() && chars::is_space(#[trigger] s[i]) implies s[i]
            == ' ' by {
            assert(chars::is_padding(s[i]));
        }
    }
    assert forall|i: int| 0 <= i < s.len() implies CharSet::Padding.contains(#[trigger] s[i]) by {
        assert(chars::is_padding(s[i]));
    }
    text::law_trimming_takes_the_ends_off(s, none, none, CharSet::Padding);
    assert(s + none + none =~= s);
    lemma_title_core(s);
    text::law_texts_are_split_at_the_set(none, ' ', none, CharSet::Blank);
    assert(title_words(seq![none]) =~= seq![none]);
}

/// A dash alone between two separators is one with them.
pub proof fn law_free_dashes_separate(a: Seq<char>, c: char, d: char, b: Seq<char>)
    requires
        is_bounded(a),
        is_bounded(b),
        c == '.' || c == '_' || c == ' ',
        d == '.' || d == '_' || d == ' ',
    ensures
        normalized(a + seq![c, '-', d] + b) == normalized(a) + " "@ + normalized(b),
{
    let dashed = a + seq![c, '-', d] + b;
    let plain = a + seq![' ', '-', ' '] + b;
    lemma_normalized(dashed);
    lemma_normalized(plain);
    assert(spaced(dashed) =~= spaced(plain));
    law_separators_become_blanks(a, ' ', b);
}

/// Where no dash stands alone between blanks, a name is normalized by turning
/// dots and underscores into blanks and collapsing white space.
pub proof fn law_other_dashes_are_kept(s: Seq<char>, flat: Seq<char>)
    requires
        flat == s.map_values(
            |c: char|
                if c == '_' || c == '.' {
                    ' '
                } else {
                    c
                },
        ),
        forall|i: int| !#[trigger] text::occurs_at(flat, " - "@, i),
    ensures
        normalized(s) == text::joined(text::words(flat, CharSet::Space), " "@),
{
    lemma_normalized(s);
    assert(spaced(s) =~= flat);
    reveal_strlit(" - ");
    assert(" - "@ =~= seq![' ', '-', ' ']);
    text::lemma_replaced_nowhere(flat, " - "@, seq![' ']);
}

/// A name is judged by what the patterns for ambiguous and for unsupported
/// numbering find in it, and by all markers of the three styles.
pub proof fn law_names_are_judged_by_their_patterns(name: Seq<char>)
    ensures
        name_error(name) == numbering_error(
            pattern::regex_captures(AMBIGUOUS_EPISODE@, name),
            pattern::regex_captures(UNSUPPORTED_SEQUENCE@, name),
            MarkersView {
                compact: pattern::regex_captures_iter(SEASON_EPISODE@, name),
                worded: pattern::regex_captures_iter(SEASON_EPISODE_WORDS@, name),
                crossed: pattern::regex_captures_iter(SEASON_EPISODE_X@, name),
            },
        ),
{
}

/// A message names what is at fault.
pub proof fn law_messages_name_the_fault(
    marker: Seq<char>,
    second: Seq<char>,
    first: u32,
    last: u32,
)
    ensures
        text::has_text(ParseErrorView::Ambiguous { marker }.message(), marker),
        text::has_text(ParseErrorView::Unsupported { marker }.message(), marker),
        text::has_text(ParseErrorView::NotIncreasing { marker }.message(), marker),
        text::has_text(ParseErrorView::Several { first: marker, second }.message(), marker),
        text::has_text(ParseErrorView::Several { first: marker, second }.message(), second),
        text::has_text(
            ParseErrorView::TooLong { first, last }.message(),
            "E"@ + number::padded(first as nat, 2) + "-E"@ + number::padded(last as nat, 2),
        ),
{
    lemma_quoted_text(
        "ambiguous episode numbering '"@,
        marker,
        "': use an explicit range such as S01E03-E04 if you mean episodes 3 through 4; file left unchanged"@,
    );
    lemma_quoted_text(
        "unsupported episode sequence '"@,
        marker,
        "': use one range such as S01E03-E04; file left unchanged"@,
    );
    lemma_quoted_text(
        "invalid episode range '"@,
        marker,
        "': the last episode must come after the first; file left unchanged"@,
    );
    let tail = "': use one range such as S01E03-E04; file left unchanged"@;
    let head = "multiple episode markers '"@;
    lemma_quoted_text(head, marker, "' and '"@ + second + tail);
    assert(head + marker + ("' and '"@ + second + tail) =~= head + marker + "' and '"@ + second
        + tail);
    lemma_quoted_text(head + marker + "' and '"@, second, tail);
    let a = number::padded(first as nat, 2);
    let b = number::padded(last as nat, 2);
    let range = "E"@ + a + "-E"@ + b;
    let limit = " exceeds the 10-episode safety limit"@;
    reveal_strlit("multi-episode range E");
    reveal_strlit("multi-episode range ");
    reveal_strlit("E");
    assert("multi-episode range E"@ =~= "multi-episode range "@ + "E"@);
    lemma_quoted_text("multi-episode range "@, range, limit);
    assert("multi-episode range "@ + range + limit =~= range_limit_message(first, last));
}

proof fn lemma_quoted_text(before: Seq<char>, quoted: Seq<char>, after: Seq<char>)
    ensures
        text::has_text(before + quoted + after, quoted),
{
    text::law_texts_are_found_where_they_stand(before, quoted, after);
}

/// Where a name has two compact markers, these are the ones reported.
pub proof fn law_the_first_two_markers_are_reported(
    unsupported: Option<FoundView>,
    markers: MarkersView,
)
    requires
        markers.compact.len() > 1,
        markers.compact[0].groups.len() > 0 && markers.compact[0].groups[0] is Some,
        markers.compact[1].groups.len() > 0 && markers.compact[1].groups[0] is Some,
    ensures
        numbering_error(None, unsupported, markers) == Some(
            ParseErrorView::Several {
                first: markers.compact[0].groups[0]->0,
                second: markers.compact[1].groups[0]->0,
            },
        ),
{
    assert(markers.all()[0] == markers.compact[0]);
    assert(markers.all()[1] == markers.compact[1]);
}

/// The resolution, codec, source and release tags that end a title, as they are
/// looked for.
pub open spec fn junk_tags() -> Seq<Seq<char>> {
    seq![
        "480p"@,
        "720p"@,
        "1080p"@,
        "2160p"@,
        "4k"@,
        "uhd"@,
        "hdr10?"@,
        "dv"@,
        "web[-._]?dl"@,
        "webrip"@,
        "web"@,
        "bluray"@,
        "blu-ray"@,
        "bdrip"@,
        "brrip"@,
        "dvdrip"@,
        "dvdscr"@,
        "hdtv"@,
        "hdrip"@,
        "hdcam"@,
        "cam"@,
        "x264"@,
        "x265"@,
        "h264"@,
        "h265"@,
        "hevc"@,
        "avc"@,
        "xvid"@,
        "divx"@,
        "aac"@,
        "ac3"@,
        "dts"@,
        "flac"@,
        "mp3"@,
        "atmos"@,
        r"[257]\.1"@,
        "proper"@,
        "repack"@,
        "extended"@,
        "remastered"@,
        "unrated"@,
        "directors[-._]?cut"@,
        "yify"@,
        "yts"@,
        "rarbg"@,
        "ettv"@,
        "eztv"@,
    ]
}

/// Whether a pattern has a word at a position as one of its alternatives.
pub open spec fn is_alternative_at(pattern: Seq<char>, word: Seq<char>, i: int) -> bool {
    &&& text::occurs_at(pattern, word, i)
    &&& i > 0
    &&& pattern[i - 1] == '|' || pattern[i - 1] == ' '
    &&& i + word.len() < pattern.len()
    &&& pattern[i + word.len()] == '|' || pattern[i + word.len()] == '\n'
}

/// Each of the tags is one of the alternatives that end a title.
pub proof fn law_each_junk_tag_is_looked_for(k: int)
    requires
        0 <= k < junk_tags().len(),
    ensures
        exists|i: int| #[trigger] is_alternative_at(JUNK_TAGS@, junk_tags()[k], i),
{
    lemma_junk_alternatives();
    let places: Seq<int> = seq![
        30,
        35,
        40,
        46,
        52,
        55,
        59,
        66,
        82,
        94,
        101,
        105,
        112,
        120,
        126,
        132,
        139,
        146,
        151,
        157,
        163,
        180,
        185,
        190,
        195,
        200,
        205,
        209,
        214,
        232,
        236,
        240,
        244,
        249,
        253,
        272,
        294,
        301,
        308,
        317,
        328,
        336,
        368,
        373,
        377,
        383,
        388,
    ];
    assert(is_alternative_at(JUNK_TAGS@, junk_tags()[k], places[k]));
}

proof fn lemma_junk_alternatives()
    ensures
        is_alternative_at(JUNK_TAGS@, "480p"@, 30),
        is_alternative_at(JUNK_TAGS@, "720p"@, 35),
        is_alternative_at(JUNK_TAGS@, "1080p"@, 40),
        is_alternative_at(JUNK_TAGS@, "2160p"@, 46),
        is_alternative_at(JUNK_TAGS@, "4k"@, 52),
        is_alternative_at(JUNK_TAGS@, "uhd"@, 55),
        is_alternative_at(JUNK_TAGS@, "hdr10?"@, 59),
        is_alternative_at(JUNK_TAGS@, "dv"@, 66),
        is_alternative_at(JUNK_TAGS@, "web[-._]?dl"@, 82),
        is_alternative_at(JUNK_TAGS@, "webrip"@, 94),
        is_alternative_at(JUNK_TAGS@, "web"@, 101),
        is_alternative_at(JUNK_TAGS@, "bluray"@, 105),
        is_alternative_at(JUNK_TAGS@, "blu-ray"@, 112),
        is_alternative_at(JUNK_TAGS@, "bdrip"@, 120),
        is_alternative_at(JUNK_TAGS@, "brrip"@, 126),
        is_alternative_at(JUNK_TAGS@, "dvdrip"@, 132),
        is_alternative_at(JUNK_TAGS@, "dvdscr"@, 139),
        is_alternative_at(JUNK_TAGS@, "hdtv"@, 146),
        is_alternative_at(JUNK_TAGS@, "hdrip"@, 151),
        is_alternative_at(JUNK_TAGS@, "hdcam"@, 157),
        is_alternative_at(JUNK_TAGS@, "cam"@, 163),
        is_alternative_at(JUNK_TAGS@, "x264"@, 180),
        is_alternative_at(JUNK_TAGS@, "x265"@, 185),
        is_alternative_at(JUNK_TAGS@, "h264"@, 190),
        is_alternative_at(JUNK_TAGS@, "h265"@, 195),
        is_alternative_at(JUNK_TAGS@, "hevc"@, 200),
        is_alternative_at(JUNK_TAGS@, "avc"@, 205),
        is_alternative_at(JUNK_TAGS@, "xvid"@, 209),
        is_alternative_at(JUNK_TAGS@, "divx"@, 214),
        is_alternative_at(JUNK_TAGS@, "aac"@, 232),
        is_alternative_at(JUNK_TAGS@, "ac3"@, 236),
        is_alternative_at(JUNK_TAGS@, "dts"@, 240),
        is_alternative_at(JUNK_TAGS@, "flac"@, 244),
        is_alternative_at(JUNK_TAGS@, "mp3"@, 249),
        is_alternative_at(JUNK_TAGS@, "atmos"@, 253),
        is_alternative_at(JUNK_TAGS@, r"[257]\.1"@, 272),
        is_alternative_at(JUNK_TAGS@, "proper"@, 294),
        is_alternative_at(JUNK_TAGS@, "repack"@, 301),
        is_alternative_at(JUNK_TAGS@, "extended"@, 308),
        is_alternative_at(JUNK_TAGS@, "remastered"@, 317),
        is_alternative_at(JUNK_TAGS@, "unrated"@, 328),
        is_alternative_at(JUNK_TAGS@, "directors[-._]?cut"@, 336),
        is_alternative_at(JUNK_TAGS@, "yify"@, 368),
        is_alternative_at(JUNK_TAGS@, "yts"@, 373),
        is_alternative_at(JUNK_TAGS@, "rarbg"@, 377),
        is_alternative_at(JUNK_TAGS@, "ettv"@, 383),
        is_alternative_at(JUNK_TAGS@, "eztv"@, 388),
{
    reveal_strlit(
        r"(?ix)
        \b(
            480p|720p|1080p|2160p|4k|uhd|hdr10?|dv|
            web[-._]?dl|webrip|web|bluray|blu-ray|bdrip|brrip|dvdrip|dvdscr|hdtv|hdrip|hdcam|cam|
            x264|x265|h264|h265|hevc|avc|xvid|divx|
            aac|ac3|dts|flac|mp3|atmos|
            [257]\.1|
            proper|repack|extended|remastered|unrated|directors[-._]?cut|
            yify|yts|rarbg|ettv|eztv
        )\b
    ",
    );
    reveal_strlit("480p");
    assert(JUNK_TAGS@.subrange(30, 34) =~= "480p"@);
    reveal_strlit("720p");
    assert(JUNK_TAGS@.subrange(35, 39) =~= "720p"@);
    reveal_strlit("1080p");
    assert(JUNK_TAGS@.subrange(40, 45) =~= "1080p"@);
    reveal_strlit("2160p");
    assert(JUNK_TAGS@.subrange(46, 51) =~= "2160p"@);
    reveal_strlit("4k");
    assert(JUNK_TAGS@.subrange(52, 54) =~= "4k"@);
    reveal_strlit("uhd");
    assert(JUNK_TAGS@.subrange(55, 58) =~= "uhd"@);
    reveal_strlit("hdr10?");
    assert(JUNK_TAGS@.subrange(59, 65) =~= "hdr10?"@);
    reveal_strlit("dv");
    assert(JUNK_TAGS@.subrange(66, 68) =~= "dv"@);
    reveal_strlit("web[-._]?dl");
    assert(JUNK_TAGS@.subrange(82, 93) =~= "web[-._]?dl"@);
    reveal_strlit("webrip");
    assert(JUNK_TAGS@.subrange(94, 100) =~= "webrip"@);
    reveal_strlit("web");
    assert(JUNK_TAGS@.subrange(101, 104) =~= "web"@);
    reveal_strlit("bluray");
    assert(JUNK_TAGS@.subrange(105, 111) =~= "bluray"@);
    reveal_strlit("blu-ray");
    assert(JUNK_TAGS@.subrange(112, 119) =~= "blu-ray"@);
    reveal_strlit("bdrip");
    assert(JUNK_TAGS@.subrange(120, 125) =~= "bdrip"@);
    reveal_strlit("brrip");
    assert(JUNK_TAGS@.subrange(126, 131) =~= "brrip"@);
    reveal_strlit("dvdrip");
    assert(JUNK_TAGS@.subrange(132, 138) =~= "dvdrip"@);
    reveal_strlit("dvdscr");
    assert(JUNK_TAGS@.subrange(139, 145) =~= "dvdscr"@);
    reveal_strlit("hdtv");
    assert(JUNK_TAGS@.subrange(146, 150) =~= "hdtv"@);
    reveal_strlit("hdrip");
    assert(JUNK_TAGS@.subrange(151, 156) =~= "hdrip"@);
    reveal_strlit("hdcam");
    assert(JUNK_TAGS@.subrange(157, 162) =~= "hdcam"@);
    reveal_strlit("cam");
    assert(JUNK_TAGS@.subrange(163, 166) =~= "cam"@);
    reveal_strlit("x264");
    assert(JUNK_TAGS@.subrange(180, 184) =~= "x264"@);
    reveal_strlit("x265");
    assert(JUNK_TAGS@.subrange(185, 189) =~= "x265"@);
    reveal_strlit("h264");
    assert(JUNK_TAGS@.subrange(190, 194) =~= "h264"@);
    reveal_strlit("h265");
    assert(JUNK_TAGS@.subrange(195, 199) =~= "h265"@);
    reveal_strlit("hevc");
    assert(JUNK_TAGS@.subrange(200, 204) =~= "hevc"@);
    reveal_strlit("avc");
    assert(JUNK_TAGS@.subrange(205, 208) =~= "avc"@);
    reveal_strlit("xvid");
    assert(JUNK_TAGS@.subrange(209, 213) =~= "xvid"@);
    reveal_strlit("divx");
    assert(JUNK_TAGS@.subrange(214, 218) =~= "divx"@);
    reveal_strlit("aac");
    assert(JUNK_TAGS@.subrange(232, 235) =~= "aac"@);
    reveal_strlit("ac3");
    assert(JUNK_TAGS@.subrange(236, 239) =~= "ac3"@);
    reveal_strlit("dts");
    assert(JUNK_TAGS@.subrange(240, 243) =~= "dts"@);
    reveal_strlit("flac");
    assert(JUNK_TAGS@.subrange(244, 248) =~= "flac"@);
    reveal_strlit("mp3");
    assert(JUNK_TAGS@.subrange(249, 252) =~= "mp3"@);
    reveal_strlit("atmos");
    assert(JUNK_TAGS@.subrange(253, 258) =~= "atmos"@);
    reveal_strlit(r"[257]\.1");
    assert(JUNK_TAGS@.subrange(272, 280) =~= r"[257]\.1"@);
    reveal_strlit("proper");
    assert(JUNK_TAGS@.subrange(294, 300) =~= "proper"@);
    reveal_strlit("repack");
    assert(JUNK_TAGS@.subrange(301, 307) =~= "repack"@);
    reveal_strlit("extended");
    assert(JUNK_TAGS@.subrange(308, 316) =~= "extended"@);
    reveal_strlit("remastered");
    assert(JUNK_TAGS@.subrange(317, 327) =~= "remastered"@);
    reveal_strlit("unrated");
    assert(JUNK_TAGS@.subrange(328, 335) =~= "unrated"@);
    reveal_strlit("directors[-._]?cut");
    assert(JUNK_TAGS@.subrange(336, 354) =~= "directors[-._]?cut"@);
    reveal_strlit("yify");
    assert(JUNK_TAGS@.subrange(368, 372) =~= "yify"@);
    reveal_strlit("yts");
    assert(JUNK_TAGS@.subrange(373, 376) =~= "yts"@);
    reveal_strlit("rarbg");
    assert(JUNK_TAGS@.subrange(377, 382) =~= "rarbg"@);
    reveal_strlit("ettv");
    assert(JUNK_TAGS@.subrange(383, 387) =~= "ettv"@);
    reveal_strlit("eztv");
    assert(JUNK_TAGS@.subrange(388, 392) =~= "eztv"@);
}

/// A marker holds a season of one or two digits and an episode of one to three,
/// in each of its styles; an episode of four digits or more is ambiguous; a year
/// has four digits and lies in the twentieth or the twenty-first century.
pub proof fn law_markers_and_years_have_few_digits()
    ensures
        text::occurs_at(SEASON_EPISODE@, r"S(\d{1,2})"@, 6),
        text::occurs_at(SEASON_EPISODE@, r"E(\d{1,3})"@, 24),
        text::occurs_at(SEASON_EPISODE_WORDS@, "season"@, 6),
        text::occurs_at(SEASON_EPISODE_WORDS@, r"(\d{1,2})"@, 20),
        text::occurs_at(SEASON_EPISODE_WORDS@, "episode"@, 37),
        text::occurs_at(SEASON_EPISODE_WORDS@, r"(\d{1,3})"@, 52),
        text::occurs_at(SEASON_EPISODE_X@, r"(\d{1,2})x(\d{1,3})"@, 6),
        text::occurs_at(YEAR@, r"19\d{2}"@, 3),
        text::occurs_at(YEAR@, r"20\d{2}"@, 11),
        text::occurs_at(AMBIGUOUS_EPISODE@, r"\d{4,}"@, 40),
{
    reveal_strlit(r"(?i)\bS(\d{1,2})[\s._-]?E(\d{1,3})(?:[\s._-]?E(\d{1,3}))?\b");
    reveal_strlit(r"S(\d{1,2})");
    assert(SEASON_EPISODE@.subrange(6, 16) =~= r"S(\d{1,2})"@);
    reveal_strlit(r"E(\d{1,3})");
    assert(SEASON_EPISODE@.subrange(24, 34) =~= r"E(\d{1,3})"@);
    reveal_strlit(r"(?i)\bseason[\s._-]*(\d{1,2})[\s._-]+episode[\s._-]*(\d{1,3})\b");
    reveal_strlit("season");
    assert(SEASON_EPISODE_WORDS@.subrange(6, 12) =~= "season"@);
    reveal_strlit(r"(\d{1,2})");
    assert(SEASON_EPISODE_WORDS@.subrange(20, 29) =~= r"(\d{1,2})"@);
    reveal_strlit("episode");
    assert(SEASON_EPISODE_WORDS@.subrange(37, 44) =~= "episode"@);
    reveal_strlit(r"(\d{1,3})");
    assert(SEASON_EPISODE_WORDS@.subrange(52, 61) =~= r"(\d{1,3})"@);
    reveal_strlit(r"(?i)\b(\d{1,2})x(\d{1,3})\b");
    reveal_strlit(r"(\d{1,2})x(\d{1,3})");
    assert(SEASON_EPISODE_X@.subrange(6, 25) =~= r"(\d{1,2})x(\d{1,3})"@);
    reveal_strlit(r"\b(19\d{2}|20\d{2})\b");
    reveal_strlit(r"19\d{2}");
    assert(YEAR@.subrange(3, 10) =~= r"19\d{2}"@);
    reveal_strlit(r"20\d{2}");
    assert(YEAR@.subrange(11, 18) =~= r"20\d{2}"@);
    reveal_strlit(r"(?i)\bS\d{1,2}[\s._-]?E(?:\d+[\s._-]?E)*\d{4,}\b");
    reveal_strlit(r"\d{4,}");
    assert(AMBIGUOUS_EPISODE@.subrange(40, 46) =~= r"\d{4,}"@);
}

} // verus!
