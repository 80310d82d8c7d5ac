//! Comparing titles.
use vstd::prelude::*;

use crate::chars;
use crate::chars::CharSet;
use crate::cli::EpisodeApi;
use crate::config::SeriesMapping;
use crate::metadata;
use crate::metadata::{MovieMatch, MovieView, SeriesMatch, SeriesView};
use crate::number;
use crate::text;

verus! {

/// The words of a title, in lower case.
pub open spec fn lower_words(title: Seq<char>) -> Seq<Seq<char>> {
    text::words(title, CharSet::NotAlphanumeric).map_values(|w: Seq<char>| chars::lower_text(w))
}

/// The different words of a title.
pub open spec fn token_set(title: Seq<char>) -> Set<Seq<char>> {
    lower_words(title).to_set()
}

fn split_lower_words(title: &str) -> (res: Vec<String>)
    ensures
        text::views(res@) == lower_words(title@),
{
    let pieces = text::split_words(title, CharSet::NotAlphanumeric);
    let ghost all = text::views(pieces@);
    let ghost f = |w: Seq<char>| chars::lower_text(w);
    let mut out: Vec<String> = Vec::new();
    let mut i: usize = 0;
    while i < pieces.len()
        invariant
            i <= pieces.len(),
            all == text::views(pieces@),
            f == (|w: Seq<char>| chars::lower_text(w)),
            text::views(out@) =~= all.take(i as int).map_values(f),
        decreases pieces.len() - i,
    {
        assert(all[i as int] == pieces@[i as int]@);
        let ghost before = text::views(out@);
        out.push(chars::lower(pieces[i].as_str()));
        assert(text::views(out@) =~= before.push(f(all[i as int])));
        i += 1;
    }
    assert(all.take(all.len() as int) =~= all);
    out
}

fn holds_text(list: &Vec<String>, item: &str) -> (res: bool)
    ensures
        res == text::views(list@).contains(item@),
{
    let ghost all = text::views(list@);
    let mut i: usize = 0;
    while i < list.len()
        invariant
            i <= list.len(),
            all == text::views(list@),
            forall|k: int| 0 <= k < i ==> #[trigger] all[k] != item@,
        decreases list.len() - i,
    {
        assert(all[i as int] == list@[i as int]@);
        if text::same_text(list[i].as_str(), item) {
            return true;
        }
        i += 1;
    }
    false
}

/// The different words of a title, in lower case, each once.
pub fn title_tokens(title: &str) -> (res: Vec<String>)
    ensures
        text::views(res@).no_duplicates(),
        text::views(res@).to_set() == token_set(title@),
{
    let words = split_lower_words(title);
    let ghost all = text::views(words@);
    let mut out: Vec<String> = Vec::new();
    let mut i: usize = 0;
    assert(text::views(out@) =~= Seq::<Seq<char>>::empty());
    assert(all.take(0).to_set() =~= Seq::<Seq<char>>::empty().to_set());
    while i < words.len()
        invariant
            i <= words.len(),
            all == text::views(words@),
            text::views(out@).no_duplicates(),
            text::views(out@).to_set() =~= all.take(i as int).to_set(),
        decreases words.len() - i,
    {
        let ghost before = text::views(out@);
        assert(all[i as int] == words@[i as int]@);
        assert(all.take(i + 1) =~= all.take(i as int).push(all[i as int]));
        proof {
            lemma_set_of_push(all.take(i as int), all[i as int]);
            lemma_set_of_push(before, all[i as int]);
            assert(before.contains(all[i as int]) <==> before.to_set().contains(all[i as int]));
        }
        if !holds_text(&out, words[i].as_str()) {
            out.push(words[i].clone());
            assert(text::views(out@) =~= before.push(all[i as int]));
        }
        i += 1;
    }
    assert(all.take(all.len() as int) =~= all);
    out
}

proof fn lemma_set_of_push(s: Seq<Seq<char>>, w: Seq<char>)
    ensures
        s.push(w).to_set() =~= s.to_set().insert(w),
{
    assert forall|x: Seq<char>| s.push(w).to_set().contains(x) <==> s.to_set().insert(w).contains(
        x,
    ) by {
        if s.contains(x) {
            let k = choose|k: int| 0 <= k < s.len() && s[k] == x;
            assert(s.push(w)[k] == x);
        }
        if x == w {
            assert(s.push(w)[s.len() as int] == w);
        }
    }
}

/// Two titles match where they have the same words, or at least four fifths of
/// all their words in common. A title without words matches none.
pub open spec fn titles_match(a: Seq<char>, b: Seq<char>) -> bool {
    let x = token_set(a);
    let y = token_set(b);
    &&& x.len() > 0
    &&& y.len() > 0
    &&& (x == y || x.intersect(y).len() * 100 >= x.union(y).len() * 80)
}

fn count_shared(a: &Vec<String>, b: &Vec<String>) -> (res: usize)
    requires
        text::views(a@).no_duplicates(),
    ensures
        res == text::views(a@).to_set().intersect(text::views(b@).to_set()).len(),
        res <= a@.len(),
{
    let ghost x = text::views(a@);
    let ghost y = text::views(b@);
    let mut count: usize = 0;
    let mut i: usize = 0;
    proof {
        x.take(0).unique_seq_to_set();
        assert(x.take(0).to_set().intersect(y.to_set()) =~= Set::<Seq<char>>::empty());
    }
    while i < a.len()
        invariant
            i <= a.len(),
            count <= i,
            x == text::views(a@),
            y == text::views(b@),
            x.no_duplicates(),
            x.take(i as int).to_set().intersect(y.to_set()).finite(),
            count == x.take(i as int).to_set().intersect(y.to_set()).len(),
        decreases a.len() - i,
    {
        let ghost before = x.take(i as int).to_set().intersect(y.to_set());
        assert(x[i as int] == a@[i as int]@);
        assert(x.take(i + 1) =~= x.take(i as int).push(x[i as int]));
        proof {
            lemma_set_of_push(x.take(i as int), x[i as int]);
            assert(!x.take(i as int).contains(x[i as int]));
            assert(y.contains(x[i as int]) <==> y.to_set().contains(x[i as int]));
        }
        if holds_text(b, a[i].as_str()) {
            assert(x.take(i + 1).to_set().intersect(y.to_set()) =~= before.insert(x[i as int]));
            count += 1;
        } else {
            assert(x.take(i + 1).to_set().intersect(y.to_set()) =~= before);
        }
        i += 1;
    }
    assert(x.take(x.len() as int) =~= x);
    count
}

/// Whether a title that was found is surely the one that was looked for.
pub fn title_match_is_confident(query: &str, result: &str) -> (res: bool)
    ensures
        res == titles_match(query@, result@),
{
    let a = title_tokens(query);
    let b = title_tokens(result);
    let ghost x = text::views(a@);
    let ghost y = text::views(b@);
    proof {
        x.unique_seq_to_set();
        y.unique_seq_to_set();
    }
    if a.len() == 0 || b.len() == 0 {
        return false;
    }
    let shared = count_shared(&a, &b);
    proof {
        vstd::set_lib::lemma_set_intersect_union_lens(x.to_set(), y.to_set());
        if x.to_set() == y.to_set() {
            assert(x.to_set().intersect(y.to_set()) =~= x.to_set());
        }
        vstd::set_lib::lemma_len_intersect(y.to_set(), x.to_set());
        assert(y.to_set().intersect(x.to_set()) =~= x.to_set().intersect(y.to_set()));
    }
    let total: u128 = a.len() as u128 + b.len() as u128 - shared as u128;
    proof {
        if x.to_set() == y.to_set() {
            assert(total == shared);
        }
    }
    shared as u128 * 100 >= total * 80
}

/// The first series whose name matches a title, else the number of series.
pub open spec fn first_match(query: Seq<char>, matches: Seq<SeriesView>) -> int
    decreases matches.len(),
{
    if matches.len() == 0 {
        0
    } else if titles_match(query, matches[0].name) {
        0
    } else {
        1 + first_match(query, matches.skip(1))
    }
}

/// Which of the series to offer first: the first whose name matches, else the
/// choice to skip, which stands behind the last.
pub fn default_series_match_index(query: &str, matches: &[SeriesMatch]) -> (res: usize)
    ensures
        res == first_match(query@, metadata::series_views(matches@)),
        res <= matches@.len(),
{
    let ghost views = metadata::series_views(matches@);
    let mut i: usize = 0;
    assert(views.skip(0) =~= views);
    while i < matches.len()
        invariant
            i <= matches.len(),
            views == metadata::series_views(matches@),
            first_match(query@, views) == i + first_match(query@, views.skip(i as int)),
        decreases matches.len() - i,
    {
        assert(views.skip(i as int)[0] == matches@[i as int]@);
        if title_match_is_confident(query, matches[i].name.as_str()) {
            return i;
        }
        assert(views.skip(i as int).skip(1) =~= views.skip(i + 1));
        i += 1;
    }
    i
}

/// A movie matches where its title does and the years, where both are known,
/// are the same.
pub open spec fn movie_matches(title: Seq<char>, year: Option<u32>, found: MovieView) -> bool {
    titles_match(title, found.title) && (year is Some && found.year is Some ==> year == found.year)
}

/// Whether a movie that was found is surely the one that was looked for.
pub fn movie_match_is_confident(title: &str, year: Option<u32>, result: &MovieMatch) -> (res: bool)
    ensures
        res == movie_matches(title@, year, result@),
{
    if !title_match_is_confident(title, result.title.as_str()) {
        return false;
    }
    match (year, result.year) {
        (Some(expected), Some(actual)) => expected == actual,
        _ => true,
    }
}

/// The words of a title in lower case, one blank apart.
pub open spec fn title_key(title: Seq<char>) -> Seq<char> {
    text::joined(lower_words(title), " "@)
}

/// The form in which the titles of series mappings are compared.
pub fn mapping_title_key(title: &str) -> (res: String)
    ensures
        res@ == title_key(title@),
{
    text::join(&split_lower_words(title), " ")
}

/// A mapping with its title as a sequence of characters.
pub struct MappingView {
    pub title: Seq<char>,
    pub episode_api: EpisodeApi,
    pub series_id: u64,
}

impl View for SeriesMapping {
    type V = MappingView;

    open spec fn view(&self) -> MappingView {
        MappingView {
            title: self.title@,
            episode_api: self.episode_api,
            series_id: self.series_id,
        }
    }
}

/// The views of a list of mappings.
pub open spec fn mapping_views(list: Seq<SeriesMapping>) -> Seq<MappingView> {
    list.map_values(|m: SeriesMapping| m@)
}

/// Whether a mapping is for this title at this provider.
pub open spec fn applies(m: MappingView, title: Seq<char>, api: EpisodeApi) -> bool {
    m.episode_api == api && title_key(m.title) == title_key(title)
}

/// Whether some mapping leads from a title to this id.
pub open spec fn maps_to(
    mappings: Seq<MappingView>,
    title: Seq<char>,
    api: EpisodeApi,
    id: u64,
) -> bool {
    exists|i: int|
        0 <= i < mappings.len() && applies(#[trigger] mappings[i], title, api)
            && mappings[i].series_id == id
}

/// Why a series mapping cannot be used.
#[derive(Debug, Clone, PartialEq, Eq)]
pub enum MappingError {
    /// A mapping leads to no series.
    InvalidId { title: String },
    /// Mappings lead to different series.
    Conflict { title: String, episode_api: EpisodeApi },
}

/// The message that a mapping leads to no series.
pub open spec fn invalid_id_words(title: Seq<char>) -> Seq<char> {
    "series mapping for "@ + quoted(title) + " has invalid series_id 0; file left unchanged"@
}

/// The message that mappings lead to different series.
pub open spec fn conflict_words(title: Seq<char>, api: EpisodeApi) -> Seq<char> {
    "series mapping for "@ + quoted(title) + " has conflicting "@ + api.shown()
        + " IDs; file left unchanged"@
}

impl MappingError {
    /// The message shown for an error.
    pub open spec fn words(&self) -> Seq<char> {
        match *self {
            MappingError::InvalidId { title } => invalid_id_words(title@),
            MappingError::Conflict { title, episode_api } => conflict_words(title@, episode_api),
        }
    }

    /// The message shown for this error.
    pub fn message(&self) -> (res: String)
        ensures
            res@ == self.words(),
    {
        let mut out = String::from_str("series mapping for ");
        match self {
            MappingError::InvalidId { title } => {
                out.append(quote(title.as_str()).as_str());
                out.append(" has invalid series_id 0; file left unchanged");
            },
            MappingError::Conflict { title, episode_api } => {
                out.append(quote(title.as_str()).as_str());
                out.append(" has conflicting ");
                out.append(episode_api.display_name());
                out.append(" IDs; file left unchanged");
            },
        }
        out
    }
}

/// What the `Debug` implementation of `str` writes.
pub uninterp spec fn quoted(s: Seq<char>) -> Seq<char>;

/// The `Debug` formatting of a `str`: the text in double quotes with its special
/// characters escaped. The result is only given a name; which characters are
/// escaped, and how, is not stated.
#[verifier::external_body]
pub(crate) fn quote(s: &str) -> (res: String)
    ensures
        res@ == quoted(s@),
{
    format!("{:?}", s)
}

/// The id that the mappings give to a title at a provider: the mappings that
/// apply must agree on one id, and it must not be 0.
pub fn series_mapping_id(
    mappings: &[SeriesMapping],
    parsed_title: &str,
    episode_api: EpisodeApi,
) -> (res: Result<Option<u64>, MappingError>)
    ensures
        match res {
            Ok(Some(id)) => id != 0 && forall|other: u64|
                #[trigger] maps_to(mapping_views(mappings@), parsed_title@, episode_api, other)
                    <==> other == id,
            Ok(None) => forall|other: u64|
                !#[trigger] maps_to(mapping_views(mappings@), parsed_title@, episode_api, other),
            Err(MappingError::InvalidId { title }) => title@ == parsed_title@ && maps_to(
                mapping_views(mappings@),
                parsed_title@,
                episode_api,
                0,
            ),
            Err(MappingError::Conflict { title, episode_api: api }) => {
                &&& title@ == parsed_title@
                &&& api == episode_api
                &&& !maps_to(mapping_views(mappings@), parsed_title@, episode_api, 0)
                &&& exists|a: u64, b: u64|
                    a != b && #[trigger] maps_to(
                        mapping_views(mappings@),
                        parsed_title@,
                        episode_api,
                        a,
                    ) && #[trigger] maps_to(
                        mapping_views(mappings@),
                        parsed_title@,
                        episode_api,
                        b,
                    )
            },
        },
{
    let key = mapping_title_key(parsed_title);
    let ghost all = mapping_views(mappings@);
    let mut first: Option<u64> = None;
    let mut other: Option<u64> = None;
    let mut zero = false;
    let mut i: usize = 0;
    while i < mappings.len()
        invariant
            i <= mappings.len(),
            all == mapping_views(mappings@),
            key@ == title_key(parsed_title@),
            zero ==> maps_to(all, parsed_title@, episode_api, 0),
            first matches Some(a) ==> maps_to(all, parsed_title@, episode_api, a),
            other matches Some(b) ==> maps_to(all, parsed_title@, episode_api, b) && first is Some
                && first->0 != b,
            forall|k: int|
                0 <= k < i && applies(#[trigger] all[k], parsed_title@, episode_api) ==> {
                    &&& first is Some
                    &&& (all[k].series_id == 0 ==> zero)
                    &&& (other is None ==> all[k].series_id == first->0)
                },
        decreases mappings.len() - i,
    {
        assert(all[i as int] == mappings@[i as int]@);
        let mapping = &mappings[i];
        if mapping.episode_api == episode_api && text::same_text(
            mapping_title_key(mapping.title.as_str()).as_str(),
            key.as_str(),
        ) {
            assert(applies(all[i as int], parsed_title@, episode_api));
            let id = mapping.series_id;
            if id == 0 {
                zero = true;
            }
            match first {
                None => first = Some(id),
                Some(a) => if a != id && other.is_none() {
                    other = Some(id);
                },
            }
        }
        i += 1;
    }
    if zero {
        return Err(MappingError::InvalidId { title: String::from_str(parsed_title) });
    }
    if other.is_some() {
        return Err(
            MappingError::Conflict { title: String::from_str(parsed_title), episode_api },
        );
    }
    Ok(first)
}

/// A year, or that it is unknown.
pub open spec fn year_or_mark(year: Option<u32>) -> Seq<char> {
    match year {
        Some(y) => number::decimal(y as nat),
        None => "?"@,
    }
}

/// Writes a year, or that it is unknown.
pub fn year_label(year: Option<u32>) -> (res: String)
    ensures
        res@ == year_or_mark(year),
{
    match year {
        Some(y) => number::decimal_text(y as u64),
        None => String::from_str("?"),
    }
}

/// A title with its year in brackets.
pub open spec fn dated_title(title: Seq<char>, year: Option<u32>) -> Seq<char> {
    title + " ("@ + year_or_mark(year) + ")"@
}

/// Writes a title with its year in brackets.
pub fn dated_label(title: &str, year: Option<u32>) -> (res: String)
    ensures
        res@ == dated_title(title@, year),
{
    let mut out = String::from_str(title);
    out.append(" (");
    out.append(year_label(year).as_str());
    out.append(")");
    out
}

/// A series as it is offered for choice.
pub open spec fn series_label(s: SeriesView, api: EpisodeApi) -> Seq<char> {
    dated_title(s.name, s.first_air_year) + " ["@ + api.shown() + " ID: "@ + number::decimal(
        s.id as nat,
    ) + "]"@
}

/// Writes a series as it is offered for choice.
pub fn series_match_label(series: &SeriesMatch, episode_api: EpisodeApi) -> (res: String)
    ensures
        res@ == series_label(series@, episode_api),
{
    let mut out = dated_label(series.name.as_str(), series.first_air_year);
    out.append(" [");
    out.append(episode_api.display_name());
    out.append(" ID: ");
    out.append(number::decimal_text(series.id).as_str());
    out.append("]");
    out
}

/// Whether two titles match does not depend on which was looked for.
pub proof fn law_matching_titles_match_both_ways(a: Seq<char>, b: Seq<char>)
    ensures
        titles_match(a, b) == titles_match(b, a),
{
    let x = token_set(a);
    let y = token_set(b);
    assert(x.intersect(y) =~= y.intersect(x));
    assert(x.union(y) =~= y.union(x));
}

/// Titles of the same words match, whatever their order, case and punctuation,
/// unless they have no words.
pub proof fn law_same_words_match(a: Seq<char>, b: Seq<char>)
    requires
        token_set(a) == token_set(b),
    ensures
        titles_match(a, b) <==> token_set(a).len() > 0,
{
}

/// A movie of another year never matches.
pub proof fn law_other_years_never_match(title: Seq<char>, expected: u32, found: MovieView)
    requires
        found.year is Some,
        found.year->0 != expected,
    ensures
        !movie_matches(title, Some(expected), found),
{
}

/// The series offered first matches the title, and none before it does; where
/// none matches it is the choice to skip.
pub proof fn law_first_match_is_the_first(query: Seq<char>, matches: Seq<SeriesView>)
    ensures
        0 <= first_match(query, matches) <= matches.len(),
        first_match(query, matches) < matches.len() ==> titles_match(
            query,
            matches[first_match(query, matches)].name,
        ),
        forall|i: int|
            0 <= i < first_match(query, matches) ==> !titles_match(
                query,
                (#[trigger] matches[i]).name,
            ),
    decreases matches.len(),
{
    if matches.len() > 0 && !titles_match(query, matches[0].name) {
        let rest = matches.skip(1);
        law_first_match_is_the_first(query, rest);
        assert forall|i: int| 0 <= i < first_match(query, matches) implies !titles_match(
            query,
            (#[trigger] matches[i]).name,
        ) by {
            if i > 0 {
                assert(rest[i - 1] == matches[i]);
            }
        }
    }
}

/// Two titles match just where both have words and the words that stand in only
/// one of them are at most a fifth of all their words. Titles with fewer than
/// five words in all match only where their words are the same.
pub proof fn law_matching_titles_share_four_fifths(a: Seq<char>, b: Seq<char>)
    ensures
        titles_match(a, b) <==> {
            &&& token_set(a).len() > 0
            &&& token_set(b).len() > 0
            &&& 5 * (token_set(a).difference(token_set(b)).len() + token_set(b).difference(
                token_set(a),
            ).len()) <= token_set(a).union(token_set(b)).len()
        },
        titles_match(a, b) && token_set(a).union(token_set(b)).len() < 5 ==> token_set(a)
            == token_set(b),
{
    let x = token_set(a);
    let y = token_set(b);
    lower_words(a).lemma_cardinality_of_set();
    lower_words(b).lemma_cardinality_of_set();
    let both = x.intersect(y);
    let left = x.difference(y);
    let right = y.difference(x);
    vstd::set_lib::lemma_set_disjoint_lens(left, both);
    vstd::set_lib::lemma_set_disjoint_lens(x, right);
    assert(left.union(both) =~= x);
    assert(x.union(right) =~= x.union(y));
    vstd::set_lib::lemma_set_disjoint_lens(right, both);
    assert(right.union(both) =~= y);
    if left.len() == 0 && right.len() == 0 {
        assert(left =~= Set::empty());
        assert(right =~= Set::empty());
        assert forall|w: Seq<char>| x.contains(w) <==> y.contains(w) by {
            assert(!left.contains(w) && !right.contains(w));
        }
        assert(x =~= y);
    }
    if x == y {
        assert(left =~= Set::empty());
        assert(right =~= Set::empty());
    }
}

/// The words of a title are what stands between the characters that are neither
/// letters nor digits, in lower case.
pub proof fn law_titles_are_taken_word_by_word(a: Seq<char>, c: char, b: Seq<char>)
    ensures
        !chars::is_alphanumeric(c) ==> lower_words(a.push(c) + b) == lower_words(a) + lower_words(b),
        !chars::is_alphanumeric(c) ==> token_set(a.push(c) + b) == token_set(a).union(token_set(b)),
        a.len() > 0 && (forall|i: int|
            0 <= i < a.len() ==> chars::is_alphanumeric(#[trigger] a[i])) ==> lower_words(a) == seq![
            chars::lower_text(a),
        ] && token_set(a) == set![chars::lower_text(a)],
        lower_words(Seq::empty()) == Seq::<Seq<char>>::empty(),
        token_set(Seq::empty()) == Set::<Seq<char>>::empty(),
{
    let set = CharSet::NotAlphanumeric;
    text::law_texts_are_split_at_the_set(a, c, b, set);
    assert(lower_words(Seq::empty()) =~= Seq::<Seq<char>>::empty());
    assert(token_set(Seq::empty()) =~= Set::<Seq<char>>::empty());
    if !chars::is_alphanumeric(c) {
        let x = lower_words(a);
        let y = lower_words(b);
        let all = lower_words(a.push(c) + b);
        assert(all =~= x + y);
        assert forall|w: Seq<char>| #[trigger] all.to_set().contains(w) <==> x.to_set().union(
            y.to_set(),
        ).contains(w) by {
            if x.contains(w) {
                let k = choose|k: int| 0 <= k < x.len() && x[k] == w;
                assert(all[k] == w);
            }
            if y.contains(w) {
                let k = choose|k: int| 0 <= k < y.len() && y[k] == w;
                assert(all[x.len() + k] == w);
            }
            if all.contains(w) {
                let k = choose|k: int| 0 <= k < all.len() && all[k] == w;
                if k < x.len() {
                    assert(x[k] == w);
                } else {
                    assert(y[k - x.len()] == w);
                }
            }
        }
        assert(token_set(a.push(c) + b) =~= token_set(a).union(token_set(b)));
    }
    if a.len() > 0 && forall|i: int|
        0 <= i < a.len() ==> chars::is_alphanumeric(#[trigger] a[i]) {
        assert forall|i: int| 0 <= i < a.len() implies !set.contains(#[trigger] a[i]) by {
            assert(chars::is_alphanumeric(a[i]));
        }
        let one = seq![chars::lower_text(a)];
        assert(lower_words(a) =~= one);
        assert(one[0] == chars::lower_text(a));
        assert(token_set(a) =~= set![chars::lower_text(a)]);
    }
}

proof fn lemma_words_in_any_case(s: Seq<char>)
    requires
        chars::is_ascii_text(s),
    ensures
        text::split(chars::ascii_lower_text(s), CharSet::NotAlphanumeric) == text::split(
            s,
            CharSet::NotAlphanumeric,
        ).map_values(|w: Seq<char>| chars::ascii_lower_text(w)),
    decreases s.len(),
{
    let f = |w: Seq<char>| chars::ascii_lower_text(w);
    let set = CharSet::NotAlphanumeric;
    let t = chars::ascii_lower_text(s);
    if s.len() == 0 {
        assert(t =~= s);
        assert(seq![Seq::<char>::empty()].map_values(f) =~= seq![Seq::<char>::empty()]) by {
            assert(f(Seq::empty()) =~= Seq::empty());
        }
    } else {
        let front = s.drop_last();
        assert forall|i: int| 0 <= i < front.len() implies chars::is_ascii_char(
            #[trigger] front[i],
        ) by {
            assert(front[i] == s[i]);
        }
        lemma_words_in_any_case(front);
        assert(t.drop_last() =~= chars::ascii_lower_text(front));
        assert(chars::is_ascii_char(s[s.len() - 1]));
        assert(t.last() == chars::ascii_lower(s.last()));
        assert(set.contains(t.last()) == set.contains(s.last()));
        let pieces = text::split(front, set);
        text::lemma_split_nonempty(front, set);
        if set.contains(s.last()) {
            assert(f(Seq::empty()) =~= Seq::empty());
            assert(text::split(t, set) =~= text::split(s, set).map_values(f));
        } else {
            assert(f(pieces.last().push(s.last())) =~= f(pieces.last()).push(t.last()));
            assert(text::split(t, set) =~= text::split(s, set).map_values(f));
        }
    }
}

proof fn lemma_nonempty_lowered(pieces: Seq<Seq<char>>)
    ensures
        text::nonempty(pieces.map_values(|w: Seq<char>| chars::ascii_lower_text(w)))
            == text::nonempty(pieces).map_values(|w: Seq<char>| chars::ascii_lower_text(w)),
    decreases pieces.len(),
{
    let f = |w: Seq<char>| chars::ascii_lower_text(w);
    reveal(Seq::filter);
    let after = pieces.map_values(f);
    if pieces.len() == 0 {
        assert(text::nonempty(after) =~= text::nonempty(pieces).map_values(f));
    } else {
        lemma_nonempty_lowered(pieces.drop_last());
        assert(after.drop_last() =~= pieces.drop_last().map_values(f));
        assert(after.last() == f(pieces.last()));
        assert(f(pieces.last()).len() == pieces.last().len());
        assert(text::nonempty(after) =~= text::nonempty(pieces).map_values(f));
    }
}

/// The case of ASCII letters makes no difference to the words of a title, and so
/// none to what it matches.
pub proof fn law_titles_match_in_any_case(a: Seq<char>, b: Seq<char>)
    requires
        chars::is_ascii_text(a),
    ensures
        lower_words(chars::ascii_lower_text(a)) == lower_words(a),
        titles_match(chars::ascii_lower_text(a), b) == titles_match(a, b),
        titles_match(b, chars::ascii_lower_text(a)) == titles_match(b, a),
        title_key(chars::ascii_lower_text(a)) == title_key(a),
{
    let f = |w: Seq<char>| chars::ascii_lower_text(w);
    let g = |w: Seq<char>| chars::lower_text(w);
    let set = CharSet::NotAlphanumeric;
    let t = chars::ascii_lower_text(a);
    lemma_words_in_any_case(a);
    lemma_nonempty_lowered(text::split(a, set));
    let ws = text::words(a, set);
    assert(text::words(t, set) == ws.map_values(f));
    let p = |c: char| chars::is_ascii_char(c);
    text::lemma_split_chars(a, set, p);
    text::lemma_nonempty_chars(text::split(a, set), p);
    assert(ws.map_values(f).map_values(g) =~= ws.map_values(g)) by {
        assert forall|k: int| 0 <= k < ws.len() implies g(f(#[trigger] ws[k])) == g(ws[k]) by {
            let w = ws[k];
            assert(text::all_chars(w, p));
            assert forall|i: int| 0 <= i < w.len() implies chars::is_ascii_char(
                #[trigger] w[i],
            ) by {
                assert(p(w[i]));
            }
            let v = f(w);
            assert forall|i: int| 0 <= i < v.len() implies chars::is_ascii_char(
                #[trigger] v[i],
            ) by {
                assert(chars::is_ascii_char(w[i]));
            }
            assert(f(v) =~= f(w));
        }
    }
    assert(lower_words(t) == lower_words(a));
}

/// A movie whose title matches is taken where the years are the same or one of
/// them is unknown, and not where they differ.
pub proof fn law_years_decide_between_matching_titles(
    title: Seq<char>,
    found: Seq<char>,
    expected: u32,
    actual: u32,
)
    requires
        titles_match(title, found),
    ensures
        movie_matches(title, None, MovieView { title: found, year: Some(actual) }),
        movie_matches(title, None, MovieView { title: found, year: None }),
        movie_matches(title, Some(expected), MovieView { title: found, year: None }),
        movie_matches(title, Some(expected), MovieView { title: found, year: Some(actual) })
            <==> expected == actual,
{
}

/// A movie whose title does not match is never taken, whatever its year.
pub proof fn law_movies_match_by_title(title: Seq<char>, year: Option<u32>, found: MovieView)
    requires
        movie_matches(title, year, found),
    ensures
        titles_match(title, found.title),
{
}

/// A mapping is for a title just where it is for the same provider and has the
/// same words in the same order, on ASCII titles in any case and with anything
/// between the words.
pub proof fn law_mappings_are_compared_word_by_word(
    m: MappingView,
    title: Seq<char>,
    api: EpisodeApi,
)
    requires
        chars::is_ascii_text(m.title),
        chars::is_ascii_text(title),
    ensures
        applies(m, title, api) <==> m.episode_api == api && lower_words(m.title) == lower_words(
            title,
        ),
{
    lemma_key_words(m.title);
    lemma_key_words(title);
}

proof fn lemma_key_words(title: Seq<char>)
    requires
        chars::is_ascii_text(title),
    ensures
        text::words(title_key(title), CharSet::Blank) == lower_words(title),
{
    let set = CharSet::NotAlphanumeric;
    let p = |c: char| chars::is_ascii_char(c);
    let alnum = |c: char| !set.contains(c);
    let ws = text::words(title, set);
    let ls = lower_words(title);
    text::lemma_split_chars(title, set, p);
    text::lemma_nonempty_chars(text::split(title, set), p);
    text::lemma_nonempty_chars(text::split(title, set), alnum);
    reveal_strlit(" ");
    assert(" "@ =~= seq![' ']);
    let free = |c: char| !CharSet::Blank.contains(c);
    assert forall|k: int| 0 <= k < ls.len() implies text::all_chars(#[trigger] ls[k], free)
        && ls[k].len() > 0 by {
        let w = ws[k];
        assert(text::all_chars(w, p));
        assert(text::all_chars(w, alnum));
        assert(w.len() > 0);
        assert forall|i: int| 0 <= i < w.len() implies chars::is_ascii_char(#[trigger] w[i]) by {
            assert(p(w[i]));
        }
        assert(ls[k] == chars::ascii_lower_text(w));
        assert forall|i: int| 0 <= i < ls[k].len() implies free(#[trigger] ls[k][i]) by {
            assert(alnum(w[i]));
            assert(ls[k][i] == chars::ascii_lower(w[i]));
        }
    }
    if ls.len() > 0 {
        text::lemma_split_joined(ls, CharSet::Blank, ' ');
        text::lemma_filter_keeps(ls);
    } else {
        text::law_texts_are_split_at_the_set(Seq::empty(), ' ', Seq::empty(), CharSet::Blank);
        assert(ls =~= Seq::empty());
    }
}

/// A title is shown with its year in brackets, or with a question mark in them
/// where the year is unknown.
pub proof fn law_titles_are_shown_with_their_year(title: Seq<char>, year: u32)
    ensures
        dated_title(title, Some(year)) == title + seq![' ', '('] + number::decimal(year as nat)
            + seq![')'],
        dated_title(title, None) == title + seq![' ', '(', '?', ')'],
{
    reveal_strlit(" (");
    reveal_strlit(")");
    reveal_strlit("?");
    assert(dated_title(title, Some(year)) =~= title + seq![' ', '('] + number::decimal(year as nat)
        + seq![')']);
    assert(dated_title(title, None) =~= title + seq![' ', '(', '?', ')']);
}

/// The form in which the titles of mappings are compared is their words with one
/// blank between them.
pub proof fn law_keys_are_words_with_blanks(a: Seq<char>, c: char, b: Seq<char>)
    requires
        !chars::is_alphanumeric(c),
        lower_words(a).len() > 0,
        lower_words(b).len() > 0,
    ensures
        title_key(a.push(c) + b) == title_key(a) + seq![' '] + title_key(b),
{
    reveal_strlit(" ");
    assert(" "@ =~= seq![' ']);
    law_titles_are_taken_word_by_word(a, c, b);
    text::law_joining_separates_pieces(lower_words(a), lower_words(b), " "@);
}

/// Mappings lead from a title to an id just where one of them has that id, is for
/// the provider, and has the same title up to case and what stands between its
/// words.
pub proof fn law_mappings_lead_to_their_ids(
    mappings: Seq<MappingView>,
    title: Seq<char>,
    api: EpisodeApi,
    id: u64,
)
    ensures
        maps_to(mappings, title, api, id) <==> exists|i: int|
            {
                &&& 0 <= i < mappings.len()
                &&& (#[trigger] mappings[i]).series_id == id
                &&& mappings[i].episode_api == api
                &&& text::joined(lower_words(mappings[i].title), " "@) == text::joined(
                    lower_words(title),
                    " "@,
                )
            },
{
    if maps_to(mappings, title, api, id) {
        let i = choose|i: int|
            0 <= i < mappings.len() && applies(#[trigger] mappings[i], title, api)
                && mappings[i].series_id == id;
        assert(mappings[i].series_id == id);
    }
    if exists|i: int|
        {
            &&& 0 <= i < mappings.len()
            &&& (#[trigger] mappings[i]).series_id == id
            &&& mappings[i].episode_api == api
            &&& text::joined(lower_words(mappings[i].title), " "@) == text::joined(
                lower_words(title),
                " "@,
            )
        } {
        let i = choose|i: int|
            {
                &&& 0 <= i < mappings.len()
                &&& (#[trigger] mappings[i]).series_id == id
                &&& mappings[i].episode_api == api
                &&& text::joined(lower_words(mappings[i].title), " "@) == text::joined(
                    lower_words(title),
                    " "@,
                )
            };
        assert(applies(mappings[i], title, api));
    }
}

/// What is wrong with a mapping is told with its title, and a conflict with the
/// provider whose ids do not agree.
pub proof fn law_mapping_errors_name_the_title(title: Seq<char>, api: EpisodeApi)
    ensures
        text::has_text(invalid_id_words(title), quoted(title)),
        text::has_text(conflict_words(title, api), quoted(title)),
        text::has_text(conflict_words(title, api), api.shown()),
{
    let head = "series mapping for "@;
    let tail = " IDs; file left unchanged"@;
    let middle = " has conflicting "@;
    let shown = quoted(title);
    text::law_texts_are_found_where_they_stand(
        head,
        shown,
        " has invalid series_id 0; file left unchanged"@,
    );
    text::law_texts_are_found_where_they_stand(head, shown, middle + api.shown() + tail);
    assert(head + shown + (middle + api.shown() + tail) =~= conflict_words(title, api));
    text::law_texts_are_found_where_they_stand(head + shown + middle, api.shown(), tail);
}

} // verus!
