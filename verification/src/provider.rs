//! Requests to the metadata providers and what their answers come to.
use vstd::prelude::*;

use crate::cli::EpisodeApi;
use crate::metadata;
use crate::metadata::{EpisodeView, MovieMatch, SeasonEpisode, SeriesMatch};
use crate::number;
use crate::text;

verus! {

/// What is looked up.
#[derive(Debug, Clone, Copy, PartialEq, Eq)]
pub enum Lookup {
    Movie,
    Series,
}

/// TMDb cannot be asked without a key.
#[derive(Debug, Clone, PartialEq, Eq)]
pub struct MissingKey;

impl MissingKey {
    /// The message shown for this error.
    pub fn message(&self) -> (res: &'static str)
        ensures
            res@
                == "TMDb lookup requires an API key. Pass --api-key, set $TMDB_API_KEY, or add api_key to config.toml"@,
    {
        "TMDb lookup requires an API key. Pass --api-key, set $TMDB_API_KEY, or add api_key to config.toml"
    }
}

/// The provider of a lookup: movies are looked up at TMDb, series at the
/// provider that was selected.
pub open spec fn provider_of(lookup: Lookup, selected: EpisodeApi) -> EpisodeApi {
    match lookup {
        Lookup::Movie => EpisodeApi::Tmdb,
        Lookup::Series => selected,
    }
}

/// Routes a lookup to its provider; TMDb needs a key.
pub fn route(lookup: Lookup, selected: EpisodeApi, has_key: bool) -> (res: Result<
    EpisodeApi,
    MissingKey,
>)
    ensures
        match res {
            Ok(api) => api == provider_of(lookup, selected) && (api == EpisodeApi::Tmdb
                ==> has_key),
            Err(_) => provider_of(lookup, selected) == EpisodeApi::Tmdb && !has_key,
        },
{
    let api = match lookup {
        Lookup::Movie => EpisodeApi::Tmdb,
        Lookup::Series => selected,
    };
    if api == EpisodeApi::Tmdb && !has_key {
        Err(MissingKey)
    } else {
        Ok(api)
    }
}

/// A request to a provider, without its query.
#[derive(Debug, Clone, Copy, PartialEq, Eq)]
pub enum Request {
    TmdbMovies,
    TmdbSeries,
    TmdbShow { series_id: u64 },
    TmdbSeason { series_id: u64, season: u32 },
    TmdbEpisode { series_id: u64, season: u32, episode: u32 },
    TvmazeSearch,
    TvmazeShow { series_id: u64 },
    TvmazeEpisodes { series_id: u64 },
}

/// The address of a request.
pub open spec fn address(request: Request) -> Seq<char> {
    let tmdb = "https://api.themoviedb.org/3"@;
    let tvmaze = "https://api.tvmaze.com"@;
    match request {
        Request::TmdbMovies => tmdb + "/search/movie"@,
        Request::TmdbSeries => tmdb + "/search/tv"@,
        Request::TmdbShow { series_id } => tmdb + "/tv/"@ + number::decimal(series_id as nat),
        Request::TmdbSeason { series_id, season } => tmdb + "/tv/"@ + number::decimal(
            series_id as nat,
        ) + "/season/"@ + number::decimal(season as nat),
        Request::TmdbEpisode { series_id, season, episode } => tmdb + "/tv/"@ + number::decimal(
            series_id as nat,
        ) + "/season/"@ + number::decimal(season as nat) + "/episode/"@ + number::decimal(
            episode as nat,
        ),
        Request::TvmazeSearch => tvmaze + "/search/shows"@,
        Request::TvmazeShow { series_id } => tvmaze + "/shows/"@ + number::decimal(
            series_id as nat,
        ),
        Request::TvmazeEpisodes { series_id } => tvmaze + "/shows/"@ + number::decimal(
            series_id as nat,
        ) + "/episodes"@,
    }
}

/// Writes the address of a request.
pub fn request_url(request: Request) -> (res: String)
    ensures
        res@ == address(request),
{
    let mut tmdb = String::from_str("https://api.themoviedb.org/3");
    let mut tvmaze = String::from_str("https://api.tvmaze.com");
    match request {
        Request::TmdbMovies => {
            tmdb.append("/search/movie");
            tmdb
        },
        Request::TmdbSeries => {
            tmdb.append("/search/tv");
            tmdb
        },
        Request::TmdbShow { series_id } => {
            tmdb.append("/tv/");
            tmdb.append(number::decimal_text(series_id).as_str());
            tmdb
        },
        Request::TmdbSeason { series_id, season } => {
            tmdb.append("/tv/");
            tmdb.append(number::decimal_text(series_id).as_str());
            tmdb.append("/season/");
            tmdb.append(number::decimal_text(season as u64).as_str());
            tmdb
        },
        Request::TmdbEpisode { series_id, season, episode } => {
            tmdb.append("/tv/");
            tmdb.append(number::decimal_text(series_id).as_str());
            tmdb.append("/season/");
            tmdb.append(number::decimal_text(season as u64).as_str());
            tmdb.append("/episode/");
            tmdb.append(number::decimal_text(episode as u64).as_str());
            tmdb
        },
        Request::TvmazeSearch => {
            tvmaze.append("/search/shows");
            tvmaze
        },
        Request::TvmazeShow { series_id } => {
            tvmaze.append("/shows/");
            tvmaze.append(number::decimal_text(series_id).as_str());
            tvmaze
        },
        Request::TvmazeEpisodes { series_id } => {
            tvmaze.append("/shows/");
            tvmaze.append(number::decimal_text(series_id).as_str());
            tvmaze.append("/episodes");
            tvmaze
        },
    }
}

/// Whether an answer that nothing was found is taken as no result rather than
/// as a failure: where one series, season or episode was asked for.
pub fn missing_is_no_result(request: Request, status: u16) -> (res: bool)
    ensures
        res == (status == 404 && !(request is TmdbMovies) && !(request is TmdbSeries)
            && !(request is TvmazeSearch)),
{
    match request {
        Request::TmdbMovies | Request::TmdbSeries | Request::TvmazeSearch => false,
        _ => status == 404,
    }
}

/// A movie as TMDb reports it.
pub fn movie_match(title: String, release_date: &str) -> (res: MovieMatch)
    ensures
        res.title@ == title@,
        res.year == metadata::date_year(release_date@),
{
    MovieMatch { title, year: metadata::year_from_date(release_date) }
}

/// A series as a provider reports it.
pub fn series_match(id: u64, name: String, first_date: &Option<String>) -> (res: SeriesMatch)
    ensures
        res.id == id,
        res.name@ == name@,
        res.first_air_year == (match text::opt_view(*first_date) {
            Some(date) => metadata::date_year(date),
            None => None,
        }),
{
    SeriesMatch {
        id,
        name,
        first_air_year: match first_date {
            Some(date) => metadata::year_from_date(date.as_str()),
            None => None,
        },
    }
}

/// An episode as a provider reports it.
#[derive(Debug, Clone)]
pub struct ListedEpisode {
    pub season: u32,
    pub number: Option<u32>,
    pub name: String,
    pub air_date: Option<String>,
}

/// An episode of the season that was asked for, where it has a number.
pub open spec fn season_entry(e: ListedEpisode, season: u32) -> Option<EpisodeView> {
    if e.season == season && e.number is Some {
        Some(
            EpisodeView {
                episode_number: e.number->0,
                name: e.name@,
                air_date: match e.air_date {
                    Some(date) => date@,
                    None => Seq::empty(),
                },
            },
        )
    } else {
        None
    }
}

/// The numbered episodes of one season, in their order.
pub open spec fn season_entries(list: Seq<ListedEpisode>, season: u32) -> Seq<EpisodeView>
    decreases list.len(),
{
    if list.len() == 0 {
        Seq::empty()
    } else {
        let before = season_entries(list.drop_last(), season);
        match season_entry(list.last(), season) {
            Some(e) => before.push(e),
            None => before,
        }
    }
}

/// Picks the numbered episodes of one season out of those of a series.
pub fn season_episodes(list: &Vec<ListedEpisode>, season: u32) -> (res: Vec<SeasonEpisode>)
    ensures
        metadata::episode_views(res@) == season_entries(list@, season),
{
    let mut out: Vec<SeasonEpisode> = Vec::new();
    let mut i: usize = 0;
    assert(metadata::episode_views(out@) =~= season_entries(list@.take(0), season));
    while i < list.len()
        invariant
            i <= list.len(),
            metadata::episode_views(out@) == season_entries(list@.take(i as int), season),
        decreases list.len() - i,
    {
        assert(list@.take(i + 1).drop_last() =~= list@.take(i as int));
        let ghost before = metadata::episode_views(out@);
        if list[i].season == season {
            if let Some(episode_number) = list[i].number {
                let episode = SeasonEpisode {
                    episode_number,
                    name: list[i].name.clone(),
                    air_date: match &list[i].air_date {
                        Some(date) => date.clone(),
                        None => String::new(),
                    },
                };
                assert(episode@.air_date =~= season_entry(list@[i as int], season)->0.air_date);
                out.push(episode);
                assert(metadata::episode_views(out@) =~= before.push(episode@));
            }
        }
        i += 1;
    }
    assert(list@.take(list@.len() as int) =~= list@);
    out
}

/// Movies are looked up at TMDb whatever is selected, series at the provider
/// that is selected.
pub proof fn law_movies_are_looked_up_at_tmdb(selected: EpisodeApi)
    ensures
        provider_of(Lookup::Movie, selected) == EpisodeApi::Tmdb,
        provider_of(Lookup::Series, selected) == selected,
{
}

/// The address of a season lies behind that of its series, and that of an episode
/// behind that of its season; each ends in the number that was asked for.
pub proof fn law_addresses_lead_from_series_to_episode(series_id: u64, season: u32, episode: u32)
    ensures
        address(Request::TmdbShow { series_id }) == "https://api.themoviedb.org/3"@ + "/tv/"@
            + number::decimal(series_id as nat),
        address(Request::TmdbSeason { series_id, season }) == address(
            Request::TmdbShow { series_id },
        ) + "/season/"@ + number::decimal(season as nat),
        address(Request::TmdbEpisode { series_id, season, episode }) == address(
            Request::TmdbSeason { series_id, season },
        ) + "/episode/"@ + number::decimal(episode as nat),
        address(Request::TvmazeShow { series_id }) == "https://api.tvmaze.com"@ + "/shows/"@
            + number::decimal(series_id as nat),
        address(Request::TvmazeEpisodes { series_id }) == address(
            Request::TvmazeShow { series_id },
        ) + "/episodes"@,
        address(Request::TmdbMovies) == "https://api.themoviedb.org/3"@ + "/search/movie"@,
        address(Request::TmdbSeries) == "https://api.themoviedb.org/3"@ + "/search/tv"@,
        address(Request::TvmazeSearch) == "https://api.tvmaze.com"@ + "/search/shows"@,
{
}

/// The episodes of a season are taken from a list in its order: those that are
/// of the season and have a number, each with its name and its air date, which
/// is empty where it is unknown.
pub proof fn law_seasons_are_taken_in_order(
    a: Seq<ListedEpisode>,
    e: ListedEpisode,
    b: Seq<ListedEpisode>,
    season: u32,
)
    ensures
        season_entries(a + b, season) == season_entries(a, season) + season_entries(b, season),
        e.season == season && e.number is Some ==> season_entries(seq![e], season).len() == 1 && ({
            let taken = season_entries(seq![e], season)[0];
            &&& Some(taken.episode_number) == e.number
            &&& taken.name == e.name@
            &&& e.air_date matches Some(date) ==> taken.air_date == date@
            &&& e.air_date is None ==> taken.air_date.len() == 0
        }),
        e.season != season || e.number is None ==> season_entries(seq![e], season).len() == 0,
    decreases b.len(),
{
    let one = seq![e];
    assert(one.drop_last() =~= Seq::empty());
    assert(season_entries(Seq::empty(), season).len() == 0);
    if b.len() == 0 {
        assert(a + b =~= a);
        assert(season_entries(a, season) + season_entries(b, season) =~= season_entries(a, season));
    } else {
        law_seasons_are_taken_in_order(a, e, b.drop_last(), season);
        assert((a + b).drop_last() =~= a + b.drop_last());
        assert((a + b).last() == b.last());
        assert(season_entries(a + b, season) =~= season_entries(a, season) + season_entries(
            b,
            season,
        ));
    }
}

} // verus!
