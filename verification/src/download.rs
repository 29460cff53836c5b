//! The orchestrator: a selector names one episode, one season or the whole
//! series, and each episode it names is resolved in the catalog's order.

use vstd::prelude::*;
use crate::catalog::{
    catalog_answer, first_serving, grown, known_season, lemma_catalog_answer_kept,
    lemma_grown_further, lemma_grown_same, unanswered, CatalogLookupError, Language, Season,
    Series, StreamDescriptor,
};
use crate::identity::Identity;
use crate::resolve::{always_callable, resolution, resolve, ResolveError, Resolved};
use crate::store::Store;
use crate::text::{number_of, parse_number, split, split_on, views};

verus! {

/// Separates the season from the episode in an episode selector.
pub const SELECTOR_SEPARATOR: char = ',';

/// Why a download yields no addresses.
#[derive(Clone, Copy, Debug, PartialEq, Eq, Structural)]
pub enum DownloadError {
    /// The selector's text does not name a season or an episode.
    InvalidSelector,
    /// The catalog has no answer.
    Catalog(CatalogLookupError),
    /// No hoster offers the episode in the language asked for.
    NoStream { season: u32, episode: u32 },
    /// The exchange refused every identity it was asked with for this episode.
    IdentityPoolExhausted { season: u32, episode: u32, attempts: usize },
}

/// Whether the catalog source can be asked for every season and every episode.
pub open spec fn source_callable<
    E: Fn(u32) -> Option<u32>,
    O: Fn(u32, u32) -> Option<Vec<StreamDescriptor>>,
>(episodes_of: E, offers_of: O) -> bool {
    &&& forall|s: u32| #[trigger] call_requires(episodes_of, (s,))
    &&& forall|s: u32, e: u32| #[trigger] call_requires(offers_of, (s, e))
}

/// The season and the episode that an episode selector names: two numbers with a
/// separator between them. What follows a second separator is not read.
pub open spec fn episode_selector(raw: Seq<char>) -> Option<(u32, u32)> {
    let fields = split_on(raw, SELECTOR_SEPARATOR);
    if fields.len() >= 2 {
        match (number_of(fields[0]), number_of(fields[1])) {
            (Some(season), Some(episode)) => Some((season, episode)),
            _ => None,
        }
    } else {
        None
    }
}

/// Whether `r` is what comes of resolving the episode `episode` of the season
/// `season` of the series as it is known afterwards: what the catalog lacks, or
/// else the outcome of the resolution of the first offer that serves the
/// language.
pub open spec fn episode_resolution<
    F: Fn(&StreamDescriptor, &Identity) -> Option<String>,
    E: Fn(u32) -> Option<u32>,
    O: Fn(u32, u32) -> Option<Vec<StreamDescriptor>>,
>(
    exchange: F,
    episodes_of: E,
    offers_of: O,
    series: Series,
    lines: Seq<Seq<char>>,
    wanted: Language,
    max_attempts: usize,
    season: u32,
    episode: u32,
    r: Result<String, DownloadError>,
) -> bool {
    match catalog_answer(series, season, episode) {
        Err(e) => {
            &&& r == Err::<String, DownloadError>(DownloadError::Catalog(e))
            &&& unanswered(episodes_of, offers_of, e)
        },
        Ok(entry) => match first_serving(entry.hosters@, wanted) {
            None => r == Err::<String, DownloadError>(DownloadError::NoStream { season, episode }),
            Some(k) => match r {
                Ok(url) => exists|res: Resolved|
                    res.url == url && #[trigger] resolution(
                        exchange,
                        entry.hosters@[k],
                        lines,
                        max_attempts,
                        Ok(res),
                    ),
                Err(DownloadError::IdentityPoolExhausted { season: s, episode: e, attempts }) => {
                    &&& s == season
                    &&& e == episode
                    &&& resolution(
                        exchange,
                        entry.hosters@[k],
                        lines,
                        max_attempts,
                        Err(ResolveError::IdentityPoolExhausted { attempts }),
                    )
                },
                Err(_) => false,
            },
        },
    }
}

/// Whether resolving the episode `episode` of the season `season` can yield an
/// address.
pub open spec fn episode_resolved<
    F: Fn(&StreamDescriptor, &Identity) -> Option<String>,
    E: Fn(u32) -> Option<u32>,
    O: Fn(u32, u32) -> Option<Vec<StreamDescriptor>>,
>(
    exchange: F,
    episodes_of: E,
    offers_of: O,
    series: Series,
    lines: Seq<Seq<char>>,
    wanted: Language,
    max_attempts: usize,
    season: u32,
    episode: u32,
) -> bool {
    exists|url: String| #[trigger]
        episode_resolution(
            exchange,
            episodes_of,
            offers_of,
            series,
            lines,
            wanted,
            max_attempts,
            season,
            episode,
            Ok(url),
        )
}

/// Whether `r` is what comes of resolving the season `season`, episode by episode
/// in ascending order: one address for each episode, or the error at which the
/// batch stopped, before which every episode was resolved.
pub open spec fn season_resolution<
    F: Fn(&StreamDescriptor, &Identity) -> Option<String>,
    E: Fn(u32) -> Option<u32>,
    O: Fn(u32, u32) -> Option<Vec<StreamDescriptor>>,
>(
    exchange: F,
    episodes_of: E,
    offers_of: O,
    series: Series,
    lines: Seq<Seq<char>>,
    wanted: Language,
    max_attempts: usize,
    season: u32,
    r: Result<Vec<String>, DownloadError>,
) -> bool {
    if !(1 <= season <= series.season_count) {
        r == Err::<Vec<String>, DownloadError>(
            DownloadError::Catalog(CatalogLookupError::NoSuchSeason { season }),
        )
    } else {
        match known_season(series.seasons@, season) {
            None => {
                &&& r == Err::<Vec<String>, DownloadError>(
                    DownloadError::Catalog(CatalogLookupError::SeasonUnanswered { season }),
                )
                &&& call_ensures(episodes_of, (season,), None::<u32>)
            },
            Some(detail) => match r {
                Ok(urls) => {
                    &&& urls@.len() == detail.episode_count
                    &&& forall|e: u32|
                        e < detail.episode_count ==> #[trigger] episode_resolution(
                            exchange,
                            episodes_of,
                            offers_of,
                            series,
                            lines,
                            wanted,
                            max_attempts,
                            season,
                            e,
                            Ok(urls@[e as int]),
                        )
                },
                Err(err) => exists|e: u32|
                    {
                        &&& e < detail.episode_count
                        &&& #[trigger] episode_resolution(
                            exchange,
                            episodes_of,
                            offers_of,
                            series,
                            lines,
                            wanted,
                            max_attempts,
                            season,
                            e,
                            Err(err),
                        )
                        &&& forall|k: u32|
                            k < e ==> #[trigger] episode_resolved(
                                exchange,
                                episodes_of,
                                offers_of,
                                series,
                                lines,
                                wanted,
                                max_attempts,
                                season,
                                k,
                            )
                    },
            },
        }
    }
}

/// Whether resolving the season `season` can yield an address for each of its
/// episodes.
pub open spec fn season_resolved<
    F: Fn(&StreamDescriptor, &Identity) -> Option<String>,
    E: Fn(u32) -> Option<u32>,
    O: Fn(u32, u32) -> Option<Vec<StreamDescriptor>>,
>(
    exchange: F,
    episodes_of: E,
    offers_of: O,
    series: Series,
    lines: Seq<Seq<char>>,
    wanted: Language,
    max_attempts: usize,
    season: u32,
) -> bool {
    exists|urls: Vec<String>| #[trigger]
        season_resolution(
            exchange,
            episodes_of,
            offers_of,
            series,
            lines,
            wanted,
            max_attempts,
            season,
            Ok(urls),
        )
}

/// How many episodes the seasons 1 to `n` hold, as far as they are known.
pub open spec fn episodes_before(seasons: Seq<Season>, n: int) -> nat
    decreases n,
{
    if n <= 0 {
        0
    } else {
        episodes_before(seasons, n - 1) + match known_season(seasons, n as u32) {
            Some(detail) => detail.episode_count as nat,
            None => 0nat,
        }
    }
}

/// Whether `r` is what comes of resolving the whole series, season by season from
/// season 1 on and episode by episode within each: the addresses of all episodes
/// in that order, or the error at which the batch stopped, before which every
/// season was resolved.
pub open spec fn series_resolution<
    F: Fn(&StreamDescriptor, &Identity) -> Option<String>,
    E: Fn(u32) -> Option<u32>,
    O: Fn(u32, u32) -> Option<Vec<StreamDescriptor>>,
>(
    exchange: F,
    episodes_of: E,
    offers_of: O,
    series: Series,
    lines: Seq<Seq<char>>,
    wanted: Language,
    max_attempts: usize,
    r: Result<Vec<String>, DownloadError>,
) -> bool {
    match r {
        Ok(urls) => {
            &&& urls@.len() == episodes_before(series.seasons@, series.season_count as int)
            &&& forall|s: u32|
                1 <= s <= series.season_count ==> (#[trigger] known_season(series.seasons@, s))
                    is Some
            &&& forall|s: u32, e: u32|
                1 <= s <= series.season_count && e < known_season(
                    series.seasons@,
                    s,
                )->Some_0.episode_count ==> #[trigger] episode_resolution(
                    exchange,
                    episodes_of,
                    offers_of,
                    series,
                    lines,
                    wanted,
                    max_attempts,
                    s,
                    e,
                    Ok(urls@[episodes_before(series.seasons@, s - 1) + e]),
                )
        },
        Err(err) => exists|s: u32|
            {
                &&& 1 <= s <= series.season_count
                &&& #[trigger] season_resolution(
                    exchange,
                    episodes_of,
                    offers_of,
                    series,
                    lines,
                    wanted,
                    max_attempts,
                    s,
                    Err(err),
                )
                &&& forall|t: u32|
                    1 <= t < s ==> #[trigger] season_resolved(
                        exchange,
                        episodes_of,
                        offers_of,
                        series,
                        lines,
                        wanted,
                        max_attempts,
                        t,
                    )
            },
    }
}

/// Whether `r` is what comes of resolving the episode that the selector `raw`
/// names: one address, or the reason why there is none.
pub open spec fn episode_download<
    F: Fn(&StreamDescriptor, &Identity) -> Option<String>,
    E: Fn(u32) -> Option<u32>,
    O: Fn(u32, u32) -> Option<Vec<StreamDescriptor>>,
>(
    exchange: F,
    episodes_of: E,
    offers_of: O,
    before: Series,
    after: Series,
    lines: Seq<Seq<char>>,
    wanted: Language,
    max_attempts: usize,
    raw: Seq<char>,
    r: Result<Vec<String>, DownloadError>,
) -> bool {
    match episode_selector(raw) {
        None => r == Err::<Vec<String>, DownloadError>(DownloadError::InvalidSelector) && after
            == before,
        Some((season, episode)) => match r {
            Ok(urls) => urls@.len() == 1 && episode_resolution(
                exchange,
                episodes_of,
                offers_of,
                after,
                lines,
                wanted,
                max_attempts,
                season,
                episode,
                Ok(urls@[0]),
            ),
            Err(err) => episode_resolution(
                exchange,
                episodes_of,
                offers_of,
                after,
                lines,
                wanted,
                max_attempts,
                season,
                episode,
                Err(err),
            ),
        },
    }
}

/// Whether `r` is what comes of resolving the season that the selector `raw`
/// names.
pub open spec fn season_download<
    F: Fn(&StreamDescriptor, &Identity) -> Option<String>,
    E: Fn(u32) -> Option<u32>,
    O: Fn(u32, u32) -> Option<Vec<StreamDescriptor>>,
>(
    exchange: F,
    episodes_of: E,
    offers_of: O,
    before: Series,
    after: Series,
    lines: Seq<Seq<char>>,
    wanted: Language,
    max_attempts: usize,
    raw: Seq<char>,
    r: Result<Vec<String>, DownloadError>,
) -> bool {
    match number_of(raw) {
        None => r == Err::<Vec<String>, DownloadError>(DownloadError::InvalidSelector) && after
            == before,
        Some(season) => season_resolution(
            exchange,
            episodes_of,
            offers_of,
            after,
            lines,
            wanted,
            max_attempts,
            season,
            r,
        ),
    }
}

/// An episode that was resolved stays resolved, with the same address, when more
/// of the series becomes known.
pub proof fn lemma_episode_resolution_kept<
    F: Fn(&StreamDescriptor, &Identity) -> Option<String>,
    E: Fn(u32) -> Option<u32>,
    O: Fn(u32, u32) -> Option<Vec<StreamDescriptor>>,
>(
    exchange: F,
    episodes_of: E,
    offers_of: O,
    before: Series,
    after: Series,
    lines: Seq<Seq<char>>,
    wanted: Language,
    max_attempts: usize,
    season: u32,
    episode: u32,
    url: String,
)
    requires
        grown(episodes_of, offers_of, before, after),
        episode_resolution(
            exchange,
            episodes_of,
            offers_of,
            before,
            lines,
            wanted,
            max_attempts,
            season,
            episode,
            Ok(url),
        ),
    ensures
        episode_resolution(
            exchange,
            episodes_of,
            offers_of,
            after,
            lines,
            wanted,
            max_attempts,
            season,
            episode,
            Ok(url),
        ),
{
    lemma_catalog_answer_kept(episodes_of, offers_of, before, after, season, episode);
}

/// The count of the episodes of seasons that are known does not change when more
/// of the series becomes known.
pub proof fn lemma_episodes_before_kept(a: Seq<Season>, b: Seq<Season>, n: int)
    requires
        n <= u32::MAX,
        crate::catalog::is_prefix(a, b),
        forall|s: u32| 1 <= s <= n ==> (#[trigger] known_season(a, s)) is Some,
    ensures
        episodes_before(b, n) == episodes_before(a, n),
    decreases n,
{
    if n > 0 {
        lemma_episodes_before_kept(a, b, n - 1);
        assert(known_season(a, n as u32) is Some);
        crate::catalog::lemma_known_season_kept(a, b, n as u32);
    }
}

/// More seasons hold no fewer episodes.
pub proof fn lemma_episodes_before_grows(seasons: Seq<Season>, m: int, n: int)
    requires
        m <= n,
    ensures
        episodes_before(seasons, m) <= episodes_before(seasons, n),
    decreases n - m,
{
    if m < n {
        lemma_episodes_before_grows(seasons, m, n - 1);
    }
}

/// Reads an episode selector.
pub fn parse_episode_selector(raw: &str) -> (r: Option<(u32, u32)>)
    ensures
        r == episode_selector(raw@),
{
    let fields = split(raw, SELECTOR_SEPARATOR);
    if fields.len() < 2 {
        return None;
    }
    assert(views(fields@)[0] == fields@[0]@);
    assert(views(fields@)[1] == fields@[1]@);
    match (parse_number(fields[0].as_str()), parse_number(fields[1].as_str())) {
        (Some(season), Some(episode)) => Some((season, episode)),
        _ => None,
    }
}

/// Resolves one episode: what is not known of it yet is fetched, and its first
/// offer that serves `wanted` is exchanged for an address with the identities of
/// the pool.
pub fn resolve_episode<
    F: Fn(&StreamDescriptor, &Identity) -> Option<String>,
    E: Fn(u32) -> Option<u32>,
    O: Fn(u32, u32) -> Option<Vec<StreamDescriptor>>,
>(
    series: &mut Series,
    season: u32,
    episode: u32,
    wanted: Language,
    store: &Store,
    max_attempts: usize,
    episodes_of: &E,
    offers_of: &O,
    exchange: &F,
) -> (r: Result<String, DownloadError>)
    requires
        source_callable(*episodes_of, *offers_of),
        always_callable(*exchange),
    ensures
        grown(*episodes_of, *offers_of, *old(series), *final(series)),
        episode_resolution(
            *exchange,
            *episodes_of,
            *offers_of,
            *final(series),
            store@,
            wanted,
            max_attempts,
            season,
            episode,
            r,
        ),
{
    let place = match series.episode(season, episode, episodes_of, offers_of) {
        Ok(place) => place,
        Err(e) => {
            return Err(DownloadError::Catalog(e));
        },
    };
    match series.episodes[place].stream_descriptor(wanted) {
        None => Err(DownloadError::NoStream { season, episode }),
        Some(descriptor) => match resolve(store, descriptor, max_attempts, exchange) {
            Ok(res) => {
                let ghost whole = res;
                assert(resolution(*exchange, *descriptor, store@, max_attempts, Ok(whole)));
                Ok(res.url)
            },
            Err(ResolveError::IdentityPoolExhausted { attempts }) => Err(
                DownloadError::IdentityPoolExhausted { season, episode, attempts },
            ),
        },
    }
}

/// Resolves the episode that `raw` names as season and episode, and returns its
/// address as the only entry.
pub fn download_episode<
    F: Fn(&StreamDescriptor, &Identity) -> Option<String>,
    E: Fn(u32) -> Option<u32>,
    O: Fn(u32, u32) -> Option<Vec<StreamDescriptor>>,
>(
    series: &mut Series,
    raw: &str,
    wanted: Language,
    store: &Store,
    max_attempts: usize,
    episodes_of: &E,
    offers_of: &O,
    exchange: &F,
) -> (r: Result<Vec<String>, DownloadError>)
    requires
        source_callable(*episodes_of, *offers_of),
        always_callable(*exchange),
    ensures
        grown(*episodes_of, *offers_of, *old(series), *final(series)),
        episode_download(
            *exchange,
            *episodes_of,
            *offers_of,
            *old(series),
            *final(series),
            store@,
            wanted,
            max_attempts,
            raw@,
            r,
        ),
{
    proof {
        lemma_grown_same(*episodes_of, *offers_of, *series);
    }
    match parse_episode_selector(raw) {
        None => Err(DownloadError::InvalidSelector),
        Some((season, episode)) => {
            match resolve_episode(
                series,
                season,
                episode,
                wanted,
                store,
                max_attempts,
                episodes_of,
                offers_of,
                exchange,
            ) {
                Ok(url) => {
                    let mut urls: Vec<String> = Vec::new();
                    urls.push(url);
                    Ok(urls)
                },
                Err(err) => Err(err),
            }
        },
    }
}

/// Resolves every episode of the season with the number `season`, in ascending
/// order, and stops at the first episode that fails.
pub fn resolve_season<
    F: Fn(&StreamDescriptor, &Identity) -> Option<String>,
    E: Fn(u32) -> Option<u32>,
    O: Fn(u32, u32) -> Option<Vec<StreamDescriptor>>,
>(
    series: &mut Series,
    season: u32,
    wanted: Language,
    store: &Store,
    max_attempts: usize,
    episodes_of: &E,
    offers_of: &O,
    exchange: &F,
) -> (r: Result<Vec<String>, DownloadError>)
    requires
        source_callable(*episodes_of, *offers_of),
        always_callable(*exchange),
    ensures
        grown(*episodes_of, *offers_of, *old(series), *final(series)),
        season_resolution(
            *exchange,
            *episodes_of,
            *offers_of,
            *final(series),
            store@,
            wanted,
            max_attempts,
            season,
            r,
        ),
{
    proof {
        crate::catalog::lemma_episodes_grown_same(*offers_of, series.episodes@);
    }
    let detail = match series.season(season, episodes_of) {
        Ok(detail) => detail,
        Err(e) => {
            return Err(DownloadError::Catalog(e));
        },
    };
    let count = detail.episode_count;
    let mut urls: Vec<String> = Vec::new();
    let mut e: u32 = 0;
    while e < count
        invariant
            source_callable(*episodes_of, *offers_of),
            always_callable(*exchange),
            grown(*episodes_of, *offers_of, *old(series), *series),
            1 <= season <= series.season_count,
            known_season(series.seasons@, season) == Some(detail),
            count == detail.episode_count,
            e <= count,
            urls@.len() == e,
            forall|k: u32|
                k < e ==> #[trigger] episode_resolution(
                    *exchange,
                    *episodes_of,
                    *offers_of,
                    *series,
                    store@,
                    wanted,
                    max_attempts,
                    season,
                    k,
                    Ok(urls@[k as int]),
                ),
        decreases count - e,
    {
        let ghost earlier = *series;
        let ghost found = urls@;
        let outcome = resolve_episode(
            series,
            season,
            e,
            wanted,
            store,
            max_attempts,
            episodes_of,
            offers_of,
            exchange,
        );
        proof {
            lemma_grown_further(*episodes_of, *offers_of, *old(series), earlier, *series);
            lemma_catalog_answer_kept(*episodes_of, *offers_of, earlier, *series, season, 0);
            assert forall|k: u32| k < e implies #[trigger] episode_resolution(
                *exchange,
                *episodes_of,
                *offers_of,
                *series,
                store@,
                wanted,
                max_attempts,
                season,
                k,
                Ok(found[k as int]),
            ) by {
                lemma_episode_resolution_kept(
                    *exchange,
                    *episodes_of,
                    *offers_of,
                    earlier,
                    *series,
                    store@,
                    wanted,
                    max_attempts,
                    season,
                    k,
                    found[k as int],
                );
            }
        }
        match outcome {
            Ok(url) => {
                urls.push(url);
            },
            Err(err) => {
                let r = Err(err);
                proof {
                    assert forall|k: u32| k < e implies #[trigger] episode_resolved(
                        *exchange,
                        *episodes_of,
                        *offers_of,
                        *series,
                        store@,
                        wanted,
                        max_attempts,
                        season,
                        k,
                    ) by {
                        assert(episode_resolution(
                            *exchange,
                            *episodes_of,
                            *offers_of,
                            *series,
                            store@,
                            wanted,
                            max_attempts,
                            season,
                            k,
                            Ok(found[k as int]),
                        ));
                    }
                    assert(episode_resolution(
                        *exchange,
                        *episodes_of,
                        *offers_of,
                        *series,
                        store@,
                        wanted,
                        max_attempts,
                        season,
                        e,
                        Err(err),
                    ));
                }
                return r;
            },
        }
        e += 1;
    }
    Ok(urls)
}

/// Resolves every episode of the season that `raw` names, in ascending order, and
/// returns one address for each.
pub fn download_season<
    F: Fn(&StreamDescriptor, &Identity) -> Option<String>,
    E: Fn(u32) -> Option<u32>,
    O: Fn(u32, u32) -> Option<Vec<StreamDescriptor>>,
>(
    series: &mut Series,
    raw: &str,
    wanted: Language,
    store: &Store,
    max_attempts: usize,
    episodes_of: &E,
    offers_of: &O,
    exchange: &F,
) -> (r: Result<Vec<String>, DownloadError>)
    requires
        source_callable(*episodes_of, *offers_of),
        always_callable(*exchange),
    ensures
        grown(*episodes_of, *offers_of, *old(series), *final(series)),
        season_download(
            *exchange,
            *episodes_of,
            *offers_of,
            *old(series),
            *final(series),
            store@,
            wanted,
            max_attempts,
            raw@,
            r,
        ),
{
    proof {
        lemma_grown_same(*episodes_of, *offers_of, *series);
    }
    match parse_number(raw) {
        None => Err(DownloadError::InvalidSelector),
        Some(season) => resolve_season(
            series,
            season,
            wanted,
            store,
            max_attempts,
            episodes_of,
            offers_of,
            exchange,
        ),
    }
}

/// A season that was resolved stays resolved, with the same addresses, when more
/// of the series becomes known.
pub proof fn lemma_season_resolution_kept<
    F: Fn(&StreamDescriptor, &Identity) -> Option<String>,
    E: Fn(u32) -> Option<u32>,
    O: Fn(u32, u32) -> Option<Vec<StreamDescriptor>>,
>(
    exchange: F,
    episodes_of: E,
    offers_of: O,
    before: Series,
    after: Series,
    lines: Seq<Seq<char>>,
    wanted: Language,
    max_attempts: usize,
    season: u32,
    urls: Vec<String>,
)
    requires
        grown(episodes_of, offers_of, before, after),
        season_resolution(
            exchange,
            episodes_of,
            offers_of,
            before,
            lines,
            wanted,
            max_attempts,
            season,
            Ok(urls),
        ),
    ensures
        season_resolution(
            exchange,
            episodes_of,
            offers_of,
            after,
            lines,
            wanted,
            max_attempts,
            season,
            Ok(urls),
        ),
{
    lemma_catalog_answer_kept(episodes_of, offers_of, before, after, season, 0);
    let detail = known_season(before.seasons@, season)->Some_0;
    assert forall|e: u32| e < detail.episode_count implies #[trigger] episode_resolution(
        exchange,
        episodes_of,
        offers_of,
        after,
        lines,
        wanted,
        max_attempts,
        season,
        e,
        Ok(urls@[e as int]),
    ) by {
        lemma_episode_resolution_kept(
            exchange,
            episodes_of,
            offers_of,
            before,
            after,
            lines,
            wanted,
            max_attempts,
            season,
            e,
            urls@[e as int],
        );
    }
}

/// Resolves every episode of the series: the seasons from season 1 on in
/// ascending order, the episodes of each in ascending order. Returns the addresses
/// in that order, and stops at the first episode that fails.
pub fn download_series<
    F: Fn(&StreamDescriptor, &Identity) -> Option<String>,
    E: Fn(u32) -> Option<u32>,
    O: Fn(u32, u32) -> Option<Vec<StreamDescriptor>>,
>(
    series: &mut Series,
    wanted: Language,
    store: &Store,
    max_attempts: usize,
    episodes_of: &E,
    offers_of: &O,
    exchange: &F,
) -> (r: Result<Vec<String>, DownloadError>)
    requires
        source_callable(*episodes_of, *offers_of),
        always_callable(*exchange),
    ensures
        grown(*episodes_of, *offers_of, *old(series), *final(series)),
        series_resolution(
            *exchange,
            *episodes_of,
            *offers_of,
            *final(series),
            store@,
            wanted,
            max_attempts,
            r,
        ),
{
    proof {
        lemma_grown_same(*episodes_of, *offers_of, *series);
    }
    let count = series.season_count();
    let mut urls: Vec<String> = Vec::new();
    let mut s: u32 = 0;
    while s < count
        invariant
            source_callable(*episodes_of, *offers_of),
            always_callable(*exchange),
            grown(*episodes_of, *offers_of, *old(series), *series),
            count == series.season_count,
            s <= count,
            forall|t: u32| 1 <= t <= s ==> (#[trigger] known_season(series.seasons@, t)) is Some,
            urls@.len() == episodes_before(series.seasons@, s as int),
            forall|t: u32, e: u32|
                1 <= t <= s && e < known_season(series.seasons@, t)->Some_0.episode_count
                    ==> #[trigger] episode_resolution(
                    *exchange,
                    *episodes_of,
                    *offers_of,
                    *series,
                    store@,
                    wanted,
                    max_attempts,
                    t,
                    e,
                    Ok(urls@[episodes_before(series.seasons@, t - 1) + e]),
                ),
            forall|t: u32|
                1 <= t <= s ==> #[trigger] season_resolved(
                    *exchange,
                    *episodes_of,
                    *offers_of,
                    *series,
                    store@,
                    wanted,
                    max_attempts,
                    t,
                ),
        decreases count - s,
    {
        let ghost earlier = *series;
        let ghost found = urls@;
        let outcome = resolve_season(
            series,
            s + 1,
            wanted,
            store,
            max_attempts,
            episodes_of,
            offers_of,
            exchange,
        );
        proof {
            lemma_grown_further(*episodes_of, *offers_of, *old(series), earlier, *series);
            assert forall|t: u32| 1 <= t <= s implies (#[trigger] known_season(
                series.seasons@,
                t,
            )) == known_season(earlier.seasons@, t) by {
                lemma_catalog_answer_kept(*episodes_of, *offers_of, earlier, *series, t, 0);
            }
            assert forall|t: int| 0 <= t <= s implies episodes_before(series.seasons@, t)
                == episodes_before(earlier.seasons@, t) by {
                lemma_episodes_before_kept(earlier.seasons@, series.seasons@, t);
            }
            assert forall|t: u32, e: u32|
                1 <= t <= s && e < known_season(
                    series.seasons@,
                    t,
                )->Some_0.episode_count implies #[trigger] episode_resolution(
                *exchange,
                *episodes_of,
                *offers_of,
                *series,
                store@,
                wanted,
                max_attempts,
                t,
                e,
                Ok(found[episodes_before(series.seasons@, t - 1) + e]),
            ) by {
                assert(known_season(series.seasons@, t) == known_season(earlier.seasons@, t));
                lemma_episode_resolution_kept(
                    *exchange,
                    *episodes_of,
                    *offers_of,
                    earlier,
                    *series,
                    store@,
                    wanted,
                    max_attempts,
                    t,
                    e,
                    found[episodes_before(earlier.seasons@, t - 1) + e],
                );
            }
            assert forall|t: u32| 1 <= t <= s implies #[trigger] season_resolved(
                *exchange,
                *episodes_of,
                *offers_of,
                *series,
                store@,
                wanted,
                max_attempts,
                t,
            ) by {
                assert(season_resolved(
                    *exchange,
                    *episodes_of,
                    *offers_of,
                    earlier,
                    store@,
                    wanted,
                    max_attempts,
                    t,
                ));
                let kept = choose|kept: Vec<String>| #[trigger]
                    season_resolution(
                        *exchange,
                        *episodes_of,
                        *offers_of,
                        earlier,
                        store@,
                        wanted,
                        max_attempts,
                        t,
                        Ok(kept),
                    );
                lemma_season_resolution_kept(
                    *exchange,
                    *episodes_of,
                    *offers_of,
                    earlier,
                    *series,
                    store@,
                    wanted,
                    max_attempts,
                    t,
                    kept,
                );
            }
        }
        match outcome {
            Ok(mut added) => {
                let ghost whole = added@;
                assert(season_resolved(
                    *exchange,
                    *episodes_of,
                    *offers_of,
                    *series,
                    store@,
                    wanted,
                    max_attempts,
                    (s + 1) as u32,
                ));
                urls.append(&mut added);
                assert forall|t: u32, e: u32|
                    1 <= t <= s + 1 && e < known_season(
                        series.seasons@,
                        t,
                    )->Some_0.episode_count implies #[trigger] episode_resolution(
                    *exchange,
                    *episodes_of,
                    *offers_of,
                    *series,
                    store@,
                    wanted,
                    max_attempts,
                    t,
                    e,
                    Ok(urls@[episodes_before(series.seasons@, t - 1) + e]),
                ) by {
                    lemma_episodes_before_grows(series.seasons@, t - 1, s as int);
                    if t <= s {
                        lemma_episodes_before_grows(series.seasons@, t as int, s as int);
                        assert(urls@[episodes_before(series.seasons@, t - 1) + e] == found[episodes_before(
                            series.seasons@,
                            t - 1,
                        ) + e]);
                    } else {
                        assert(urls@[episodes_before(series.seasons@, t - 1) + e] == whole[e as int]);
                    }
                }
            },
            Err(err) => {
                let r = Err(err);
                assert(season_resolution(
                    *exchange,
                    *episodes_of,
                    *offers_of,
                    *series,
                    store@,
                    wanted,
                    max_attempts,
                    (s + 1) as u32,
                    r,
                ));
                return r;
            },
        }
        s += 1;
    }
    Ok(urls)
}

} // verus!