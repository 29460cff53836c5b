//! The catalog: a series, and what is known so far of its seasons and episodes.
//! What is not known yet is asked of the catalog source when it is first needed,
//! and kept.

use vstd::prelude::*;

verus! {

/// The stream variant that is asked for.
#[derive(Clone, Copy, Debug, PartialEq, Eq, Structural)]
pub enum Language {
    German,
    English,
    GermanSubtitles,
    /// Any variant will do.
    Unknown,
}

/// One hoster's offer of one episode.
#[derive(Clone, Debug, PartialEq, Eq)]
pub struct StreamDescriptor {
    /// The hoster's name.
    pub hoster: String,
    /// The variant that the hoster offers.
    pub language: Language,
    /// What the hoster wants to see in exchange for the stream's address.
    pub link: String,
}

/// What is known of one season: its number, counted from 1, and how many
/// episodes it has.
#[derive(Clone, Copy, Debug, PartialEq, Eq, Structural)]
pub struct Season {
    pub number: u32,
    pub episode_count: u32,
}

/// What is known of one episode: its season, its number within the season,
/// counted from 0, and the hosters that offer it, in the catalog's order.
#[derive(Clone, Debug, PartialEq, Eq)]
pub struct Episode {
    pub season: u32,
    pub number: u32,
    pub hosters: Vec<StreamDescriptor>,
}

/// One series: its identifier, its title, the count of its seasons, and what was
/// fetched of its seasons and episodes so far, each in the order of its first
/// use. Of two entries for one season or episode the earlier one counts.
#[derive(Clone, Debug, PartialEq, Eq)]
pub struct Series {
    pub id: u32,
    pub title: String,
    pub season_count: u32,
    pub seasons: Vec<Season>,
    pub episodes: Vec<Episode>,
}

/// Why a lookup in the catalog has no answer.
#[derive(Clone, Copy, Debug, PartialEq, Eq, Structural)]
pub enum CatalogLookupError {
    /// The series has no season of this number.
    NoSuchSeason { season: u32 },
    /// The season has no episode of this number.
    NoSuchEpisode { season: u32, episode: u32 },
    /// The catalog source did not say how many episodes the season has.
    SeasonUnanswered { season: u32 },
    /// The catalog source did not name the hosters of the episode.
    EpisodeUnanswered { season: u32, episode: u32 },
}

/// Whether an offer in language `offered` answers a wish for `wanted`.
pub open spec fn serves(offered: Language, wanted: Language) -> bool {
    wanted == Language::Unknown || offered == wanted
}

/// The position of the first offer that serves `wanted`, if there is one.
pub open spec fn first_serving(hosters: Seq<StreamDescriptor>, wanted: Language) -> Option<int>
    decreases hosters.len(),
{
    if hosters.len() == 0 {
        None
    } else {
        match first_serving(hosters.drop_last(), wanted) {
            Some(k) => Some(k),
            None => if serves(hosters.last().language, wanted) {
                Some(hosters.len() - 1)
            } else {
                None
            },
        }
    }
}

/// What is known of the season with the number `number`.
pub open spec fn known_season(seasons: Seq<Season>, number: u32) -> Option<Season>
    decreases seasons.len(),
{
    if seasons.len() == 0 {
        None
    } else {
        match known_season(seasons.drop_last(), number) {
            Some(found) => Some(found),
            None => if seasons.last().number == number {
                Some(seasons.last())
            } else {
                None
            },
        }
    }
}

/// What is known of the episode `number` of the season `season`.
pub open spec fn known_episode(episodes: Seq<Episode>, season: u32, number: u32) -> Option<
    Episode,
>
    decreases episodes.len(),
{
    if episodes.len() == 0 {
        None
    } else {
        match known_episode(episodes.drop_last(), season, number) {
            Some(found) => Some(found),
            None => if episodes.last().season == season && episodes.last().number == number {
                Some(episodes.last())
            } else {
                None
            },
        }
    }
}

/// Whether `a` is what stands at the start of `b`.
pub open spec fn is_prefix<T>(a: Seq<T>, b: Seq<T>) -> bool {
    a.len() <= b.len() && b.take(a.len() as int) == a
}

/// Whether the seasons known have only grown: what was known is kept, and each
/// entry added answers a question that was open, with an answer of the catalog
/// source.
pub open spec fn seasons_grown<E: Fn(u32) -> Option<u32>>(
    episodes_of: E,
    before: Seq<Season>,
    after: Seq<Season>,
) -> bool {
    &&& is_prefix(before, after)
    &&& forall|k: int|
        before.len() <= k < after.len() ==> {
            let added = #[trigger] after[k];
            &&& known_season(after.take(k), added.number) is None
            &&& call_ensures(episodes_of, (added.number,), Some(added.episode_count))
        }
}

/// Whether the episodes known have only grown: what was known is kept, and each
/// entry added answers a question that was open, with an answer of the catalog
/// source.
pub open spec fn episodes_grown<O: Fn(u32, u32) -> Option<Vec<StreamDescriptor>>>(
    offers_of: O,
    before: Seq<Episode>,
    after: Seq<Episode>,
) -> bool {
    &&& is_prefix(before, after)
    &&& forall|k: int|
        before.len() <= k < after.len() ==> {
            let added = #[trigger] after[k];
            &&& known_episode(after.take(k), added.season, added.number) is None
            &&& call_ensures(offers_of, (added.season, added.number), Some(added.hosters))
        }
}

/// Whether the series `after` is the series `before` with more known of it.
pub open spec fn grown<E: Fn(u32) -> Option<u32>, O: Fn(u32, u32) -> Option<Vec<StreamDescriptor>>>(
    episodes_of: E,
    offers_of: O,
    before: Series,
    after: Series,
) -> bool {
    &&& after.id == before.id
    &&& after.title == before.title
    &&& after.season_count == before.season_count
    &&& seasons_grown(episodes_of, before.seasons@, after.seasons@)
    &&& episodes_grown(offers_of, before.episodes@, after.episodes@)
}

/// Whether `r` is what comes of asking for the season `number` of a series with
/// `season_count` seasons, of which `before` was known before and `after` is
/// known now.
///
/// A number that names no season is refused. A season that was known is
/// answered from what was known. For any other the catalog source is asked, and
/// its answer is kept.
pub open spec fn season_lookup<E: Fn(u32) -> Option<u32>>(
    episodes_of: E,
    season_count: u32,
    before: Seq<Season>,
    after: Seq<Season>,
    number: u32,
    r: Result<Season, CatalogLookupError>,
) -> bool {
    &&& seasons_grown(episodes_of, before, after)
    &&& after.len() <= before.len() + 1
    &&& known_season(before, number) is Some ==> after == before
    &&& if !(1 <= number <= season_count) {
        r == Err::<Season, CatalogLookupError>(CatalogLookupError::NoSuchSeason { season: number }) && after
            == before
    } else {
        match r {
            Ok(found) => known_season(after, number) == Some(found),
            Err(e) => {
                &&& e == CatalogLookupError::SeasonUnanswered { season: number }
                &&& after == before
                &&& known_season(after, number) is None
                &&& call_ensures(episodes_of, (number,), None::<u32>)
            },
        }
    }
}

/// What the series as it is known answers when asked for the episode `number` of
/// the season `season`: what is known of that episode, or what is lacking.
pub open spec fn catalog_answer(series: Series, season: u32, number: u32) -> Result<
    Episode,
    CatalogLookupError,
> {
    if !(1 <= season <= series.season_count) {
        Err(CatalogLookupError::NoSuchSeason { season })
    } else {
        match known_season(series.seasons@, season) {
            None => Err(CatalogLookupError::SeasonUnanswered { season }),
            Some(detail) => if number >= detail.episode_count {
                Err(CatalogLookupError::NoSuchEpisode { season, episode: number })
            } else {
                match known_episode(series.episodes@, season, number) {
                    None => Err(CatalogLookupError::EpisodeUnanswered { season, episode: number }),
                    Some(entry) => Ok(entry),
                }
            },
        }
    }
}

/// Whether the catalog source may have left the question open that the error
/// names. An error that names no open question claims nothing of the source.
pub open spec fn unanswered<
    E: Fn(u32) -> Option<u32>,
    O: Fn(u32, u32) -> Option<Vec<StreamDescriptor>>,
>(episodes_of: E, offers_of: O, e: CatalogLookupError) -> bool {
    match e {
        CatalogLookupError::SeasonUnanswered { season } => call_ensures(
            episodes_of,
            (season,),
            None::<u32>,
        ),
        CatalogLookupError::EpisodeUnanswered { season, episode } => call_ensures(
            offers_of,
            (season, episode),
            None::<Vec<StreamDescriptor>>,
        ),
        _ => true,
    }
}

/// Whether `r` is what comes of asking the series `after`, which has grown from
/// `before`, for the episode `number` of the season `season`: the place of the
/// episode among the episodes known, or what the catalog lacks.
pub open spec fn episode_lookup<
    E: Fn(u32) -> Option<u32>,
    O: Fn(u32, u32) -> Option<Vec<StreamDescriptor>>,
>(
    episodes_of: E,
    offers_of: O,
    before: Series,
    after: Series,
    season: u32,
    number: u32,
    r: Result<usize, CatalogLookupError>,
) -> bool {
    &&& grown(episodes_of, offers_of, before, after)
    &&& match catalog_answer(after, season, number) {
        Ok(entry) => r matches Ok(k) && k < after.episodes@.len() && after.episodes@[k as int]
            == entry,
        Err(e) => r == Err::<usize, CatalogLookupError>(e) && unanswered(
            episodes_of,
            offers_of,
            e,
        ),
    }
}

/// What the series answered stays its answer when it grows.
pub proof fn lemma_catalog_answer_kept<
    E: Fn(u32) -> Option<u32>,
    O: Fn(u32, u32) -> Option<Vec<StreamDescriptor>>,
>(episodes_of: E, offers_of: O, before: Series, after: Series, season: u32, number: u32)
    requires
        grown(episodes_of, offers_of, before, after),
    ensures
        known_season(before.seasons@, season) is Some ==> known_season(after.seasons@, season)
            == known_season(before.seasons@, season),
        catalog_answer(before, season, number) is Ok ==> catalog_answer(after, season, number)
            == catalog_answer(before, season, number),
        catalog_answer(before, season, number) matches Err(e) && (e is NoSuchSeason
            || e is NoSuchEpisode) ==> catalog_answer(after, season, number) == catalog_answer(
            before,
            season,
            number,
        ),
{
    if known_season(before.seasons@, season) is Some {
        lemma_known_season_kept(before.seasons@, after.seasons@, season);
    }
    if known_episode(before.episodes@, season, number) is Some {
        lemma_known_episode_kept(before.episodes@, after.episodes@, season, number);
    }
}

/// What is known of a season is the first entry that names it.
pub proof fn lemma_known_season_entry(seasons: Seq<Season>, number: u32) -> (k: int)
    requires
        known_season(seasons, number) is Some,
    ensures
        0 <= k < seasons.len(),
        known_season(seasons, number) == Some(seasons[k]),
        seasons[k].number == number,
        known_season(seasons.take(k), number) is None,
    decreases seasons.len(),
{
    if known_season(seasons.drop_last(), number) is Some {
        let k = lemma_known_season_entry(seasons.drop_last(), number);
        assert(seasons.drop_last().take(k) =~= seasons.take(k));
        k
    } else {
        assert(seasons.take(seasons.len() - 1) =~= seasons.drop_last());
        seasons.len() - 1
    }
}

/// What is known of an episode is the first entry that names it.
pub proof fn lemma_known_episode_entry(episodes: Seq<Episode>, season: u32, number: u32) -> (k:
    int)
    requires
        known_episode(episodes, season, number) is Some,
    ensures
        0 <= k < episodes.len(),
        known_episode(episodes, season, number) == Some(episodes[k]),
        episodes[k].season == season,
        episodes[k].number == number,
        known_episode(episodes.take(k), season, number) is None,
    decreases episodes.len(),
{
    if known_episode(episodes.drop_last(), season, number) is Some {
        let k = lemma_known_episode_entry(episodes.drop_last(), season, number);
        assert(episodes.drop_last().take(k) =~= episodes.take(k));
        k
    } else {
        assert(episodes.take(episodes.len() - 1) =~= episodes.drop_last());
        episodes.len() - 1
    }
}

/// What has become known of a season is an answer of the catalog source.
pub proof fn lemma_fetched_season_is_answer<E: Fn(u32) -> Option<u32>>(
    episodes_of: E,
    before: Seq<Season>,
    after: Seq<Season>,
    number: u32,
)
    requires
        seasons_grown(episodes_of, before, after),
        known_season(before, number) is None,
        known_season(after, number) is Some,
    ensures
        call_ensures(
            episodes_of,
            (number,),
            Some(known_season(after, number)->Some_0.episode_count),
        ),
{
    let k = lemma_known_season_entry(after, number);
    if k < before.len() {
        assert(after.take(k + 1) =~= before.take(k + 1));
        assert(before.take(k + 1).drop_last() =~= before.take(k));
        assert(is_prefix(before.take(k + 1), before)) by {
            assert(before.take(k + 1).take(k + 1) =~= before.take(k + 1));
        }
        lemma_known_season_kept(before.take(k + 1), before, number);
    }
}

/// What has become known of an episode is an answer of the catalog source.
pub proof fn lemma_fetched_episode_is_answer<O: Fn(u32, u32) -> Option<Vec<StreamDescriptor>>>(
    offers_of: O,
    before: Seq<Episode>,
    after: Seq<Episode>,
    season: u32,
    number: u32,
)
    requires
        episodes_grown(offers_of, before, after),
        known_episode(before, season, number) is None,
        known_episode(after, season, number) is Some,
    ensures
        call_ensures(
            offers_of,
            (season, number),
            Some(known_episode(after, season, number)->Some_0.hosters),
        ),
{
    let k = lemma_known_episode_entry(after, season, number);
    if k < before.len() {
        assert(after.take(k + 1) =~= before.take(k + 1));
        assert(before.take(k + 1).drop_last() =~= before.take(k));
        assert(is_prefix(before.take(k + 1), before)) by {
            assert(before.take(k + 1).take(k + 1) =~= before.take(k + 1));
        }
        lemma_known_episode_kept(before.take(k + 1), before, season, number);
    }
}

/// What was known of a season stays known when more entries follow.
pub proof fn lemma_known_season_kept(a: Seq<Season>, b: Seq<Season>, number: u32)
    requires
        is_prefix(a, b),
        known_season(a, number) is Some,
    ensures
        known_season(b, number) == known_season(a, number),
    decreases b.len(),
{
    if a.len() < b.len() {
        assert(b.drop_last().take(a.len() as int) =~= b.take(a.len() as int));
        lemma_known_season_kept(a, b.drop_last(), number);
    } else {
        assert(b.take(b.len() as int) =~= b);
    }
}

/// What was known of an episode stays known when more entries follow.
pub proof fn lemma_known_episode_kept(a: Seq<Episode>, b: Seq<Episode>, season: u32, number: u32)
    requires
        is_prefix(a, b),
        known_episode(a, season, number) is Some,
    ensures
        known_episode(b, season, number) == known_episode(a, season, number),
    decreases b.len(),
{
    if a.len() < b.len() {
        assert(b.drop_last().take(a.len() as int) =~= b.take(a.len() as int));
        lemma_known_episode_kept(a, b.drop_last(), season, number);
    } else {
        assert(b.take(b.len() as int) =~= b);
    }
}

/// Every list of seasons has grown from itself.
pub proof fn lemma_seasons_grown_same<E: Fn(u32) -> Option<u32>>(episodes_of: E, a: Seq<Season>)
    ensures
        seasons_grown(episodes_of, a, a),
{
    assert(a.take(a.len() as int) =~= a);
}

/// Every list of episodes has grown from itself.
pub proof fn lemma_episodes_grown_same<O: Fn(u32, u32) -> Option<Vec<StreamDescriptor>>>(
    offers_of: O,
    a: Seq<Episode>,
)
    ensures
        episodes_grown(offers_of, a, a),
{
    assert(a.take(a.len() as int) =~= a);
}

/// Growing is transitive for the seasons known.
pub proof fn lemma_seasons_grown_further<E: Fn(u32) -> Option<u32>>(
    episodes_of: E,
    a: Seq<Season>,
    b: Seq<Season>,
    c: Seq<Season>,
)
    requires
        seasons_grown(episodes_of, a, b),
        seasons_grown(episodes_of, b, c),
    ensures
        seasons_grown(episodes_of, a, c),
{
    assert(c.take(a.len() as int) =~= b.take(a.len() as int));
    assert forall|k: int| a.len() <= k < c.len() implies {
        let added = #[trigger] c[k];
        &&& known_season(c.take(k), added.number) is None
        &&& call_ensures(episodes_of, (added.number,), Some(added.episode_count))
    } by {
        if k < b.len() {
            assert(c[k] == b[k]);
            assert(c.take(k) =~= b.take(k));
        }
    }
}

/// Growing is transitive for the episodes known.
pub proof fn lemma_episodes_grown_further<O: Fn(u32, u32) -> Option<Vec<StreamDescriptor>>>(
    offers_of: O,
    a: Seq<Episode>,
    b: Seq<Episode>,
    c: Seq<Episode>,
)
    requires
        episodes_grown(offers_of, a, b),
        episodes_grown(offers_of, b, c),
    ensures
        episodes_grown(offers_of, a, c),
{
    assert(c.take(a.len() as int) =~= b.take(a.len() as int));
    assert forall|k: int| a.len() <= k < c.len() implies {
        let added = #[trigger] c[k];
        &&& known_episode(c.take(k), added.season, added.number) is None
        &&& call_ensures(offers_of, (added.season, added.number), Some(added.hosters))
    } by {
        if k < b.len() {
            assert(c[k] == b[k]);
            assert(c.take(k) =~= b.take(k));
        }
    }
}

/// Every series has grown from itself.
pub proof fn lemma_grown_same<
    E: Fn(u32) -> Option<u32>,
    O: Fn(u32, u32) -> Option<Vec<StreamDescriptor>>,
>(episodes_of: E, offers_of: O, a: Series)
    ensures
        grown(episodes_of, offers_of, a, a),
{
    lemma_seasons_grown_same(episodes_of, a.seasons@);
    lemma_episodes_grown_same(offers_of, a.episodes@);
}

/// Growing is transitive.
pub proof fn lemma_grown_further<
    E: Fn(u32) -> Option<u32>,
    O: Fn(u32, u32) -> Option<Vec<StreamDescriptor>>,
>(episodes_of: E, offers_of: O, a: Series, b: Series, c: Series)
    requires
        grown(episodes_of, offers_of, a, b),
        grown(episodes_of, offers_of, b, c),
    ensures
        grown(episodes_of, offers_of, a, c),
{
    lemma_seasons_grown_further(episodes_of, a.seasons@, b.seasons@, c.seasons@);
    lemma_episodes_grown_further(offers_of, a.episodes@, b.episodes@, c.episodes@);
}

impl Language {
    /// Whether an offer in this language answers a wish for `wanted`.
    pub fn serves(self, wanted: Language) -> (b: bool)
        ensures
            b == serves(self, wanted),
    {
        match wanted {
            Language::Unknown => true,
            Language::German => matches!(self, Language::German),
            Language::English => matches!(self, Language::English),
            Language::GermanSubtitles => matches!(self, Language::GermanSubtitles),
        }
    }
}

impl Episode {
    /// The offer to try for `wanted`: the first one in the catalog's order that
    /// serves it.
    pub fn stream_descriptor(&self, wanted: Language) -> (d: Option<&StreamDescriptor>)
        ensures
            match first_serving(self.hosters@, wanted) {
                Some(k) => 0 <= k < self.hosters@.len() && d == Some(&self.hosters@[k]),
                None => d is None,
            },
    {
        let mut k: usize = 0;
        assert(self.hosters@.take(0) =~= Seq::<StreamDescriptor>::empty());
        while k < self.hosters.len()
            invariant
                k <= self.hosters.len(),
                first_serving(self.hosters@.take(k as int), wanted) is None,
            decreases self.hosters.len() - k,
        {
            proof {
                assert(self.hosters@.take(k + 1).drop_last() =~= self.hosters@.take(k as int));
            }
            if self.hosters[k].language.serves(wanted) {
                proof {
                    lemma_first_serving_kept(self.hosters@, wanted, k + 1);
                }
                return Some(&self.hosters[k]);
            }
            k += 1;
        }
        assert(self.hosters@.take(k as int) =~= self.hosters@);
        None
    }
}

/// The first offer that serves a wish among the first `n` offers is the first one
/// among all.
pub proof fn lemma_first_serving_kept(hosters: Seq<StreamDescriptor>, wanted: Language, n: int)
    requires
        0 <= n <= hosters.len(),
        first_serving(hosters.take(n), wanted) is Some,
    ensures
        first_serving(hosters, wanted) == first_serving(hosters.take(n), wanted),
    decreases hosters.len() - n,
{
    if n < hosters.len() {
        assert(hosters.take(n + 1).drop_last() =~= hosters.take(n));
        lemma_first_serving_kept(hosters, wanted, n + 1);
    } else {
        assert(hosters.take(n) =~= hosters);
    }
}

impl Series {
    /// A series of which nothing but the count of its seasons is known.
    pub fn new(id: u32, title: String, season_count: u32) -> (series: Series)
        ensures
            series.id == id,
            series.title == title,
            series.season_count == season_count,
            series.seasons@.len() == 0,
            series.episodes@.len() == 0,
    {
        Series { id, title, season_count, seasons: Vec::new(), episodes: Vec::new() }
    }

    /// The number of seasons.
    pub fn season_count(&self) -> (n: u32)
        ensures
            n == self.season_count,
    {
        self.season_count
    }

    /// What is known of the season `number`, without asking anyone.
    pub fn known_season(&self, number: u32) -> (r: Option<Season>)
        ensures
            r == known_season(self.seasons@, number),
    {
        let mut k: usize = 0;
        assert(self.seasons@.take(0) =~= Seq::<Season>::empty());
        while k < self.seasons.len()
            invariant
                k <= self.seasons.len(),
                known_season(self.seasons@.take(k as int), number) is None,
            decreases self.seasons.len() - k,
        {
            proof {
                assert(self.seasons@.take(k + 1).drop_last() =~= self.seasons@.take(k as int));
            }
            if self.seasons[k].number == number {
                proof {
                    assert(is_prefix(self.seasons@.take(k + 1), self.seasons@)) by {
                        assert(self.seasons@.take(k + 1).take(k + 1) =~= self.seasons@.take(k + 1));
                    }
                    lemma_known_season_kept(self.seasons@.take(k + 1), self.seasons@, number);
                }
                return Some(self.seasons[k]);
            }
            k += 1;
        }
        assert(self.seasons@.take(k as int) =~= self.seasons@);
        None
    }

    /// Where the episode `number` of the season `season` stands among the
    /// episodes known, without asking anyone.
    pub fn known_episode(&self, season: u32, number: u32) -> (r: Option<usize>)
        ensures
            match r {
                Some(k) => k < self.episodes@.len() && known_episode(
                    self.episodes@,
                    season,
                    number,
                ) == Some(self.episodes@[k as int]),
                None => known_episode(self.episodes@, season, number) is None,
            },
    {
        let mut k: usize = 0;
        assert(self.episodes@.take(0) =~= Seq::<Episode>::empty());
        while k < self.episodes.len()
            invariant
                k <= self.episodes.len(),
                known_episode(self.episodes@.take(k as int), season, number) is None,
            decreases self.episodes.len() - k,
        {
            proof {
                assert(self.episodes@.take(k + 1).drop_last() =~= self.episodes@.take(k as int));
            }
            if self.episodes[k].season == season && self.episodes[k].number == number {
                proof {
                    assert(is_prefix(self.episodes@.take(k + 1), self.episodes@)) by {
                        assert(self.episodes@.take(k + 1).take(k + 1) =~= self.episodes@.take(
                            k + 1,
                        ));
                    }
                    lemma_known_episode_kept(
                        self.episodes@.take(k + 1),
                        self.episodes@,
                        season,
                        number,
                    );
                }
                return Some(k);
            }
            k += 1;
        }
        assert(self.episodes@.take(k as int) =~= self.episodes@);
        None
    }
}

impl Series {
    /// What the season `number` holds. What is not known of it yet is asked of
    /// `episodes_of`, once, and kept.
    pub fn season<E: Fn(u32) -> Option<u32>>(&mut self, number: u32, episodes_of: &E) -> (r: Result<
        Season,
        CatalogLookupError,
    >)
        requires
            forall|s: u32| #[trigger] call_requires(*episodes_of, (s,)),
        ensures
            final(self).id == old(self).id,
            final(self).title == old(self).title,
            final(self).season_count == old(self).season_count,
            final(self).episodes == old(self).episodes,
            season_lookup(
                *episodes_of,
                old(self).season_count,
                old(self).seasons@,
                final(self).seasons@,
                number,
                r,
            ),
    {
        proof {
            lemma_seasons_grown_same(*episodes_of, self.seasons@);
        }
        if number < 1 || number > self.season_count {
            return Err(CatalogLookupError::NoSuchSeason { season: number });
        }
        match self.known_season(number) {
            Some(found) => Ok(found),
            None => match episodes_of(number) {
                None => Err(CatalogLookupError::SeasonUnanswered { season: number }),
                Some(episode_count) => {
                    let found = Season { number, episode_count };
                    self.seasons.push(found);
                    proof {
                        let before = old(self).seasons@;
                        let after = self.seasons@;
                        assert(after.drop_last() =~= before);
                        assert(after.take(before.len() as int) =~= before);
                    }
                    Ok(found)
                },
            },
        }
    }

    /// Where the episode `number` of the season `season` stands among the
    /// episodes known. What is not known yet of the season and of the episode is
    /// asked of `episodes_of` and `offers_of`, once each, and kept.
    pub fn episode<E: Fn(u32) -> Option<u32>, O: Fn(u32, u32) -> Option<Vec<StreamDescriptor>>>(
        &mut self,
        season: u32,
        number: u32,
        episodes_of: &E,
        offers_of: &O,
    ) -> (r: Result<usize, CatalogLookupError>)
        requires
            forall|s: u32| #[trigger] call_requires(*episodes_of, (s,)),
            forall|s: u32, e: u32| #[trigger] call_requires(*offers_of, (s, e)),
        ensures
            episode_lookup(*episodes_of, *offers_of, *old(self), *final(self), season, number, r),
    {
        proof {
            lemma_episodes_grown_same(*offers_of, self.episodes@);
        }
        let detail = match self.season(season, episodes_of) {
            Ok(detail) => detail,
            Err(e) => {
                return Err(e);
            },
        };
        if number >= detail.episode_count {
            return Err(CatalogLookupError::NoSuchEpisode { season, episode: number });
        }
        match self.known_episode(season, number) {
            Some(k) => Ok(k),
            None => match offers_of(season, number) {
                None => Err(CatalogLookupError::EpisodeUnanswered { season, episode: number }),
                Some(hosters) => {
                    let k = self.episodes.len();
                    self.episodes.push(Episode { season, number, hosters });
                    proof {
                        let before = old(self).episodes@;
                        let after = self.episodes@;
                        assert(after.drop_last() =~= before);
                        assert(after.take(before.len() as int) =~= before);
                    }
                    Ok(k)
                },
            },
        }
    }
}

} // verus!