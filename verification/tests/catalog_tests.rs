use std::cell::RefCell;

use serienstream::catalog::{
    CatalogLookupError, Episode, Language, Season, Series, StreamDescriptor,
};

fn offer(hoster: &str, language: Language, link: &str) -> StreamDescriptor {
    StreamDescriptor { hoster: hoster.to_string(), language, link: link.to_string() }
}

fn episode(season: u32, number: u32, hosters: Vec<StreamDescriptor>) -> Episode {
    Episode { season, number, hosters }
}

fn counts(s: u32) -> Option<u32> {
    [2u32, 3, 1].get(s as usize - 1).copied()
}

fn offers(s: u32, e: u32) -> Option<Vec<StreamDescriptor>> {
    Some(vec![offer("h", Language::German, &format!("s{}e{}", s, e))])
}

#[test]
fn language_serves_itself_and_any() {
    let all = [Language::German, Language::English, Language::GermanSubtitles, Language::Unknown];
    for offered in all {
        for wanted in all {
            let expected = wanted == Language::Unknown || offered == wanted;
            assert_eq!(offered.serves(wanted), expected);
        }
    }
}

#[test]
fn stream_descriptor_is_the_first_offer_that_serves() {
    let hosters = vec![
        offer("a", Language::English, "1"),
        offer("b", Language::German, "2"),
        offer("c", Language::German, "3"),
        offer("d", Language::Unknown, "4"),
    ];
    let entry = episode(1, 0, hosters.clone());
    assert_eq!(entry.stream_descriptor(Language::German), Some(&hosters[1]));
    assert_eq!(entry.stream_descriptor(Language::English), Some(&hosters[0]));
    assert_eq!(entry.stream_descriptor(Language::Unknown), Some(&hosters[0]));
    assert_eq!(entry.stream_descriptor(Language::GermanSubtitles), None);
}

#[test]
fn stream_descriptor_of_an_episode_without_hosters() {
    let entry = episode(1, 0, Vec::new());
    assert_eq!(entry.stream_descriptor(Language::Unknown), None);
    assert_eq!(entry.stream_descriptor(Language::German), None);
}

#[test]
fn new_series_knows_only_the_count_of_its_seasons() {
    let series = Series::new(7, "title".to_string(), 3);
    assert_eq!(series.id, 7);
    assert_eq!(series.title, "title");
    assert_eq!(series.season_count(), 3);
    assert!(series.seasons.is_empty());
    assert!(series.episodes.is_empty());
    assert_eq!(series.known_season(1), None);
    assert_eq!(series.known_episode(1, 0), None);
}

#[test]
fn season_is_fetched_on_first_use_and_kept() {
    let asked = RefCell::new(Vec::<u32>::new());
    let episodes_of = |s: u32| {
        asked.borrow_mut().push(s);
        counts(s)
    };
    let mut series = Series::new(7, "title".to_string(), 3);
    assert_eq!(series.season(2, &episodes_of), Ok(Season { number: 2, episode_count: 3 }));
    assert_eq!(series.season(2, &episodes_of), Ok(Season { number: 2, episode_count: 3 }));
    assert_eq!(series.season(1, &episodes_of), Ok(Season { number: 1, episode_count: 2 }));
    assert_eq!(series.season(2, &episodes_of), Ok(Season { number: 2, episode_count: 3 }));
    assert_eq!(asked.into_inner(), [2, 1]);
    let kept = vec![Season { number: 2, episode_count: 3 }, Season { number: 1, episode_count: 2 }];
    assert_eq!(series.seasons, kept);
    assert_eq!(series.known_season(1), Some(Season { number: 1, episode_count: 2 }));
    assert_eq!(series.known_season(3), None);
}

#[test]
fn season_outside_the_series_is_refused_without_asking() {
    let asked = RefCell::new(Vec::<u32>::new());
    let episodes_of = |s: u32| {
        asked.borrow_mut().push(s);
        Some(1)
    };
    let mut series = Series::new(7, "title".to_string(), 3);
    let before = series.clone();
    assert_eq!(
        series.season(0, &episodes_of),
        Err(CatalogLookupError::NoSuchSeason { season: 0 })
    );
    assert_eq!(
        series.season(4, &episodes_of),
        Err(CatalogLookupError::NoSuchSeason { season: 4 })
    );
    assert!(asked.into_inner().is_empty());
    assert_eq!(series, before);
}

#[test]
fn season_that_the_source_does_not_answer() {
    let mut series = Series::new(7, "title".to_string(), 3);
    let before = series.clone();
    assert_eq!(
        series.season(3, &|_: u32| None),
        Err(CatalogLookupError::SeasonUnanswered { season: 3 })
    );
    assert_eq!(series, before);
    assert_eq!(series.season(3, &counts), Ok(Season { number: 3, episode_count: 1 }));
}

#[test]
fn episode_is_fetched_on_first_use_and_kept() {
    let asked = RefCell::new(Vec::<String>::new());
    let episodes_of = |s: u32| {
        asked.borrow_mut().push(format!("season {}", s));
        counts(s)
    };
    let offers_of = |s: u32, e: u32| {
        asked.borrow_mut().push(format!("episode {},{}", s, e));
        offers(s, e)
    };
    let mut series = Series::new(7, "title".to_string(), 3);
    assert_eq!(series.episode(2, 1, &episodes_of, &offers_of), Ok(0));
    assert_eq!(series.episode(2, 0, &episodes_of, &offers_of), Ok(1));
    assert_eq!(series.episode(2, 1, &episodes_of, &offers_of), Ok(0));
    assert_eq!(series.episode(1, 1, &episodes_of, &offers_of), Ok(2));
    let expected = ["season 2", "episode 2,1", "episode 2,0", "season 1", "episode 1,1"];
    assert_eq!(asked.into_inner(), expected);
    let kept = vec![
        episode(2, 1, offers(2, 1).unwrap()),
        episode(2, 0, offers(2, 0).unwrap()),
        episode(1, 1, offers(1, 1).unwrap()),
    ];
    assert_eq!(series.episodes, kept);
    assert_eq!(series.known_episode(2, 0), Some(1));
    assert_eq!(series.known_episode(1, 0), None);
}

#[test]
fn episode_lookup_reports_what_the_catalog_lacks() {
    let mut series = Series::new(7, "title".to_string(), 3);
    let no_offers = |_: u32, _: u32| None;
    assert_eq!(
        series.episode(4, 0, &counts, &offers),
        Err(CatalogLookupError::NoSuchSeason { season: 4 })
    );
    assert_eq!(
        series.episode(1, 0, &|_: u32| None, &offers),
        Err(CatalogLookupError::SeasonUnanswered { season: 1 })
    );
    assert_eq!(
        series.episode(1, 2, &counts, &offers),
        Err(CatalogLookupError::NoSuchEpisode { season: 1, episode: 2 })
    );
    assert_eq!(
        series.episode(1, 1, &counts, &no_offers),
        Err(CatalogLookupError::EpisodeUnanswered { season: 1, episode: 1 })
    );
    assert_eq!(series.seasons, vec![Season { number: 1, episode_count: 2 }]);
    assert!(series.episodes.is_empty());
}

#[test]
fn of_two_entries_the_earlier_one_counts() {
    let mut series = Series::new(7, "title".to_string(), 3);
    series.seasons = vec![
        Season { number: 1, episode_count: 2 },
        Season { number: 1, episode_count: 9 },
    ];
    series.episodes = vec![episode(1, 0, Vec::new()), episode(1, 0, offers(1, 0).unwrap())];
    assert_eq!(series.known_season(1), Some(Season { number: 1, episode_count: 2 }));
    assert_eq!(series.known_episode(1, 0), Some(0));
}
