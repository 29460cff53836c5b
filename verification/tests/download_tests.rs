use std::cell::RefCell;

use serienstream::catalog::{CatalogLookupError, Language, Season, Series, StreamDescriptor};
use serienstream::download::{
    download_episode, download_season, download_series, parse_episode_selector, resolve_episode,
    resolve_season, DownloadError,
};
use serienstream::identity::Identity;
use serienstream::store::Store;

fn store_of(lines: &[&str]) -> Store {
    Store { lines: lines.iter().map(|l| l.to_string()).collect() }
}

/// The catalog of a series with three seasons of 2, 3 and 1 episodes.
fn stub() -> Series {
    Series::new(99, "stub".to_string(), 3)
}

fn counts(s: u32) -> Option<u32> {
    [2u32, 3, 1].get(s as usize - 1).copied()
}

/// Each episode is offered in English and in German, with a link that names
/// season and episode.
fn offers(s: u32, e: u32) -> Option<Vec<StreamDescriptor>> {
    let offer = |hoster: &str, language: Language, tag: &str| StreamDescriptor {
        hoster: hoster.to_string(),
        language,
        link: format!("{}-s{}e{}", tag, s, e),
    };
    Some(vec![offer("one", Language::English, "en"), offer("two", Language::German, "de")])
}

fn link_as_url(d: &StreamDescriptor, _: &Identity) -> Option<String> {
    Some(format!("https://{}/{}", d.hoster, d.link))
}

fn never(_: &StreamDescriptor, _: &Identity) -> Option<String> {
    None
}

fn urls(list: &[&str]) -> Vec<String> {
    list.iter().map(|u| u.to_string()).collect()
}

#[test]
fn series_yields_six_urls_in_season_then_episode_order() {
    let mut series = stub();
    let store = store_of(&["a@x.com:secret1"]);
    let got =
        download_series(&mut series, Language::German, &store, 3, &counts, &offers, &link_as_url);
    let expected = urls(&[
        "https://two/de-s1e0",
        "https://two/de-s1e1",
        "https://two/de-s2e0",
        "https://two/de-s2e1",
        "https://two/de-s2e2",
        "https://two/de-s3e0",
    ]);
    assert_eq!(got, Ok(expected));
}

#[test]
fn series_asks_source_and_exchange_in_catalog_order() {
    let mut series = stub();
    let store = store_of(&["a@x.com:secret1"]);
    let asked = RefCell::new(Vec::<String>::new());
    let episodes_of = |s: u32| {
        asked.borrow_mut().push(format!("season {}", s));
        counts(s)
    };
    let offers_of = |s: u32, e: u32| {
        asked.borrow_mut().push(format!("episode {},{}", s, e));
        offers(s, e)
    };
    let exchange = |d: &StreamDescriptor, id: &Identity| {
        asked.borrow_mut().push(format!("exchange {}", d.link));
        link_as_url(d, id)
    };
    let unknown = Language::Unknown;
    let got =
        download_series(&mut series, unknown, &store, 3, &episodes_of, &offers_of, &exchange);
    assert_eq!(got.unwrap().len(), 6);
    let expected = [
        "season 1",
        "episode 1,0",
        "exchange en-s1e0",
        "episode 1,1",
        "exchange en-s1e1",
        "season 2",
        "episode 2,0",
        "exchange en-s2e0",
        "episode 2,1",
        "exchange en-s2e1",
        "episode 2,2",
        "exchange en-s2e2",
        "season 3",
        "episode 3,0",
        "exchange en-s3e0",
    ];
    assert_eq!(asked.into_inner(), expected);
}

#[test]
fn series_keeps_what_it_fetched() {
    let mut series = stub();
    let store = store_of(&["a@x.com:secret1"]);
    let english = Language::English;
    let first = download_series(&mut series, english, &store, 3, &counts, &offers, &link_as_url);
    assert_eq!(series.seasons.len(), 3);
    assert_eq!(series.episodes.len(), 6);
    let silent_counts = |_: u32| -> Option<u32> { panic!("asked again") };
    let silent_offers = |_: u32, _: u32| -> Option<Vec<StreamDescriptor>> { panic!("asked again") };
    let again = download_series(
        &mut series,
        english,
        &store,
        3,
        &silent_counts,
        &silent_offers,
        &link_as_url,
    );
    assert_eq!(again, first);
    assert_eq!(series.episodes.len(), 6);
}

#[test]
fn series_without_seasons_or_episodes() {
    let store = store_of(&["a@x.com:secret1"]);
    let unknown = Language::Unknown;
    let mut empty = Series::new(1, "empty".to_string(), 0);
    assert_eq!(
        download_series(&mut empty, unknown, &store, 3, &counts, &offers, &link_as_url),
        Ok(Vec::new())
    );
    let mut hollow = Series::new(1, "hollow".to_string(), 2);
    let none = |_: u32| Some(0);
    assert_eq!(
        download_series(&mut hollow, unknown, &store, 3, &none, &offers, &link_as_url),
        Ok(Vec::new())
    );
    let mut middle = Series::new(1, "middle".to_string(), 3);
    let only_second = |s: u32| if s == 2 { Some(2) } else { Some(0) };
    assert_eq!(
        download_series(&mut middle, unknown, &store, 3, &only_second, &offers, &link_as_url),
        Ok(urls(&["https://one/en-s2e0", "https://one/en-s2e1"]))
    );
}

#[test]
fn series_stops_at_the_first_episode_that_fails() {
    let mut series = stub();
    let store = store_of(&["a@x.com:secret1", "b@x.com:secret2"]);
    let asked = RefCell::new(Vec::<String>::new());
    let exchange = |d: &StreamDescriptor, id: &Identity| {
        asked.borrow_mut().push(d.link.clone());
        if d.link == "de-s2e1" {
            None
        } else {
            link_as_url(d, id)
        }
    };
    let got = download_series(&mut series, Language::German, &store, 5, &counts, &offers, &exchange);
    assert_eq!(
        got,
        Err(DownloadError::IdentityPoolExhausted { season: 2, episode: 1, attempts: 2 })
    );
    let expected = ["de-s1e0", "de-s1e1", "de-s2e0", "de-s2e1", "de-s2e1"];
    assert_eq!(asked.into_inner(), expected);
}

#[test]
fn series_stops_when_the_source_does_not_answer() {
    let store = store_of(&["a@x.com:secret1"]);
    let unknown = Language::Unknown;
    let mut series = stub();
    let no_second = |s: u32| if s == 2 { None } else { counts(s) };
    assert_eq!(
        download_series(&mut series, unknown, &store, 3, &no_second, &offers, &link_as_url),
        Err(DownloadError::Catalog(CatalogLookupError::SeasonUnanswered { season: 2 }))
    );
    let mut series = stub();
    let no_offers = |s: u32, e: u32| if (s, e) == (2, 2) { None } else { offers(s, e) };
    assert_eq!(
        download_series(&mut series, unknown, &store, 3, &counts, &no_offers, &link_as_url),
        Err(DownloadError::Catalog(CatalogLookupError::EpisodeUnanswered {
            season: 2,
            episode: 2
        }))
    );
}

#[test]
fn season_yields_one_url_per_episode_in_ascending_order() {
    let mut series = stub();
    let store = store_of(&["short", "a@x.com:secret1"]);
    let english = Language::English;
    assert_eq!(
        download_season(&mut series, "2", english, &store, 1, &counts, &offers, &link_as_url),
        Ok(urls(&["https://one/en-s2e0", "https://one/en-s2e1", "https://one/en-s2e2"]))
    );
    assert_eq!(
        resolve_season(&mut series, 3, english, &store, 1, &counts, &offers, &link_as_url),
        Ok(urls(&["https://one/en-s3e0"]))
    );
}

#[test]
fn season_fetches_only_what_it_needs() {
    let mut series = stub();
    let store = store_of(&["a@x.com:secret1"]);
    let got = download_season(
        &mut series,
        "2",
        Language::German,
        &store,
        1,
        &counts,
        &offers,
        &link_as_url,
    );
    assert_eq!(got.unwrap().len(), 3);
    assert_eq!(series.seasons, vec![Season { number: 2, episode_count: 3 }]);
    let fetched: Vec<(u32, u32)> = series.episodes.iter().map(|e| (e.season, e.number)).collect();
    assert_eq!(fetched, [(2, 0), (2, 1), (2, 2)]);
}

#[test]
fn season_selector_must_be_a_number_of_a_season() {
    let mut series = stub();
    let store = store_of(&["a@x.com:secret1"]);
    let unknown = Language::Unknown;
    for raw in ["", "two", "1,0", "-1", " 1"] {
        assert_eq!(
            download_season(&mut series, raw, unknown, &store, 1, &counts, &offers, &link_as_url),
            Err(DownloadError::InvalidSelector)
        );
    }
    assert_eq!(series, stub());
    assert_eq!(
        download_season(&mut series, "0", unknown, &store, 1, &counts, &offers, &link_as_url),
        Err(DownloadError::Catalog(CatalogLookupError::NoSuchSeason { season: 0 }))
    );
    assert_eq!(
        download_season(&mut series, "4", unknown, &store, 1, &counts, &offers, &link_as_url),
        Err(DownloadError::Catalog(CatalogLookupError::NoSuchSeason { season: 4 }))
    );
    assert_eq!(
        download_season(&mut series, "+3", unknown, &store, 1, &counts, &offers, &link_as_url),
        Ok(urls(&["https://one/en-s3e0"]))
    );
}

#[test]
fn episode_selector_names_season_and_episode() {
    assert_eq!(parse_episode_selector("1,0"), Some((1, 0)));
    assert_eq!(parse_episode_selector("12,34"), Some((12, 34)));
    assert_eq!(parse_episode_selector("+1,+2"), Some((1, 2)));
    assert_eq!(parse_episode_selector("1,0,9"), Some((1, 0)));
    assert_eq!(parse_episode_selector("1,0,"), Some((1, 0)));
    assert_eq!(parse_episode_selector("1,0,x"), Some((1, 0)));
}

#[test]
fn episode_selector_rejects_what_names_none() {
    for raw in ["", "1", ",", "1,", ",0", "a,b", "1;0", "1, 0", "1,-0", "4294967296,0"] {
        assert_eq!(parse_episode_selector(raw), None);
    }
}

#[test]
fn episode_yields_exactly_one_url() {
    let mut series = stub();
    let store = store_of(&["a@x.com:secret1"]);
    let german = Language::German;
    assert_eq!(
        download_episode(&mut series, "2,1", german, &store, 1, &counts, &offers, &link_as_url),
        Ok(urls(&["https://two/de-s2e1"]))
    );
    let unknown = Language::Unknown;
    assert_eq!(
        resolve_episode(&mut series, 1, 0, unknown, &store, 1, &counts, &offers, &link_as_url),
        Ok("https://one/en-s1e0".to_string())
    );
}

#[test]
fn episode_asks_for_one_episode_only() {
    let mut series = stub();
    let store = store_of(&["a@x.com:secret1"]);
    let asked = RefCell::new(Vec::<String>::new());
    let episodes_of = |s: u32| {
        asked.borrow_mut().push(format!("season {}", s));
        counts(s)
    };
    let offers_of = |s: u32, e: u32| {
        asked.borrow_mut().push(format!("episode {},{}", s, e));
        offers(s, e)
    };
    let exchange = |d: &StreamDescriptor, id: &Identity| {
        asked.borrow_mut().push(format!("exchange {}", d.link));
        link_as_url(d, id)
    };
    let english = Language::English;
    let got =
        download_episode(&mut series, "3,0", english, &store, 4, &episodes_of, &offers_of, &exchange);
    assert_eq!(got, Ok(urls(&["https://one/en-s3e0"])));
    assert_eq!(asked.into_inner(), ["season 3", "episode 3,0", "exchange en-s3e0"]);
}

#[test]
fn episode_reports_what_the_catalog_lacks() {
    let mut series = stub();
    let store = store_of(&["a@x.com:secret1"]);
    let mut get = |raw: &str, wanted: Language| {
        download_episode(&mut series, raw, wanted, &store, 1, &counts, &offers, &link_as_url)
    };
    assert_eq!(get("one,0", Language::German), Err(DownloadError::InvalidSelector));
    assert_eq!(
        get("0,0", Language::German),
        Err(DownloadError::Catalog(CatalogLookupError::NoSuchSeason { season: 0 }))
    );
    assert_eq!(
        get("4,0", Language::German),
        Err(DownloadError::Catalog(CatalogLookupError::NoSuchSeason { season: 4 }))
    );
    assert_eq!(
        get("1,2", Language::German),
        Err(DownloadError::Catalog(CatalogLookupError::NoSuchEpisode { season: 1, episode: 2 }))
    );
    assert_eq!(
        get("1,1", Language::GermanSubtitles),
        Err(DownloadError::NoStream { season: 1, episode: 1 })
    );
}

#[test]
fn episode_reports_an_exhausted_pool() {
    let mut series = stub();
    let store = store_of(&["a@x.com:secret1", "short", "b@x.com:secret2"]);
    let german = Language::German;
    assert_eq!(
        download_episode(&mut series, "2,2", german, &store, 7, &counts, &offers, &never),
        Err(DownloadError::IdentityPoolExhausted { season: 2, episode: 2, attempts: 2 })
    );
    assert_eq!(
        download_episode(&mut series, "2,2", german, &store, 1, &counts, &offers, &never),
        Err(DownloadError::IdentityPoolExhausted { season: 2, episode: 2, attempts: 1 })
    );
}

#[test]
fn episode_retries_past_a_failing_identity() {
    let mut series = stub();
    let store = store_of(&["a@x.com:secret1", "short", "b@x.com:secret2"]);
    let exchange = |d: &StreamDescriptor, id: &Identity| {
        if id.mailbox == "b@x.com" {
            Some(format!("{}?as={}", d.link, id.mailbox))
        } else {
            None
        }
    };
    for _ in 0..50 {
        assert_eq!(
            download_episode(
                &mut series,
                "1,0",
                Language::German,
                &store,
                2,
                &counts,
                &offers,
                &exchange
            ),
            Ok(urls(&["de-s1e0?as=b@x.com"]))
        );
    }
}
