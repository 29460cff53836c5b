//! What the options of one run select: the source of the catalog, the language,
//! the scope of the download, and where the files go.

use vstd::prelude::*;
use vstd::string::*;
use crate::catalog::{grown, Language, Series, StreamDescriptor};
use crate::download::{
    download_episode, download_season, download_series, episode_download, season_download,
    series_resolution, source_callable, DownloadError,
};
use crate::identity::Identity;
use crate::resolve::always_callable;
use crate::store::Store;
use crate::text::{digits_of, push_number};

verus! {

/// How the series is named.
#[derive(Clone, Copy, Debug, PartialEq, Eq, Structural)]
pub enum Source {
    Url,
    Name,
    Id,
}

/// How much of the series is asked for.
#[derive(Clone, Copy, Debug, PartialEq, Eq, Structural)]
pub enum Scope {
    Episode,
    Season,
    Series,
}

/// Why the options select nothing.
#[derive(Clone, Copy, Debug, PartialEq, Eq, Structural)]
pub enum OptionError {
    /// More than one of the source options is given.
    ConflictingSources,
    /// None of the source options is given.
    MissingSource,
    /// More than one of the language options is given.
    ConflictingLanguages,
    /// More than one of the scope options is given.
    ConflictingSelectors,
}

/// How many of three options are given.
pub open spec fn given(a: bool, b: bool, c: bool) -> nat {
    (if a { 1nat } else { 0nat }) + (if b { 1nat } else { 0nat }) + (if c { 1nat } else { 0nat })
}

/// The source that the options name. They exclude each other, and one of them
/// is needed.
pub fn choose_source(url: bool, name: bool, id: bool) -> (r: Result<Source, OptionError>)
    ensures
        r == if given(url, name, id) > 1 {
            Err::<Source, OptionError>(OptionError::ConflictingSources)
        } else if url {
            Ok::<Source, OptionError>(Source::Url)
        } else if name {
            Ok::<Source, OptionError>(Source::Name)
        } else if id {
            Ok::<Source, OptionError>(Source::Id)
        } else {
            Err::<Source, OptionError>(OptionError::MissingSource)
        },
{
    if (url && name) || (url && id) || (name && id) {
        Err(OptionError::ConflictingSources)
    } else if url {
        Ok(Source::Url)
    } else if name {
        Ok(Source::Name)
    } else if id {
        Ok(Source::Id)
    } else {
        Err(OptionError::MissingSource)
    }
}

/// The language that the options name. They exclude each other; without one of
/// them any language will do.
pub fn choose_language(german: bool, gersub: bool, english: bool) -> (r: Result<
    Language,
    OptionError,
>)
    ensures
        r == if given(german, gersub, english) > 1 {
            Err::<Language, OptionError>(OptionError::ConflictingLanguages)
        } else if german {
            Ok::<Language, OptionError>(Language::German)
        } else if english {
            Ok::<Language, OptionError>(Language::English)
        } else if gersub {
            Ok::<Language, OptionError>(Language::GermanSubtitles)
        } else {
            Ok::<Language, OptionError>(Language::Unknown)
        },
{
    if (german && gersub) || (german && english) || (gersub && english) {
        Err(OptionError::ConflictingLanguages)
    } else if german {
        Ok(Language::German)
    } else if english {
        Ok(Language::English)
    } else if gersub {
        Ok(Language::GermanSubtitles)
    } else {
        Ok(Language::Unknown)
    }
}

/// The scope that the selectors name. They exclude each other: two of them at
/// once are refused. Without one of them the whole series is meant.
pub fn choose_scope(episode: bool, season: bool, series: bool) -> (r: Result<Scope, OptionError>)
    ensures
        r is Err <==> given(episode, season, series) > 1,
        r == if given(episode, season, series) > 1 {
            Err::<Scope, OptionError>(OptionError::ConflictingSelectors)
        } else if episode {
            Ok::<Scope, OptionError>(Scope::Episode)
        } else if season {
            Ok::<Scope, OptionError>(Scope::Season)
        } else {
            Ok::<Scope, OptionError>(Scope::Series)
        },
{
    if (episode && season) || (episode && series) || (season && series) {
        Err(OptionError::ConflictingSelectors)
    } else if episode {
        Ok(Scope::Episode)
    } else if season {
        Ok(Scope::Season)
    } else {
        Ok(Scope::Series)
    }
}

/// What is handed to the downloader behind the directory: the file's name is
/// made of the title and the extension.
pub open spec fn template_suffix() -> Seq<char> {
    "/%(title)s.%(ext)s"@
}

/// The directory that the files go to: the one that is asked for, and otherwise
/// one named by the identifier of the series.
pub fn output_dir(output: Option<&str>, series_id: u32) -> (dir: String)
    ensures
        dir@ == match output {
            Some(asked) => asked@,
            None => digits_of(series_id as nat),
        },
{
    match output {
        Some(asked) => String::from_str(asked),
        None => {
            let mut dir = String::new();
            push_number(&mut dir, series_id);
            assert(dir@ =~= digits_of(series_id as nat));
            dir
        },
    }
}

/// The output template that the downloader gets for a directory.
pub fn output_template(dir: &str) -> (template: String)
    ensures
        template@ == dir@ + template_suffix(),
{
    let mut template = String::from_str(dir);
    template.append("/%(title)s.%(ext)s");
    template
}

/// Resolves what the scope names: the episode that `raw` names, the season that
/// `raw` names, or the whole series, for which `raw` is not read.
pub fn download<
    F: Fn(&StreamDescriptor, &Identity) -> Option<String>,
    E: Fn(u32) -> Option<u32>,
    O: Fn(u32, u32) -> Option<Vec<StreamDescriptor>>,
>(
    series: &mut Series,
    scope: Scope,
    raw: &str,
    wanted: Language,
    store: &Store,
    max_attempts: usize,
    episodes_of: &E,
    offers_of: &O,
    exchange: &F,
) -> (r: Result<Vec<String>, DownloadError>)
    requires
        source_callable(*episodes_of, *offers_of),
        always_callable(*exchange),
    ensures
        grown(*episodes_of, *offers_of, *old(series), *final(series)),
        match scope {
            Scope::Episode => episode_download(
                *exchange,
                *episodes_of,
                *offers_of,
                *old(series),
                *final(series),
                store@,
                wanted,
                max_attempts,
                raw@,
                r,
            ),
            Scope::Season => season_download(
                *exchange,
                *episodes_of,
                *offers_of,
                *old(series),
                *final(series),
                store@,
                wanted,
                max_attempts,
                raw@,
                r,
            ),
            Scope::Series => series_resolution(
                *exchange,
                *episodes_of,
                *offers_of,
                *final(series),
                store@,
                wanted,
                max_attempts,
                r,
            ),
        },
{
    match scope {
        Scope::Episode => download_episode(
            series,
            raw,
            wanted,
            store,
            max_attempts,
            episodes_of,
            offers_of,
            exchange,
        ),
        Scope::Season => download_season(
            series,
            raw,
            wanted,
            store,
            max_attempts,
            episodes_of,
            offers_of,
            exchange,
        ),
        Scope::Series => download_series(
            series,
            wanted,
            store,
            max_attempts,
            episodes_of,
            offers_of,
            exchange,
        ),
    }
}

} // verus!
