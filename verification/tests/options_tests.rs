use serienstream::catalog::{Language, Series, StreamDescriptor};
use serienstream::download::DownloadError;
use serienstream::identity::Identity;
use serienstream::options::{
    choose_language, choose_scope, choose_source, download, output_dir, output_template,
    OptionError, Scope, Source,
};
use serienstream::store::Store;

#[test]
fn scope_selectors_exclude_each_other() {
    let conflict = Err(OptionError::ConflictingSelectors);
    assert_eq!(choose_scope(true, true, false), conflict);
    assert_eq!(choose_scope(true, false, true), conflict);
    assert_eq!(choose_scope(false, true, true), conflict);
    assert_eq!(choose_scope(true, true, true), conflict);
}

#[test]
fn one_scope_selector_is_taken() {
    assert_eq!(choose_scope(true, false, false), Ok(Scope::Episode));
    assert_eq!(choose_scope(false, true, false), Ok(Scope::Season));
    assert_eq!(choose_scope(false, false, true), Ok(Scope::Series));
}

#[test]
fn without_a_scope_selector_the_series_is_meant() {
    assert_eq!(choose_scope(false, false, false), Ok(Scope::Series));
}

#[test]
fn language_options_exclude_each_other() {
    let conflict = Err(OptionError::ConflictingLanguages);
    assert_eq!(choose_language(true, true, false), conflict);
    assert_eq!(choose_language(true, false, true), conflict);
    assert_eq!(choose_language(false, true, true), conflict);
    assert_eq!(choose_language(true, true, true), conflict);
}

#[test]
fn one_language_option_is_taken() {
    assert_eq!(choose_language(true, false, false), Ok(Language::German));
    assert_eq!(choose_language(false, true, false), Ok(Language::GermanSubtitles));
    assert_eq!(choose_language(false, false, true), Ok(Language::English));
    assert_eq!(choose_language(false, false, false), Ok(Language::Unknown));
}

#[test]
fn source_options_exclude_each_other() {
    let conflict = Err(OptionError::ConflictingSources);
    assert_eq!(choose_source(true, true, false), conflict);
    assert_eq!(choose_source(true, false, true), conflict);
    assert_eq!(choose_source(false, true, true), conflict);
    assert_eq!(choose_source(true, true, true), conflict);
}

#[test]
fn one_source_option_is_needed() {
    assert_eq!(choose_source(true, false, false), Ok(Source::Url));
    assert_eq!(choose_source(false, true, false), Ok(Source::Name));
    assert_eq!(choose_source(false, false, true), Ok(Source::Id));
    assert_eq!(choose_source(false, false, false), Err(OptionError::MissingSource));
}

#[test]
fn output_dir_defaults_to_the_series_id() {
    assert_eq!(output_dir(Some("films"), 42), "films");
    assert_eq!(output_dir(Some(""), 42), "");
    assert_eq!(output_dir(None, 42), "42");
    assert_eq!(output_dir(None, 0), "0");
    assert_eq!(output_dir(None, u32::MAX), "4294967295");
}

#[test]
fn output_template_names_title_and_extension() {
    assert_eq!(output_template("films"), "films/%(title)s.%(ext)s");
    assert_eq!(output_template("42"), "42/%(title)s.%(ext)s");
}

fn counts(s: u32) -> Option<u32> {
    [2u32, 1].get(s as usize - 1).copied()
}

fn offers(s: u32, e: u32) -> Option<Vec<StreamDescriptor>> {
    let link = format!("s{}e{}", s, e);
    Some(vec![StreamDescriptor { hoster: "h".to_string(), language: Language::German, link }])
}

#[test]
fn download_follows_the_scope() {
    let store = Store { lines: vec!["a@x.com:secret1".to_string()] };
    let exchange = |d: &StreamDescriptor, _: &Identity| Some(d.link.clone());
    let all = |scope: Scope, raw: &str| {
        let mut series = Series::new(5, "small".to_string(), 2);
        let unknown = Language::Unknown;
        download(&mut series, scope, raw, unknown, &store, 1, &counts, &offers, &exchange)
    };
    assert_eq!(all(Scope::Episode, "1,1"), Ok(vec!["s1e1".to_string()]));
    assert_eq!(all(Scope::Season, "1"), Ok(vec!["s1e0".to_string(), "s1e1".to_string()]));
    assert_eq!(
        all(Scope::Series, "not read"),
        Ok(vec!["s1e0".to_string(), "s1e1".to_string(), "s2e0".to_string()])
    );
    assert_eq!(all(Scope::Episode, "1"), Err(DownloadError::InvalidSelector));
    assert_eq!(all(Scope::Season, "1,1"), Err(DownloadError::InvalidSelector));
}
