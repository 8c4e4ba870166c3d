use fluent::FluentResource;
use locale_bundles::assets::{load, Data};
use locale_bundles::bundle::Bundle;
use locale_bundles::discovery::{explicit_locale, implicit_locale, LocaleHandles};
use locale_bundles::locale::LocaleId;
use locale_bundles::localization::Localization;
use locale_bundles::negotiate::negotiate;
use locale_bundles::snapshot::{supported_entries, Snapshot, SnapshotError};
use std::sync::Arc;

fn id(s: &str) -> LocaleId {
    LocaleId::parse(s).expect("valid locale")
}

fn ids(v: &[&str]) -> Vec<LocaleId> {
    v.iter().map(|s| id(s)).collect()
}

fn tags(v: &[LocaleId]) -> Vec<String> {
    v.iter().map(|l| l.to_string()).collect()
}

fn segs(v: &[&str]) -> Vec<String> {
    v.iter().map(|s| s.to_string()).collect()
}

fn res(src: &str) -> Arc<FluentResource> {
    Arc::new(FluentResource::try_new(src.to_string()).expect("valid resource"))
}

fn bundle(locale: Option<&str>, sources: &[&str]) -> Bundle {
    let rs: Vec<_> = sources.iter().map(|s| res(s)).collect();
    Bundle::build(locale.map(id), &rs)
}

fn no_args() -> Vec<(String, String)> {
    Vec::new()
}

#[test]
fn parse_reads_subtags() {
    let l = id("sr-Latn-RS");
    assert_eq!(l.language(), "sr");
    assert_eq!(l.script().as_deref(), Some("Latn"));
    assert_eq!(l.region().as_deref(), Some("RS"));
    assert!(l.variants().is_empty());
    assert_eq!(id("de-DE-1996").variants(), &vec!["1996".to_string()]);
}

#[test]
fn parse_rejects_malformed() {
    assert!(LocaleId::parse("en-US-!!").is_none());
    assert!(LocaleId::parse("1st").is_none());
}

#[test]
fn format_is_canonical() {
    assert_eq!(id("en-us").to_string(), "en-US");
    assert_eq!(id("de_DE").to_string(), "de-DE");
    assert_eq!(id("sl-rozaj-biske").to_string(), "sl-biske-rozaj");
}

#[test]
fn parse_format_parse_round_trip() {
    for s in ["en", "en-US", "EN-latn-us", "sl-IT-nedis", "de-DE-1996", "zh-Hant-TW", "es-419"] {
        let first = id(s);
        let again = id(&first.to_string());
        assert!(first == again, "{}", s);
        assert_eq!(again.to_string(), first.to_string());
    }
}

#[test]
fn equality_and_language_match() {
    assert!(id("en-US") == id("en-us"));
    assert!(!(id("en-US") == id("en-GB")));
    assert!(id("en-US").same_language(&id("en-GB")));
    assert!(!id("en-US").same_language(&id("fr-FR")));
    let d = id("en-US-posix").duplicate();
    assert_eq!(d.to_string(), "en-US-posix");
}

#[test]
fn negotiate_exact_match_only() {
    let out = negotiate(&ids(&["en-GB", "en-US", "fr"]), &None, &ids(&["en-US"]));
    assert_eq!(tags(&out), vec!["en-US"]);
}

#[test]
fn negotiate_relaxed_match() {
    let out = negotiate(&ids(&["en-GB", "fr"]), &None, &ids(&["en-US"]));
    assert_eq!(tags(&out), vec!["en-GB"]);
}

#[test]
fn negotiate_falls_back_to_default() {
    let out = negotiate(&ids(&["de", "fr"]), &Some(id("fr")), &ids(&["en-US"]));
    assert_eq!(tags(&out), vec!["fr"]);
}

#[test]
fn negotiate_default_unused_when_matched() {
    let out = negotiate(&ids(&["en-GB", "fr"]), &Some(id("fr")), &ids(&["en-US"]));
    assert_eq!(tags(&out), vec!["en-GB"]);
}

#[test]
fn negotiate_nothing_matches() {
    let out = negotiate(&ids(&["de", "fr"]), &Some(id("it")), &ids(&["en-US"]));
    assert!(out.is_empty());
    let out = negotiate(&ids(&["de"]), &None, &ids(&["en-US"]));
    assert!(out.is_empty());
}

#[test]
fn negotiate_keeps_request_order_without_duplicates() {
    let out = negotiate(
        &ids(&["de-DE", "en-GB", "en-US", "fr"]),
        &None,
        &ids(&["fr-CA", "en-US", "en-AU", "de-DE"]),
    );
    assert_eq!(tags(&out), vec!["fr", "en-US", "en-GB", "de-DE"]);
}

#[test]
fn implicit_discovery_most_specific_segment() {
    let a = implicit_locale(&segs(&["en-US", "messages.ftl"])).unwrap();
    assert_eq!(a.to_string(), "en-US");
    let b = implicit_locale(&segs(&["en", "common.ftl"])).unwrap();
    assert_eq!(b.to_string(), "en");
    let c = implicit_locale(&segs(&["en", "en-US", "menu", "main.ftl"])).unwrap();
    assert_eq!(c.to_string(), "en-US");
}

#[test]
fn implicit_discovery_stops_at_other_language() {
    let a = implicit_locale(&segs(&["en", "fr", "x.ftl"])).unwrap();
    assert_eq!(a.to_string(), "en");
}

#[test]
fn implicit_discovery_global_file() {
    assert!(implicit_locale(&segs(&["1st", "x.ftl"])).is_none());
    assert!(implicit_locale(&segs(&[])).is_none());
}

#[test]
fn implicit_discovery_strips_extension() {
    let a = implicit_locale(&segs(&["de.ftl"])).unwrap();
    assert_eq!(a.to_string(), "de");
}

#[test]
fn explicit_discovery_uses_parent_directory() {
    let a = explicit_locale(&segs(&["menu", "en-US", "locale.ron"])).unwrap();
    assert_eq!(a.to_string(), "en-US");
    assert!(explicit_locale(&segs(&["locale.ron"])).is_none());
    assert!(explicit_locale(&segs(&["1st", "locale.ron"])).is_none());
}

#[test]
fn grouping_handles_by_locale() {
    let mut h = LocaleHandles::new();
    h.add_file(Some(id("en")), 1);
    h.add_file(None, 2);
    h.add_file(Some(id("en")), 3);
    assert_eq!(h.entries.len(), 2);
    assert_eq!(h.entries[0].1, vec![1, 3]);
    assert_eq!(h.entries[1].1, vec![2]);
    h.set_locale(None, vec![7, 8]);
    h.set_locale(Some(id("fr")), vec![9]);
    assert_eq!(h.entries[1].1, vec![7, 8]);
    assert_eq!(h.entries[2].0.as_ref().unwrap().to_string(), "fr");
}

#[test]
fn bundle_merge_first_wins() {
    let mut b = Bundle::new(Some(id("en")));
    assert!(b.add_resource(res("a = 1\n")).is_empty());
    assert_eq!(b.add_resource(res("a = 2\nb = 3\n")), vec!["a".to_string()]);
    assert_eq!(b.conflicts, vec!["a".to_string()]);
    assert_eq!(b.content("a", None, &no_args()).as_deref(), Some("1"));
    assert_eq!(b.content("b", None, &no_args()).as_deref(), Some("3"));
    assert_eq!(b.content("c", None, &no_args()), None);
}

#[test]
fn bundle_build_reports_conflicts_per_resource() {
    let rs = vec![res("a = 1\n"), res("a = 2\nb = 3\n"), res("b = 4\na = 5\nc = 6\n")];
    let b = Bundle::build(None, &rs);
    assert_eq!(b.conflicts, vec!["a".to_string(), "b".to_string(), "a".to_string()]);
    assert_eq!(b.content("c", None, &no_args()).as_deref(), Some("6"));
    assert!(b.locale().is_none());
}

#[test]
fn localization_lookup_order() {
    let mut loc = Localization::new();
    loc.insert(10, bundle(Some("en-US"), &["both = US\n"]));
    loc.insert(11, bundle(Some("en"), &["both = EN\nonly-en = plain\n"]));
    loc.insert(12, bundle(None, &["global = everywhere\n"]));
    assert_eq!(loc.content("only-en", None, &no_args()).as_deref(), Some("plain"));
    assert_eq!(loc.content("both", None, &no_args()).as_deref(), Some("US"));
    assert_eq!(loc.content("global", None, &no_args()).as_deref(), Some("everywhere"));
    assert_eq!(loc.content("missing", None, &no_args()), None);
}

#[test]
fn localization_replace_keeps_position() {
    let mut loc = Localization::new();
    loc.insert(1, bundle(None, &["m = one\n"]));
    loc.insert(2, bundle(None, &["m = two\n"]));
    loc.insert(1, bundle(None, &["m = uno\n"]));
    assert_eq!(loc.handles(), vec![1, 2]);
    assert_eq!(loc.content("m", None, &no_args()).as_deref(), Some("uno"));
    loc.insert(3, bundle(None, &["m = three\n"]));
    assert_eq!(loc.handles(), vec![1, 2, 3]);
}

fn sample_handles() -> LocaleHandles {
    let mut h = LocaleHandles::new();
    h.add_file(Some(id("en-US")), 1);
    h.add_file(Some(id("de")), 2);
    h.add_file(None, 3);
    h.add_file(Some(id("fr")), 4);
    h
}

#[test]
fn snapshot_keeps_supported_and_global() {
    let h = sample_handles();
    let kept = supported_entries(&h, &None, &ids(&["fr"]));
    let keys: Vec<Option<String>> = kept.iter().map(|e| e.0.as_ref().map(|l| l.to_string())).collect();
    assert_eq!(keys, vec![None, Some("fr".to_string())]);
}

#[test]
fn snapshot_build_and_locales() {
    let h = sample_handles();
    let records = vec![
        (1, res("hello = Hello\n")),
        (2, res("hello = Hallo\n")),
        (3, res("brand = Acme\n")),
        (4, res("hello = Bonjour\n")),
    ];
    let snap = Snapshot::build(&h, &Some(id("de")), &ids(&["en-GB"]), &records).unwrap();
    let keys: Vec<Option<String>> =
        snap.locales().iter().map(|l| l.as_ref().map(|l| l.to_string())).collect();
    assert_eq!(keys, vec![Some("en-US".to_string()), None]);
    let en = snap.get(&Some(id("en-US"))).unwrap();
    assert_eq!(en.content("hello", None, &no_args()).as_deref(), Some("Hello"));
    assert!(snap.get(&Some(id("de"))).is_none());
}

#[test]
fn snapshot_unresolved_handle_fails() {
    let h = sample_handles();
    let records = vec![(1, res("hello = Hello\n"))];
    let r = Snapshot::build(&h, &None, &ids(&["en-US"]), &records);
    assert!(matches!(r, Err(SnapshotError::Unresolved(3))));
}

#[test]
fn load_builds_bundle_asset() {
    let mut data = Data::new(id("en-US"), vec!["a.ftl".to_string()]);
    data.resources_mut().push("b.ftl".to_string());
    assert_eq!(data.resources().len(), 2);
    assert_eq!(data.locale().to_string(), "en-US");
    let mut asset = load(&data, &vec![res("x = 1\n"), res("x = 2\n")], vec![5, 6]);
    assert_eq!(asset.bundle().content("x", None, &no_args()).as_deref(), Some("1"));
    assert_eq!(asset.bundle().conflicts, vec!["x".to_string()]);
    assert_eq!(asset.bundle().locale().as_ref().unwrap().to_string(), "en-US");
    asset.resource_handles_mut().push(7);
    assert_eq!(asset.resource_handles(), &vec![5, 6, 7]);
}

#[test]
fn content_with_attribute_and_arguments() {
    let b = bundle(None, &["greet = Hi { $name }\n    .title = Greeting\n"]);
    let args = vec![("name".to_string(), "Ann".to_string())];
    assert_eq!(b.content("greet", None, &args).as_deref(), Some("Hi \u{2068}Ann\u{2069}"));
    assert_eq!(b.content("greet", Some("title"), &no_args()).as_deref(), Some("Greeting"));
    assert_eq!(b.content("greet", Some("missing"), &no_args()), None);
}

#[test]
fn content_takes_id_whole() {
    let b = bundle(None, &["greet = Hi\n    .title = Greeting\n"]);
    assert_eq!(b.content("greet.title", None, &no_args()), None);
    assert_eq!(b.content("greet?x=1", None, &no_args()), None);
}

#[test]
fn snapshot_records_conflicts() {
    let mut h = LocaleHandles::new();
    h.add_file(None, 1);
    h.add_file(None, 2);
    let records = vec![(1, res("m = a\n")), (2, res("m = b\n"))];
    let snap = Snapshot::build(&h, &None, &vec![], &records).unwrap();
    let global = snap.get(&None).unwrap();
    assert_eq!(global.conflicts, vec!["m".to_string()]);
    assert_eq!(global.content("m", None, &no_args()).as_deref(), Some("a"));
}
