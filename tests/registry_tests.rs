use bcr_registry::badge::BadgeStyle;
use bcr_registry::cache::{CachePhase, GetAction, LoadGate, PollOutcome};
use bcr_registry::codec::{decode_catalog, decode_module, encode_catalog, encode_module, encode_version};
use bcr_registry::loader::{catalog_from_fetch, LoadError};
use bcr_registry::model::{Catalog, Module, ModuleVersion, RepositoryMetadata};
use bcr_registry::query::{find_module, find_version, latest_version, list_summaries, matches_folded, search};
use bcr_registry::service::{
    accepts_protobuf, choose_encoding, lookup_latest, lookup_module, lookup_version, module_badge,
    module_version_badge, Encoding, MISSING_BADGE_MAX_AGE, NOT_FOUND_STATUS,
};

fn version(v: &str) -> ModuleVersion {
    ModuleVersion { version: v.to_string(), metadata: Vec::new() }
}

fn module(name: &str, versions: &[&str], description: Option<&str>) -> Module {
    Module {
        name: name.to_string(),
        versions: versions.iter().map(|v| version(v)).collect(),
        repository_metadata: description.map(|d| RepositoryMetadata {
            description: d.to_string(),
            homepage: String::new(),
        }),
    }
}

fn foo_catalog() -> Catalog {
    Catalog {
        source_url: "https://bcr.bazel.build".to_string(),
        modules: vec![module("rules_foo", &["2.0.0", "1.0.0"], Some("Foo build rules"))],
    }
}

fn big_catalog(n: usize) -> Catalog {
    Catalog {
        source_url: String::new(),
        modules: (0..n).map(|i| module(&format!("mod_{}", i), &["1.0"], None)).collect(),
    }
}

#[test]
fn scenario_single_module() {
    let c = foo_catalog();
    assert_eq!(find_version(&c, "rules_foo", "1.0.0").unwrap().version, "1.0.0");
    assert_eq!(latest_version(&c, "rules_foo").unwrap().version, "2.0.0");
    let found = search(&c, "foo");
    assert_eq!(found.len(), 1);
    assert_eq!(found[0].name, "rules_foo");
    assert_eq!(found[0].latest_version, "2.0.0");
    assert_eq!(found[0].description, "Foo build rules");
    assert!(find_module(&c, "missing").is_none());
    let err = lookup_module(&c, "missing").err().unwrap();
    assert_eq!(err.error, "Module not found");
    assert_eq!(NOT_FOUND_STATUS, 404);
}

#[test]
fn lookup_is_case_sensitive_search_is_not() {
    let c = foo_catalog();
    assert!(find_module(&c, "Rules_Foo").is_none());
    assert!(find_module(&c, "rules_fo").is_none());
    assert_eq!(find_module(&c, "rules_foo").unwrap().name, "rules_foo");
    let found = search(&c, "FOO");
    assert_eq!(found.len(), 1);
    let found = search(&c, "BUILD RULES");
    assert_eq!(found.len(), 1);
    assert_eq!(search(&c, "bar").len(), 0);
}

#[test]
fn first_match_wins_on_duplicate_names() {
    let c = Catalog {
        source_url: String::new(),
        modules: vec![module("a", &["1"], None), module("a", &["2"], None)],
    };
    assert_eq!(latest_version(&c, "a").unwrap().version, "1");
}

#[test]
fn empty_query_lists_first_twenty() {
    let c = big_catalog(25);
    let found = search(&c, "");
    assert_eq!(found.len(), 20);
    for (i, s) in found.iter().enumerate() {
        assert_eq!(s.name, format!("mod_{}", i));
    }
    let small = big_catalog(3);
    assert_eq!(search(&small, "").len(), 3);
}

#[test]
fn search_keeps_catalog_order_and_cap() {
    let c = big_catalog(30);
    let found = search(&c, "mod_1");
    let names: Vec<&str> = found.iter().map(|s| s.name.as_str()).collect();
    assert_eq!(names, vec!["mod_1", "mod_10", "mod_11", "mod_12", "mod_13", "mod_14", "mod_15", "mod_16", "mod_17", "mod_18", "mod_19"]);
}

#[test]
fn latest_ignores_version_order_semantics() {
    let c = Catalog {
        source_url: String::new(),
        modules: vec![module("m", &["0.1.0", "9.9.9"], None), module("empty", &[], None)],
    };
    assert_eq!(latest_version(&c, "m").unwrap().version, "0.1.0");
    assert!(latest_version(&c, "empty").is_none());
    assert!(latest_version(&c, "nope").is_none());
    assert_eq!(lookup_latest(&c, "empty").err().unwrap().error, "No versions found for module");
    assert_eq!(lookup_latest(&c, "nope").err().unwrap().error, "Module not found");
    assert_eq!(lookup_version(&c, "m", "1.0").err().unwrap().error, "Module version not found");
    assert_eq!(lookup_version(&c, "m", "9.9.9").ok().unwrap().version, "9.9.9");
}

#[test]
fn summaries_use_first_version_and_empty_description() {
    let c = Catalog {
        source_url: String::new(),
        modules: vec![module("a", &["3", "2"], Some("d")), module("b", &[], None)],
    };
    let s = list_summaries(&c);
    assert_eq!(s.len(), 2);
    assert_eq!((s[0].name.as_str(), s[0].latest_version.as_str(), s[0].description.as_str()), ("a", "3", "d"));
    assert_eq!((s[1].name.as_str(), s[1].latest_version.as_str(), s[1].description.as_str()), ("b", "", ""));
}

#[test]
fn folded_match_checks_both_texts() {
    let q: Vec<char> = "oo".chars().collect();
    let name: Vec<char> = "foo".chars().collect();
    let other: Vec<char> = "bar".chars().collect();
    assert!(matches_folded(&q, &name, &other));
    assert!(matches_folded(&q, &other, &name));
    assert!(!matches_folded(&q, &other, &other));
    assert!(matches_folded(&Vec::new(), &other, &other));
}

#[test]
fn missing_module_badge_is_red_not_found() {
    let c = foo_catalog();
    let reply = module_badge(&c, "missing", &Vec::new());
    assert!(reply.svg.contains("not found"));
    assert!(reply.svg.contains("e05d44"));
    assert_eq!(reply.max_age, MISSING_BADGE_MAX_AGE);
}

#[test]
fn badge_replies_by_case() {
    let c = Catalog {
        source_url: String::new(),
        modules: vec![module("rules_foo", &["2.0.0", "1.0.0"], None), module("bare", &[], None)],
    };
    let params = vec![
        ("label".to_string(), "foo".to_string()),
        ("color".to_string(), "blue".to_string()),
        ("style".to_string(), "flat-square".to_string()),
    ];
    let reply = module_badge(&c, "rules_foo", &params);
    assert_eq!(reply.max_age, 300);
    assert!(reply.svg.contains(">2.0.0<"));
    assert!(reply.svg.contains(">foo<"));
    assert!(reply.svg.contains("#007ec6"));
    assert!(!reply.svg.contains("linearGradient"));
    let reply = module_badge(&c, "bare", &Vec::new());
    assert!(reply.svg.contains("no versions"));
    assert_eq!(reply.max_age, 60);
    let reply = module_version_badge(&c, "rules_foo", "1.0.0", &Vec::new());
    assert_eq!(reply.max_age, 86400);
    assert!(reply.svg.contains(">1.0.0<"));
    assert!(reply.svg.contains("#44cc11"));
    let reply = module_version_badge(&c, "rules_foo", "3.0.0", &Vec::new());
    assert!(reply.svg.contains("version not found"));
    assert!(reply.svg.contains("#e05d44"));
    let reply = module_version_badge(&c, "nope", "1.0.0", &Vec::new());
    assert!(reply.svg.contains("module not found"));
    assert_eq!(reply.max_age, 60);
}

#[test]
fn query_parameters_last_wins() {
    let params = vec![
        ("color".to_string(), "red".to_string()),
        ("other".to_string(), "x".to_string()),
        ("color".to_string(), "zz".to_string()),
        ("label".to_string(), "L".to_string()),
    ];
    let style = BadgeStyle::from_query_pairs(&params);
    assert_eq!(style.color, "007ec6");
    assert_eq!(style.label, "L");
    assert_eq!(style.style, "flat");
}

#[test]
fn accept_header_negotiation() {
    assert!(accepts_protobuf(Some("application/protobuf")));
    assert!(accepts_protobuf(Some("text/html, application/x-protobuf;q=0.9")));
    assert!(!accepts_protobuf(Some("application/json")));
    assert!(!accepts_protobuf(None));
    assert!(matches!(choose_encoding(Some("application/protobuf")), Encoding::Binary));
    assert!(matches!(choose_encoding(Some("*/*")), Encoding::Json));
    assert_eq!(choose_encoding(None).content_type(), "application/json");
    assert_eq!(Encoding::Binary.content_type(), "application/protobuf");
}

#[test]
fn version_encoding_is_exact() {
    assert_eq!(encode_version(&version("1.0.0")), vec![10u8, 5, b'1', b'.', b'0', b'.', b'0']);
    assert_eq!(encode_version(&version("")), Vec::<u8>::new());
}

#[test]
fn version_metadata_passes_through() {
    let v = ModuleVersion { version: "1.2".to_string(), metadata: vec![8, 1, 0xff] };
    let bytes = encode_version(&v);
    assert_eq!(bytes, vec![10u8, 3, b'1', b'.', b'2', 18, 3, 8, 1, 0xff]);
    let m = Module { name: "m".to_string(), versions: vec![v], repository_metadata: None };
    let back = decode_module(&encode_module(&m)).unwrap();
    assert_eq!(back.versions[0].version, "1.2");
    assert_eq!(back.versions[0].metadata, vec![8u8, 1, 0xff]);
    let only_metadata = ModuleVersion { version: String::new(), metadata: vec![1] };
    assert_eq!(encode_version(&only_metadata), vec![18u8, 1, 1]);
}

#[test]
fn module_round_trip() {
    let m = module("módulo_ü", &["2.0.0", "", "1.0.0"], Some("Foo build rules"));
    let bytes = encode_module(&m);
    let back = decode_module(&bytes).unwrap();
    assert_eq!(back.name, m.name);
    assert_eq!(back.versions.len(), 3);
    for (a, b) in back.versions.iter().zip(m.versions.iter()) {
        assert_eq!(a.version, b.version);
    }
    let md = back.repository_metadata.unwrap();
    assert_eq!(md.description, "Foo build rules");
    assert_eq!(md.homepage, "");
    let bare = module("", &[], None);
    let back = decode_module(&encode_module(&bare)).unwrap();
    assert!(back.repository_metadata.is_none());
    let long_name = "n".repeat(300);
    let m = module(&long_name, &[], Some(""));
    let back = decode_module(&encode_module(&m)).unwrap();
    assert_eq!(back.name, long_name);
    assert!(back.repository_metadata.is_some());
}

#[test]
fn module_decoding_reads_any_field_order() {
    let m = decode_module(&[26, 3, 10, 1, b'd', 18, 3, 10, 1, b'1', 10, 1, b'm']).unwrap();
    assert_eq!(m.name, "m");
    assert_eq!(m.versions.len(), 1);
    assert_eq!(m.versions[0].version, "1");
    assert_eq!(m.repository_metadata.unwrap().description, "d");
}

#[test]
fn module_decoding_last_text_wins_and_empty_text_is_read() {
    assert_eq!(decode_module(&[10, 1, b'a', 10, 1, b'b']).unwrap().name, "b");
    assert_eq!(decode_module(&[10, 1, b'a', 10, 0]).unwrap().name, "");
    let m = decode_module(&[10, 0]).unwrap();
    assert_eq!(m.name, "");
    assert!(m.repository_metadata.is_none());
}

#[test]
fn module_decoding_accepts_non_minimal_lengths() {
    assert_eq!(decode_module(&[10, 0x81, 0x00, b'a']).unwrap().name, "a");
    assert_eq!(decode_module(&[0x8a, 0x00, 1, b'a']).unwrap().name, "a");
}

#[test]
fn module_decoding_skips_unknown_fields() {
    // Key 8 is field 1 with the varint wire type: a known field of the wrong type.
    assert!(decode_module(&[8, 5]).is_none());
    let bytes = [
        0x28, 0x96, 0x01, // field 5, varint 150
        10, 1, b'a', // name
        0x35, 1, 2, 3, 4, // field 6, fixed 32 bits
        0x39, 1, 2, 3, 4, 5, 6, 7, 8, // field 7, fixed 64 bits
        0x42, 2, 0, 0, // field 8, length-delimited
        0x4b, 0x08, 1, 0x4c, // field 9, a group holding a varint
    ];
    let m = decode_module(&bytes).unwrap();
    assert_eq!(m.name, "a");
    assert!(m.versions.is_empty());
}

#[test]
fn module_decoding_merges_metadata_occurrences() {
    let m = decode_module(&[26, 3, 10, 1, b'd', 26, 3, 18, 1, b'h']).unwrap();
    let md = m.repository_metadata.unwrap();
    assert_eq!(md.description, "d");
    assert_eq!(md.homepage, "h");
}

#[test]
fn module_decoding_rejects_malformed() {
    assert!(decode_module(&[10, 5, b'a']).is_none());
    assert!(decode_module(&[10, 1, 0xff]).is_none());
    assert!(decode_module(&[0x80]).is_none());
    assert!(decode_module(&[0x0c]).is_none());
    assert!(decode_module(&[0x0e, 0]).is_none());
    assert!(decode_module(&[0x02, 0]).is_none());
    assert!(decode_module(&[18, 2, 8, 1]).is_none());
    assert!(decode_module(&[26, 2, 10, 5]).is_none());
    assert!(decode_module(&[0x2b, 8, 1]).is_none());
    assert!(decode_module(&[0x35, 1, 2]).is_none());
    assert!(decode_module(&[10, 1, b'a']).is_some());
    assert!(decode_module(&[]).is_some());
}

#[test]
fn catalog_decoding_skips_unknown_and_reorders() {
    let bytes = [18, 3, 10, 1, b'm', 0x18, 7, 10, 1, b'u'];
    let c = decode_catalog(&bytes).unwrap();
    assert_eq!(c.source_url, "u");
    assert_eq!(c.modules.len(), 1);
    assert_eq!(c.modules[0].name, "m");
    assert!(decode_catalog(&[18, 3, 10, 1, 0xff]).is_none());
}

#[test]
fn catalog_round_trip_and_loading() {
    let c = foo_catalog();
    let bytes = encode_catalog(&c);
    let back = decode_catalog(&bytes).unwrap();
    assert_eq!(back.source_url, c.source_url);
    assert_eq!(back.modules.len(), 1);
    assert_eq!(back.modules[0].name, "rules_foo");
    let loaded = catalog_from_fetch(200, &bytes).ok().unwrap();
    assert_eq!(loaded.modules[0].versions[1].version, "1.0.0");
    assert_eq!(catalog_from_fetch(404, &bytes).err(), Some(LoadError::SourceUnavailable));
    assert_eq!(catalog_from_fetch(200, &[0xff, 0xff]).err(), Some(LoadError::DecodeError));
    assert!(catalog_from_fetch(200, &[]).is_ok());
}

#[test]
fn load_gate_single_flight() {
    let mut gate = LoadGate::new();
    assert_eq!(gate.on_get(), GetAction::StartLoad(0));
    for _ in 0..5 {
        assert_eq!(gate.on_get(), GetAction::Wait(0));
    }
    assert!(!gate.on_load_finished(7, true));
    assert!(gate.on_load_finished(0, true));
    assert_eq!(gate.on_poll(0), PollOutcome::Loaded);
    assert_eq!(gate.phase, CachePhase::Ready);
    for _ in 0..5 {
        assert_eq!(gate.on_get(), GetAction::UseReady);
    }
}

#[test]
fn load_gate_retries_after_failure() {
    let mut gate = LoadGate::new();
    assert_eq!(gate.on_get(), GetAction::StartLoad(0));
    assert_eq!(gate.on_get(), GetAction::Wait(0));
    assert_eq!(gate.on_poll(0), PollOutcome::KeepWaiting);
    assert!(gate.on_load_finished(0, false));
    assert_eq!(gate.on_poll(0), PollOutcome::Failed);
    assert_eq!(gate.phase, CachePhase::Empty);
    assert_eq!(gate.on_get(), GetAction::StartLoad(1));
    assert_eq!(gate.on_get(), GetAction::Wait(1));
    // A later attempt, whatever its outcome, leaves the first one failed.
    assert!(gate.on_load_finished(1, false));
    assert_eq!(gate.on_poll(0), PollOutcome::Failed);
    assert_eq!(gate.on_get(), GetAction::StartLoad(2));
    assert!(gate.on_load_finished(2, true));
    assert_eq!(gate.on_poll(0), PollOutcome::Failed);
    assert_eq!(gate.on_poll(2), PollOutcome::Loaded);
}
