use load_s3_agent::tags::{
    compose_tags, contains_pair, contains_text, content_type_of, default_reserved_names,
    is_acceptable_text, is_content_type_key, normalize_tags, TagComposer,
};

fn pair(k: &str, v: &str) -> (String, String) {
    (k.to_string(), v.to_string())
}

fn names(list: &[&str]) -> Vec<String> {
    list.iter().map(|s| s.to_string()).collect()
}

#[test]
fn content_type_tag_overrides_declared_type() {
    let extra = vec![pair("Content-Type", "text/plain")];
    let out = compose_tags(&extra, "application/octet-stream", &default_reserved_names());
    assert_eq!(out, vec![pair("Content-Type", "text/plain"), pair("Data-Protocol", "Load-S3")]);
    let content_types = out.iter().filter(|t| t.0.to_lowercase() == "content-type").count();
    assert_eq!(content_types, 1);
}

#[test]
fn override_keeps_the_callers_casing_and_the_first_slot() {
    let extra = vec![pair("a", "1"), pair("  CONTENT-type ", " image/png "), pair("b", "2")];
    let out = compose_tags(&extra, "text/html", &default_reserved_names());
    assert_eq!(
        out,
        vec![
            pair("CONTENT-type", "image/png"),
            pair("Data-Protocol", "Load-S3"),
            pair("a", "1"),
            pair("b", "2"),
        ]
    );
}

#[test]
fn second_content_type_candidate_is_dropped() {
    let extra = vec![pair("Content-Type", "text/plain"), pair("content-type", "text/html")];
    let out = compose_tags(&extra, "application/octet-stream", &default_reserved_names());
    assert_eq!(out, vec![pair("Content-Type", "text/plain"), pair("Data-Protocol", "Load-S3")]);
}

#[test]
fn override_applies_even_where_content_type_is_reserved() {
    let reserved = names(&["content-type", "data-protocol"]);
    let extra = vec![pair("Content-Type", "text/plain"), pair("Data-Protocol", "other")];
    let out = compose_tags(&extra, "application/octet-stream", &reserved);
    assert_eq!(out, vec![pair("Content-Type", "text/plain"), pair("Data-Protocol", "Load-S3")]);
}

#[test]
fn without_candidates_the_system_tags_stand_alone() {
    let out = compose_tags(&[], "image/jpeg", &default_reserved_names());
    assert_eq!(out, vec![pair("Content-Type", "image/jpeg"), pair("Data-Protocol", "Load-S3")]);
}

#[test]
fn reserved_keys_are_dropped_whatever_their_case() {
    let extra = vec![
        pair("Storage-Provider", "x"),
        pair("AGENT-VERSION", "y"),
        pair("type", "image"),
    ];
    let out = compose_tags(&extra, "image/jpeg", &default_reserved_names());
    assert_eq!(
        out,
        vec![pair("Content-Type", "image/jpeg"), pair("Data-Protocol", "Load-S3"), pair("type", "image")]
    );
}

#[test]
fn protocol_marker_cannot_be_replaced() {
    let extra = vec![pair("data-protocol", "mine")];
    let out = compose_tags(&extra, "image/jpeg", &Vec::new());
    assert_eq!(out, vec![pair("Content-Type", "image/jpeg"), pair("Data-Protocol", "Load-S3")]);
}

#[test]
fn keys_differing_only_in_case_collapse_to_the_first() {
    let extra = vec![pair("Color", "red"), pair("color", "blue"), pair("COLOR", "red")];
    let out = compose_tags(&extra, "image/jpeg", &default_reserved_names());
    assert_eq!(
        out,
        vec![pair("Content-Type", "image/jpeg"), pair("Data-Protocol", "Load-S3"), pair("Color", "red")]
    );
}

#[test]
fn composer_emits_no_two_tags_with_one_lowercase_key() {
    let extra = vec![
        pair("A", "1"),
        pair("a", "2"),
        pair("Content-Type", "x/y"),
        pair("content-type", "z/w"),
        pair("Data-Protocol", "q"),
        pair("É", "1"),
        pair("é", "2"),
    ];
    let out = compose_tags(&extra, "text/plain", &default_reserved_names());
    for i in 0..out.len() {
        for j in (i + 1)..out.len() {
            assert_ne!(out[i].0.to_lowercase(), out[j].0.to_lowercase());
        }
    }
    assert_eq!(out[0].0.to_lowercase(), "content-type");
    assert_eq!(out.len(), 4);
    assert_eq!(out[3], pair("É", "1"));
}

#[test]
fn empty_and_oversized_candidates_are_dropped() {
    let key_1024 = "k".repeat(1024);
    let key_1025 = "k".repeat(1025);
    let value_1025 = "v".repeat(1025);
    let extra = vec![
        pair("", "v"),
        pair("   ", "v"),
        pair("k", ""),
        pair("k", " \t\n"),
        pair(&key_1025, "v"),
        pair("long-value", &value_1025),
        pair(&key_1024, "fits"),
    ];
    let out = compose_tags(&extra, "text/plain", &default_reserved_names());
    assert_eq!(
        out,
        vec![pair("Content-Type", "text/plain"), pair("Data-Protocol", "Load-S3"), pair(&key_1024, "fits")]
    );
}

#[test]
fn size_limit_counts_bytes_not_characters() {
    // 513 two-byte characters are 1026 bytes
    let wide = "é".repeat(513);
    let fits = "é".repeat(512);
    let extra = vec![pair(&wide, "v"), pair(&fits, "v")];
    let out = compose_tags(&extra, "text/plain", &default_reserved_names());
    assert_eq!(out.len(), 3);
    assert_eq!(out[2], pair(&fits, "v"));
    assert!(is_acceptable_text(&fits));
    assert!(!is_acceptable_text(&wide));
    assert!(!is_acceptable_text(""));
}

#[test]
fn oversized_candidate_that_trims_to_size_is_kept() {
    let padded = format!("  {}  ", "k".repeat(1024));
    let extra = vec![pair(&padded, "v")];
    let out = compose_tags(&extra, "text/plain", &default_reserved_names());
    assert_eq!(out[2], pair(&"k".repeat(1024), "v"));
}

#[test]
fn composer_accepts_with_a_given_folded_key() {
    let reserved = names(&["secret"]);
    let mut composer = TagComposer::new("text/plain");
    composer.accept("Name", "alice", "name", &reserved);
    composer.accept("NAME", "bob", "name", &reserved);
    composer.accept("Secret", "x", "secret", &reserved);
    composer.accept("Type", "text/html", "content-type", &reserved);
    composer.accept("", "x", "empty", &reserved);
    assert_eq!(
        composer.into_tags(),
        vec![pair("Type", "text/html"), pair("Data-Protocol", "Load-S3"), pair("Name", "alice")]
    );
}

#[test]
fn normalize_trims_and_drops() {
    let tags = vec![pair(" a ", " b "), pair("", "x"), pair("a", "b"), pair("c", "d")];
    assert_eq!(normalize_tags(&tags), vec![pair("a", "b"), pair("c", "d")]);
}

#[test]
fn normalize_keeps_pairs_that_differ_in_case_or_value() {
    let tags = vec![pair("a", "1"), pair("A", "1"), pair("a", "2"), pair("a", "1")];
    assert_eq!(normalize_tags(&tags), vec![pair("a", "1"), pair("A", "1"), pair("a", "2")]);
}

#[test]
fn normalize_trims_unicode_white_space() {
    let tags = vec![pair("\u{2003}key\u{00a0}", "\u{3000}value\u{85}")];
    assert_eq!(normalize_tags(&tags), vec![pair("key", "value")]);
}

#[test]
fn normalize_drops_oversized_parts() {
    let tags = vec![pair(&"k".repeat(1025), "v"), pair("k", &"v".repeat(1025)), pair("k", "v")];
    assert_eq!(normalize_tags(&tags), vec![pair("k", "v")]);
    assert_eq!(normalize_tags(&[]), Vec::<(String, String)>::new());
}

#[test]
fn normalizing_twice_changes_nothing() {
    let tags = vec![pair(" a ", " b "), pair("c", " d"), pair("a", "b")];
    let once = normalize_tags(&tags);
    assert_eq!(normalize_tags(&once), once);
}

#[test]
fn content_type_of_finds_the_first_content_type_tag() {
    let tags = vec![pair("a", "b"), pair("CONTENT-TYPE", "image/png"), pair("content-type", "x")];
    assert_eq!(content_type_of(&tags), "image/png");
    assert_eq!(content_type_of(&[pair("a", "b")]), "application/octet-stream");
    assert_eq!(content_type_of(&[]), "application/octet-stream");
}

#[test]
fn lists_are_searched_by_equality() {
    let list = vec![pair("a", "b"), pair("c", "d")];
    assert!(contains_pair(&list, "c", "d"));
    assert!(!contains_pair(&list, "c", "b"));
    assert!(!contains_pair(&list, "C", "d"));
    let reserved = default_reserved_names();
    assert_eq!(reserved, names(&["storage-provider", "agent-version"]));
    assert!(contains_text(&reserved, "agent-version"));
    assert!(!contains_text(&reserved, "Agent-Version"));
}

#[test]
fn content_type_key_is_compared_in_folded_form() {
    assert!(is_content_type_key("content-type"));
    assert!(!is_content_type_key("Content-Type"));
    assert!(!is_content_type_key("content_type"));
    assert!(!is_content_type_key(""));
}
