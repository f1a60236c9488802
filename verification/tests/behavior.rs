use magnet_url::{Magnet, MagnetBuilder, MagnetError};

#[test]
fn single_tracker_scenario_test() {
    let magnet = Magnet::new(
        "magnet:?xt=urn:btih:08ada5a7a6183aae1e09d831df6748d566095a10&dn=Sintel&tr=udp%3A%2F%2Fexplodie.org%3A6969",
    )
    .unwrap();
    assert_eq!(magnet.hash_type(), Some("btih"));
    assert_eq!(magnet.hash(), Some("08ada5a7a6183aae1e09d831df6748d566095a10"));
    assert_eq!(magnet.display_name(), Some("Sintel"));
    assert_eq!(magnet.trackers().len(), 1);
    assert_eq!(magnet.trackers()[0], "udp%3A%2F%2Fexplodie.org%3A6969");
    assert_eq!(magnet.length(), None);
    assert_eq!(magnet.source(), None);
    assert_eq!(magnet.search_keywords(), None);
    assert_eq!(magnet.web_seed(), None);
    assert_eq!(magnet.acceptable_source(), None);
    assert_eq!(magnet.manifest(), None);
}

#[test]
fn prefix_rejection_test() {
    assert_eq!(Magnet::new(""), Err(MagnetError::NotAMagnetURL));
    assert_eq!(Magnet::new("magnet:"), Err(MagnetError::NotAMagnetURL));
    assert_eq!(Magnet::new("magnet:?"), Ok(MagnetBuilder::new().build()));
    assert_eq!(Magnet::new("MAGNET:?dn=x"), Err(MagnetError::NotAMagnetURL));
}

#[test]
fn tracker_order_test() {
    let magnet = Magnet::new("magnet:?tr=A&tr=B&tr=C").unwrap();
    assert_eq!(
        magnet.trackers(),
        ["A".to_string(), "B".to_string(), "C".to_string()].as_slice()
    );
}

#[test]
fn duplicate_trackers_kept_test() {
    let magnet = Magnet::new("magnet:?tr=A&tr=A&tr=").unwrap();
    assert_eq!(
        magnet.trackers(),
        ["A".to_string(), "A".to_string(), String::new()].as_slice()
    );
}

#[test]
fn last_value_wins_test() {
    let magnet = Magnet::new("magnet:?dn=First&dn=Second").unwrap();
    assert_eq!(magnet.display_name(), Some("Second"));

    let magnet = Magnet::new("magnet:?xt=urn:btih:aaa&xt=urn:sha1:bbb").unwrap();
    assert_eq!(magnet.hash_type(), Some("sha1"));
    assert_eq!(magnet.hash(), Some("bbb"));
}

#[test]
fn absent_fields_omitted_test() {
    let magnet = MagnetBuilder::new()
        .hash_type("btih")
        .hash("1234567890abcdef1234567890abcdef12345678")
        .build();
    assert_eq!(
        magnet.to_string(),
        "magnet:?xt=urn:btih:1234567890abcdef1234567890abcdef12345678"
    );
}

#[test]
fn missing_hash_type_quirk_test() {
    // A hash without a hash type yields the documented degenerate clause.
    let magnet = MagnetBuilder::new().hash("abc").build();
    assert_eq!(magnet.to_string(), "magnet:?xt=urn::abc");
    // Re-parsing turns the absent hash type into an empty one.
    let parsed = Magnet::new("magnet:?xt=urn::abc").unwrap();
    assert_eq!(parsed.hash_type(), Some(""));
    assert_eq!(parsed.hash(), Some("abc"));
}

#[test]
fn equality_ignores_provenance_test() {
    let a = Magnet::new("magnet:?xt=urn:btih:ABC&tr=X").unwrap();
    let b = Magnet::new("magnet:?xt=urn:btih:ABC&tr=X").unwrap();
    assert_eq!(a, b);
    let c = MagnetBuilder::new().hash_type("btih").hash("ABC").add_tracker("X").build();
    assert_eq!(a, c);
    let d = MagnetBuilder::new().hash_type("btih").hash("ABC").add_tracker("Y").build();
    assert_ne!(a, d);
}

#[test]
fn full_round_trip_test() {
    let magnet = MagnetBuilder::new()
        .display_name("hello_world")
        .hash_type("sha1")
        .hash("2aae6c35c94fcfb415dbe95f408b9ce91ee846ed")
        .length(1234567890)
        .add_tracker("https://example.com/")
        .search_keywords("cool+stuff")
        .web_seed("https://example.org/seed")
        .acceptable_source("https://example.org/fallback")
        .manifest("https://example.org/manifest")
        .source("https://example.org/source")
        .build();
    let reparsed = Magnet::new(&magnet.to_string()).unwrap();
    assert_eq!(reparsed, magnet);
}

#[test]
fn malformed_xt_ignored_test() {
    // No urn: infix at all.
    let magnet = Magnet::new("magnet:?xt=btih:abc").unwrap();
    assert_eq!(magnet.hash_type(), None);
    assert_eq!(magnet.hash(), None);
    // urn: present but no second colon.
    let magnet = Magnet::new("magnet:?xt=urn:btih").unwrap();
    assert_eq!(magnet.hash_type(), None);
    assert_eq!(magnet.hash(), None);
    // Empty value.
    let magnet = Magnet::new("magnet:?xt=").unwrap();
    assert_eq!(magnet.hash_type(), None);
    assert_eq!(magnet.hash(), None);
}

#[test]
fn length_parsing_test() {
    assert_eq!(Magnet::new("magnet:?xl=0").unwrap().length(), Some(0));
    assert_eq!(Magnet::new("magnet:?xl=12345").unwrap().length(), Some(12345));
    assert_eq!(
        Magnet::new("magnet:?xl=18446744073709551615").unwrap().length(),
        Some(u64::MAX)
    );
    // A leading plus sign is part of a decimal integer.
    assert_eq!(Magnet::new("magnet:?xl=+5").unwrap().length(), Some(5));
    // Anything else is silently ignored.
    assert_eq!(Magnet::new("magnet:?xl=abc").unwrap().length(), None);
    assert_eq!(Magnet::new("magnet:?xl=").unwrap().length(), None);
    assert_eq!(Magnet::new("magnet:?xl=-5").unwrap().length(), None);
    assert_eq!(Magnet::new("magnet:?xl=12x").unwrap().length(), None);
    assert_eq!(
        Magnet::new("magnet:?xl=18446744073709551616").unwrap().length(),
        None
    );
    assert_eq!(
        Magnet::new("magnet:?xl=99999999999999999999999999").unwrap().length(),
        None
    );
}

#[test]
fn length_serialization_test() {
    let magnet = MagnetBuilder::new().hash_type("btih").hash("abc").length(0).build();
    assert_eq!(magnet.to_string(), "magnet:?xt=urn:btih:abc&xl=0");
    let magnet = MagnetBuilder::new().hash_type("btih").hash("abc").length(u64::MAX).build();
    assert_eq!(
        magnet.to_string(),
        "magnet:?xt=urn:btih:abc&xl=18446744073709551615"
    );
    let reparsed = Magnet::new(&magnet.to_string()).unwrap();
    assert_eq!(reparsed.length(), Some(u64::MAX));
}

#[test]
fn ignored_fragments_test() {
    // Unknown keys, fragments without an equals sign, and an empty remainder
    // all contribute nothing.
    let magnet = Magnet::new("magnet:?zz=1&noequals&=bare&dn=Name&&").unwrap();
    assert_eq!(magnet.display_name(), Some("Name"));
    assert_eq!(magnet.hash(), None);
    assert!(magnet.trackers().is_empty());
    let empty = Magnet::new("magnet:?").unwrap();
    assert_eq!(empty, MagnetBuilder::new().build());
}

#[test]
fn value_with_equals_kept_test() {
    // Only the first equals sign splits a fragment.
    let magnet = Magnet::new("magnet:?dn=a=b&ws=c=d").unwrap();
    assert_eq!(magnet.display_name(), Some("a=b"));
    assert_eq!(magnet.web_seed(), Some("c=d"));
}

#[test]
fn builder_default_test() {
    let magnet = MagnetBuilder::default().build();
    assert_eq!(magnet.display_name(), None);
    assert_eq!(magnet.hash_type(), None);
    assert_eq!(magnet.hash(), None);
    assert_eq!(magnet.length(), None);
    assert_eq!(magnet.source(), None);
    assert!(magnet.trackers().is_empty());
    assert_eq!(magnet.search_keywords(), None);
    assert_eq!(magnet.web_seed(), None);
    assert_eq!(magnet.acceptable_source(), None);
    assert_eq!(magnet.manifest(), None);
    // Serializing the all-default record emits the bare prefix.
    assert_eq!(magnet.to_string(), "magnet:?");
}
