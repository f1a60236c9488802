use magnet_url::{Magnet, MagnetBuilder, MagnetError};

#[test]
fn sintel_test() {
    const MAGNET_STR: &str = "magnet:?xt=urn:btih:08ada5a7a6183aae1e09d831df6748d566095a10&dn=Sintel&tr=udp%3A%2F%2Fexplodie.org%3A6969&tr=udp%3A%2F%2Ftracker.coppersurfer.tk%3A6969&tr=udp%3A%2F%2Ftracker.empire-js.us%3A1337&tr=udp%3A%2F%2Ftracker.leechers-paradise.org%3A6969&tr=udp%3A%2F%2Ftracker.opentrackr.org%3A1337&tr=wss%3A%2F%2Ftracker.btorrent.xyz&tr=wss%3A%2F%2Ftracker.fastcast.nz&tr=wss%3A%2F%2Ftracker.openwebtorrent.com&ws=https%3A%2F%2Fwebtorrent.io%2Ftorrents%2F&xs=https%3A%2F%2Fwebtorrent.io%2Ftorrents%2Fsintel.torrent";
    let magnet_link = Magnet::new(MAGNET_STR).unwrap();

    assert_eq!(magnet_link.display_name(), Some("Sintel"));
    assert_eq!(magnet_link.hash_type(), Some("btih"));
    assert_eq!(
        magnet_link.hash(),
        Some("08ada5a7a6183aae1e09d831df6748d566095a10")
    );
    assert_eq!(magnet_link.length(), None);
    assert_eq!(
        magnet_link.source(),
        Some("https%3A%2F%2Fwebtorrent.io%2Ftorrents%2Fsintel.torrent")
    );
    assert_eq!(
        magnet_link.trackers()[0],
        "udp%3A%2F%2Fexplodie.org%3A6969"
    );
    assert_eq!(
        magnet_link.trackers()[1],
        "udp%3A%2F%2Ftracker.coppersurfer.tk%3A6969"
    );
    assert_eq!(
        magnet_link.trackers()[2],
        "udp%3A%2F%2Ftracker.empire-js.us%3A1337"
    );
    assert_eq!(
        magnet_link.trackers()[3],
        "udp%3A%2F%2Ftracker.leechers-paradise.org%3A6969"
    );
    assert_eq!(
        magnet_link.trackers()[4],
        "udp%3A%2F%2Ftracker.opentrackr.org%3A1337"
    );
    assert_eq!(
        magnet_link.trackers()[5],
        "wss%3A%2F%2Ftracker.btorrent.xyz"
    );
    assert_eq!(
        magnet_link.trackers()[6],
        "wss%3A%2F%2Ftracker.fastcast.nz"
    );
    assert_eq!(
        magnet_link.trackers()[7],
        "wss%3A%2F%2Ftracker.openwebtorrent.com"
    );
    assert_eq!(
        magnet_link.web_seed(),
        Some("https%3A%2F%2Fwebtorrent.io%2Ftorrents%2F")
    );
    assert_eq!(
        magnet_link.source(),
        Some("https%3A%2F%2Fwebtorrent.io%2Ftorrents%2Fsintel.torrent")
    );
    assert_eq!(magnet_link.search_keywords(), None);
    assert_eq!(magnet_link.acceptable_source(), None);
    assert_eq!(magnet_link.manifest(), None);

    // Recreate a record from the string, since the clauses could be in any order.
    assert_eq!(Magnet::new(&magnet_link.to_string()).unwrap(), magnet_link);
}

#[test]
fn invalid_magnet_test() {
    let result = Magnet::new("https://example.com");
    assert_eq!(result, Err(MagnetError::NotAMagnetURL));
    let err = result.unwrap_err();
    assert_eq!(err.to_string(), "provided link is not a valid magnet URL");
}

#[test]
fn not_equal_magnet_test() {
    // These two torrents aren't even close to equal.
    const MAGNET_STR_1: &str = "magnet:?xt=urn:btih:08ada5a7a6183aae1e09d831df6748d566095a10&dn=Sintel&tr=udp%3A%2F%2Fexplodie.org%3A6969&tr=udp%3A%2F%2Ftracker.coppersurfer.tk%3A6969&tr=udp%3A%2F%2Ftracker.empire-js.us%3A1337&tr=udp%3A%2F%2Ftracker.leechers-paradise.org%3A6969&tr=udp%3A%2F%2Ftracker.opentrackr.org%3A1337&tr=wss%3A%2F%2Ftracker.btorrent.xyz&tr=wss%3A%2F%2Ftracker.fastcast.nz&tr=wss%3A%2F%2Ftracker.openwebtorrent.com&ws=https%3A%2F%2Fwebtorrent.io%2Ftorrents%2F&xs=https%3A%2F%2Fwebtorrent.io%2Ftorrents%2Fsintel.torrent";
    const MAGNET_STR_2: &str = "magnet:?xt=urn:btih:da826adb2ba4933500d83c19bbdfa73ee28f34d5&dn=devuan%5Fbeowulf&tr=udp%3A%2F%2F9.rarbg.me%3A2710%2Fannounce&tr=udp%3A%2F%2Ftracker.opentrackr.org%3A1337%2Fannounce&tr=udp%3A%2F%2Ftracker.cyberia.is%3A6969%2Fannounce";

    let magnet_link_1 = Magnet::new(MAGNET_STR_1);
    let magnet_link_2 = Magnet::new(MAGNET_STR_2);

    // These two torrents, on the other hand, are very similar.
    const MAGNET_STR_3: &str = "magnet:?xt=urn:btih:da826adb2ba4933500d83c19bbdfa73ee28f34d5&dn=devuan%5Fbeowulf&tr=udp%3A%2F%2F9.rarbg.me%3A2710%2Fannounce&tr=udp%3A%2F%2Ftracker.opentrackr.org%3A1337%2Fannounce&tr=udp%3A%2F%2Ftracker.cyberia.is%3A6969%2Fannounce";
    const MAGNET_STR_4: &str = "magnet:?xt=urn:btih:da826adb2ba4933500d83c19bbdfa73ee28f34d5&dn=devuan%5Fbeowulf&tr=udp%3A%2F%2F9.rarbg.me%3A2710%2Fannounce&tr=udp%3A%2F%2Ftracker.opentrackr.org%3A1337%2Fannounce&tr=udp%3A%2F%2Ftracker.cyberia.is%3A6969%2Fannounce&tr=https://example.com/fake_tracker";

    let magnet_link_3 = Magnet::new(MAGNET_STR_3);
    let magnet_link_4 = Magnet::new(MAGNET_STR_4);

    assert_ne!(magnet_link_1, magnet_link_2);
    assert_ne!(magnet_link_3, magnet_link_4);

    // magnet_link_2 and magnet_link_3 are exactly the same.
    assert_eq!(magnet_link_2, magnet_link_3);
}

#[test]
fn builder_test() {
    // Test creating a record using the builder.
    let magnet = MagnetBuilder::new()
        .display_name("Test")
        .hash_type("btih")
        .hash("1234567890abcdef1234567890abcdef12345678")
        .length(12345)
        .add_tracker("udp://tracker1.example.com:6969")
        .add_tracker("udp://tracker2.example.com:6969")
        .search_keywords("test+keywords")
        .web_seed("https://example.com/seed")
        .acceptable_source("https://example.com/download")
        .manifest("https://example.com/manifest")
        .source("https://example.com/source")
        .build();

    // Convert to string and back to ensure all fields are properly serialized.
    let magnet_str = magnet.to_string();
    let parsed_magnet = Magnet::new(&magnet_str).unwrap();

    // Verify all fields match.
    assert_eq!(parsed_magnet.display_name(), Some("Test"));
    assert_eq!(parsed_magnet.hash_type(), Some("btih"));
    assert_eq!(parsed_magnet.hash(), Some("1234567890abcdef1234567890abcdef12345678"));
    assert_eq!(parsed_magnet.length(), Some(12345));
    assert_eq!(parsed_magnet.trackers().len(), 2);
    assert_eq!(parsed_magnet.trackers()[0], "udp://tracker1.example.com:6969");
    assert_eq!(parsed_magnet.trackers()[1], "udp://tracker2.example.com:6969");
    assert_eq!(parsed_magnet.search_keywords(), Some("test+keywords"));
    assert_eq!(parsed_magnet.web_seed(), Some("https://example.com/seed"));
    assert_eq!(parsed_magnet.acceptable_source(), Some("https://example.com/download"));
    assert_eq!(parsed_magnet.manifest(), Some("https://example.com/manifest"));
    assert_eq!(parsed_magnet.source(), Some("https://example.com/source"));

    // Ensure the magnet URL starts with the correct prefix.
    assert!(magnet_str.starts_with("magnet:?xt=urn:"));

    // Ensure all fields are present in the string.
    assert!(magnet_str.contains("&dn=Test"));
    assert!(magnet_str.contains("&tr=udp://tracker1.example.com:6969"));
    assert!(magnet_str.contains("&tr=udp://tracker2.example.com:6969"));
    assert!(magnet_str.contains("&xl=12345"));
    assert!(magnet_str.contains("&kt=test+keywords"));
    assert!(magnet_str.contains("&ws=https://example.com/seed"));
    assert!(magnet_str.contains("&as=https://example.com/download"));
    assert!(magnet_str.contains("&mt=https://example.com/manifest"));
    assert!(magnet_str.contains("&xs=https://example.com/source"));
}

#[test]
fn add_trackers_test() {
    // Test the add_trackers method.
    let trackers = ["udp://tracker1.example.com:6969", "udp://tracker2.example.com:6969"];

    let magnet = MagnetBuilder::new()
        .hash_type("btih")
        .hash("1234567890abcdef1234567890abcdef12345678")
        .add_trackers(&trackers)
        .build();

    assert_eq!(magnet.trackers().len(), 2);
    assert_eq!(magnet.trackers()[0], "udp://tracker1.example.com:6969");
    assert_eq!(magnet.trackers()[1], "udp://tracker2.example.com:6969");
}

#[test]
fn empty_optional_fields_test() {
    // Test with minimal fields to ensure optional fields are handled correctly.
    let magnet = MagnetBuilder::new()
        .hash_type("btih")
        .hash("1234567890abcdef1234567890abcdef12345678")
        .build();

    // Convert to string and back.
    let magnet_str = magnet.to_string();
    let parsed_magnet = Magnet::new(&magnet_str).unwrap();

    // Verify all fields match.
    assert_eq!(parsed_magnet.display_name(), None);
    assert_eq!(parsed_magnet.hash_type(), Some("btih"));
    assert_eq!(parsed_magnet.hash(), Some("1234567890abcdef1234567890abcdef12345678"));
    assert_eq!(parsed_magnet.length(), None);
    assert!(parsed_magnet.trackers().is_empty());
    assert_eq!(parsed_magnet.search_keywords(), None);
    assert_eq!(parsed_magnet.web_seed(), None);
    assert_eq!(parsed_magnet.acceptable_source(), None);
    assert_eq!(parsed_magnet.manifest(), None);
    assert_eq!(parsed_magnet.source(), None);
}
