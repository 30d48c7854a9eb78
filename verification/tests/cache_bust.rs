use dodeca::cache_bust::{cache_busted_path, content_hash, encode_dodeca, has_existing_hash};

#[test]
fn test_encode_dodeca() {
    let encoded = encode_dodeca(0);
    assert_eq!(encoded, "000000000000");
    assert_eq!(encoded.len(), 12);

    let encoded = encode_dodeca(12345678901234567890);
    assert_eq!(encoded.len(), 12);
    for c in encoded.chars() {
        assert!(
            "0123456acdeo".contains(c),
            "Invalid character in dodeca hash: {c}"
        );
    }
}

#[test]
fn test_content_hash() {
    let hash1 = content_hash(b"hello world");
    let hash2 = content_hash(b"hello world");
    let hash3 = content_hash(b"different content");

    assert_eq!(hash1.len(), 12);
    assert_eq!(hash1, hash2);
    assert_ne!(hash1, hash3);

    for c in hash1.chars() {
        assert!(
            "0123456acdeo".contains(c),
            "Invalid character in dodeca hash: {c}"
        );
    }
}

#[test]
fn test_cache_busted_path() {
    assert_eq!(
        cache_busted_path("main.css", "0a3dec47oc21"),
        "main.0a3dec47oc21.css"
    );
    assert_eq!(
        cache_busted_path("fonts/Inter.woff2", "dec0da123456"),
        "fonts/Inter.dec0da123456.woff2"
    );
    assert_eq!(
        cache_busted_path("fonts/Inter-Bold.woff2", "123456789012"),
        "fonts/Inter-Bold.123456789012.woff2"
    );
    assert_eq!(
        cache_busted_path("noextension", "acdeo0123456"),
        "noextension.acdeo0123456"
    );
}

#[test]
fn test_has_existing_hash() {
    assert!(has_existing_hash("main-B6eUmL6x.js"));
    assert!(has_existing_hash("monaco/main-B6eUmL6x.js"));
    assert!(has_existing_hash("typescript-Bq0JxXsY.js"));
    assert!(has_existing_hash("clojure-BAuDPsal.js"));

    assert!(has_existing_hash("main.abc123.js"));
    assert!(has_existing_hash("vendor.1234abcd.css"));

    assert!(!has_existing_hash("main.js"));
    assert!(!has_existing_hash("main.css"));
    assert!(!has_existing_hash("fonts/Inter.woff2"));
    assert!(!has_existing_hash("inter-bold.woff2"));

    assert!(!has_existing_hash("noextension"));
    assert!(!has_existing_hash("file-ab.js"));
    assert!(!has_existing_hash("file-abc.js"));
}

#[test]
fn encode_dodeca_known_values() {
    // 12 = 0o10 in base 12 → "...10"; 11 is the last alphabet letter.
    assert_eq!(encode_dodeca(11), "00000000000o");
    assert_eq!(encode_dodeca(12), "000000000010");
    assert_eq!(encode_dodeca(143), "0000000000oo");
    // Only the value modulo 12^12 is kept.
    let twelve_pow_12: u64 = 8_916_100_448_256;
    assert_eq!(encode_dodeca(twelve_pow_12), "000000000000");
    assert_eq!(encode_dodeca(twelve_pow_12 + 7), "00000000000a");
}

#[test]
fn busted_paths_are_recognized_as_hashed() {
    let busted = cache_busted_path("fonts/Inter.woff2", "dec0da123456");
    assert!(has_existing_hash(&busted));
    let busted = cache_busted_path("app.js", &content_hash(b"console.log(1)"));
    assert!(has_existing_hash(&busted));
}

#[test]
fn content_hash_is_the_encoding_of_the_hash() {
    let h = content_hash(b"");
    assert_eq!(h.len(), 12);
    assert_ne!(content_hash(b"a"), content_hash(b"b"));
}

#[test]
fn cache_busted_paths_keep_directories_unchanged() {
    assert_eq!(cache_busted_path("assets.v2/app", "0a3dec47oc21"), "assets.v2/app.0a3dec47oc21");
    assert_eq!(cache_busted_path("assets.v2/app.js", "0a3dec47oc21"), "assets.v2/app.0a3dec47oc21.js");
    assert_eq!(cache_busted_path("app", "0a3dec47oc21"), "app.0a3dec47oc21");
}
