use lux_patcher::cache::{Cache, CacheEntry, CacheError, CacheKey};
use lux_patcher::md5sum::Md5Sum;

fn md5(s: &str) -> Md5Sum {
    Md5Sum::parse(s).unwrap()
}

#[test]
fn md5_hex_roundtrip() {
    let m = md5("e1771d0f4c93e327c6621a0ef2e1bdce");
    assert_eq!(m.to_hex(), "e1771d0f4c93e327c6621a0ef2e1bdce");
    // Uppercase digits parse to the same digest.
    let upper = md5("E1771D0F4C93E327C6621A0EF2E1BDCE");
    assert_eq!(m, upper);
    assert!(Md5Sum::parse("e1771d0f4c93e327c6621a0ef2e1bdc").is_none());
    assert!(Md5Sum::parse("z1771d0f4c93e327c6621a0ef2e1bdce").is_none());
}

#[test]
fn cache_insert_get() {
    let mut cache = Cache::new();
    let entry = CacheEntry {
        mtime: Some(1_700_000_000_123_456),
        size: 10,
        hash: md5("00112233445566778899aabbccddeeff"),
    };
    cache.insert(CacheKey::new("versions/index.txt"), entry);
    // Keys built from either slash form collide.
    let got = cache.get(&CacheKey::new("versions\\index.txt")).unwrap();
    assert_eq!(got.size, 10);
    assert_eq!(got.hash, entry.hash);
    assert_eq!(got.mtime, Some(1_700_000_000_123_456));
    assert!(cache.get(&CacheKey::new("versions/other.txt")).is_none());
}

#[test]
fn cache_insert_overwrites() {
    let mut cache = Cache::new();
    let h1 = md5("00112233445566778899aabbccddeeff");
    let h2 = md5("ffeeddccbbaa99887766554433221100");
    cache.insert(
        CacheKey::new("a"),
        CacheEntry { mtime: Some(1_000_000), size: 1, hash: h1 },
    );
    cache.insert(
        CacheKey::new("a"),
        CacheEntry { mtime: Some(2_000_000), size: 2, hash: h2 },
    );
    let got = cache.get(&CacheKey::new("a")).unwrap();
    assert_eq!(got.size, 2);
    assert_eq!(got.hash, h2);
}

#[test]
fn cache_serialize_format() {
    let mut cache = Cache::new();
    cache.insert(
        CacheKey::new("versions/index.txt"),
        CacheEntry {
            mtime: Some(1_700_000_000_123_456),
            size: 10,
            hash: md5("00112233445566778899aabbccddeeff"),
        },
    );
    cache.insert(
        CacheKey::new("client/a.nif"),
        CacheEntry { mtime: None, size: 7, hash: md5("ffeeddccbbaa99887766554433221100") },
    );
    // One line per entry, sorted by key, mtime empty when absent.
    assert_eq!(
        cache.serialize(),
        "client\\a.nif,,7,ffeeddccbbaa99887766554433221100\n\
         versions\\index.txt,1700000000.123456,10,00112233445566778899aabbccddeeff\n"
    );
}

#[test]
fn cache_roundtrip() {
    let mut cache = Cache::new();
    cache.insert(
        CacheKey::new("b/two"),
        CacheEntry {
            mtime: Some(1_700_000_000_123_456),
            size: 10,
            hash: md5("00112233445566778899aabbccddeeff"),
        },
    );
    cache.insert(
        CacheKey::new("a/one"),
        CacheEntry { mtime: None, size: 3, hash: md5("ffeeddccbbaa99887766554433221100") },
    );
    cache.insert(
        CacheKey::new("b/two"),
        CacheEntry {
            mtime: Some(5),
            size: 11,
            hash: md5("0123456789abcdef0123456789abcdef"),
        },
    );
    let text = cache.serialize();
    let loaded = Cache::parse(text.as_str()).unwrap();
    // Every key maps to the last value inserted for it.
    let two = loaded.get(&CacheKey::new("b/two")).unwrap();
    assert_eq!(two.size, 11);
    assert_eq!(two.mtime, Some(5));
    assert_eq!(two.hash, md5("0123456789abcdef0123456789abcdef"));
    let one = loaded.get(&CacheKey::new("a/one")).unwrap();
    assert_eq!(one.size, 3);
    assert_eq!(one.mtime, None);
    // And the persisted form is stable under a reload.
    assert_eq!(loaded.serialize(), text);
}

#[test]
fn cache_roundtrip_extremes() {
    // The largest representable size and time survive the text form.
    let mut cache = Cache::new();
    cache.insert(
        CacheKey::new("big"),
        CacheEntry {
            mtime: Some(u64::MAX),
            size: u32::MAX,
            hash: md5("ffffffffffffffffffffffffffffffff"),
        },
    );
    let loaded = Cache::parse(cache.serialize().as_str()).unwrap();
    let e = loaded.get(&CacheKey::new("big")).unwrap();
    assert_eq!(e.size, u32::MAX);
    assert_eq!(e.mtime, Some(u64::MAX));
}

#[test]
fn cache_parse_empty_is_empty() {
    let cache = Cache::parse("").unwrap();
    assert!(cache.get(&CacheKey::new("anything")).is_none());
}

#[test]
fn cache_parse_malformed_line_is_fatal() {
    assert_eq!(
        Cache::parse("not a cache line\n").unwrap_err(),
        CacheError::MalformedLine(0)
    );
    // Too few fields.
    assert_eq!(
        Cache::parse("key,1.000000,10\n").unwrap_err(),
        CacheError::MalformedLine(0)
    );
    // A bad size is fatal.
    assert_eq!(
        Cache::parse("key,1.000000,ten,00112233445566778899aabbccddeeff\n").unwrap_err(),
        CacheError::MalformedLine(0)
    );
    // A bad hash is fatal.
    assert_eq!(
        Cache::parse("key,1.000000,10,nothex\n").unwrap_err(),
        CacheError::MalformedLine(0)
    );
    // The index names the offending line.
    assert_eq!(
        Cache::parse("good,,1,00112233445566778899aabbccddeeff\nbad\n").unwrap_err(),
        CacheError::MalformedLine(1)
    );
}

#[test]
fn cache_parse_non_canonical_texts() {
    // Lines are overlaid in order: a later line wins over an earlier one
    // with the same key.
    let dup = "k,,1,00112233445566778899aabbccddeeff\n\
               k,,2,ffeeddccbbaa99887766554433221100\n";
    let c = Cache::parse(dup).unwrap();
    let e = c.get(&CacheKey::new("k")).unwrap();
    assert_eq!(e.size, 2);
    assert_eq!(e.hash, md5("ffeeddccbbaa99887766554433221100"));
    // An unsorted store loads fine; saving it again sorts it.
    let unsorted = "b,,1,00112233445566778899aabbccddeeff\n\
                    a,,2,ffeeddccbbaa99887766554433221100\n";
    let c = Cache::parse(unsorted).unwrap();
    assert_eq!(c.get(&CacheKey::new("a")).unwrap().size, 2);
    assert_eq!(c.get(&CacheKey::new("b")).unwrap().size, 1);
    assert_eq!(
        c.serialize(),
        "a,,2,ffeeddccbbaa99887766554433221100\n\
         b,,1,00112233445566778899aabbccddeeff\n"
    );
    // A store with CRLF line endings reads as one with plain newlines.
    let crlf = "k,,3,00112233445566778899aabbccddeeff\r\n";
    let c = Cache::parse(crlf).unwrap();
    assert_eq!(c.get(&CacheKey::new("k")).unwrap().size, 3);
    // Extra fields after the hash are ignored.
    let extra = "k,,4,00112233445566778899aabbccddeeff,junk\n";
    let c = Cache::parse(extra).unwrap();
    assert_eq!(c.get(&CacheKey::new("k")).unwrap().size, 4);
}

#[test]
fn cache_parse_tolerates_bad_mtime() {
    // A malformed mtime field reads as "unknown", not as an error.
    let cache = Cache::parse("key,garbage,10,00112233445566778899aabbccddeeff\n").unwrap();
    let e = cache.get(&CacheKey::new("key")).unwrap();
    assert_eq!(e.mtime, None);
    assert_eq!(e.size, 10);
}
