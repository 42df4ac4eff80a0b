use lux_patcher::archive::{ArchiveFileRef, ArchiveIndex, ArchiveRef};
use lux_patcher::cache::{Cache, CacheEntry, CacheKey};
use lux_patcher::crc::calculate_crc;
use lux_patcher::manifest::parse_manifest;
use lux_patcher::md5sum::Md5Sum;
use lux_patcher::patcher::{record_fetch, resolve, Decision};

const H1: &str = "00112233445566778899aabbccddeeff";
const H2: &str = "ffeeddccbbaa99887766554433221100";

fn manifest_with_ab() -> lux_patcher::manifest::Manifest {
    let text = format!("[version]\n1,{h2},trunk\n[files]\na/b.txt,10,{h1},8,{h2},{h2}\n", h1 = H1, h2 = H2);
    parse_manifest(text.as_str()).unwrap()
}

#[test]
fn end_to_end_single_fetch() {
    // Manifest with one file, empty cache, no archive index: one fetch,
    // then one cache entry under prefix + path with the manifest's claims.
    let manifest = manifest_with_ab();
    let mut cache = Cache::new();
    let d = resolve(None, &manifest, &cache, "versions/", "a/b.txt");
    match d {
        Decision::FetchNeeded { url_suffix, cache_key, size, hash } => {
            assert_eq!(url_suffix, format!("0/0/{}.sd0", H1));
            assert_eq!(size, 10);
            assert_eq!(hash, Md5Sum::parse(H1).unwrap());
            record_fetch(&mut cache, cache_key, 1_700_000_000_000_000, size, hash);
        },
        other => panic!("expected a fetch, got {:?}", other),
    }
    assert_eq!(
        cache.serialize(),
        format!("versions\\a\\b.txt,1700000000.000000,10,{}\n", H1)
    );
    let e = cache.get(&CacheKey::new("versions/a/b.txt")).unwrap();
    assert_eq!(e.size, 10);
    assert_eq!(e.hash, Md5Sum::parse(H1).unwrap());
    assert_eq!(e.mtime, Some(1_700_000_000_000_000));
}

#[test]
fn populated_cache_is_idempotent() {
    // With a hash-matching entry for every manifest file, a re-run decides
    // "cache hit" everywhere and the persisted text stays byte-identical.
    let manifest = manifest_with_ab();
    let mut cache = Cache::new();
    cache.insert(
        CacheKey::new("versions/a/b.txt"),
        CacheEntry { mtime: Some(1), size: 10, hash: Md5Sum::parse(H1).unwrap() },
    );
    let before = cache.serialize();
    for i in 0..manifest.file_count() {
        let (path, _) = manifest.file_at(i);
        let p = path.clone();
        let d = resolve(None, &manifest, &cache, "versions/", p.as_str());
        assert!(matches!(d, Decision::CacheHit), "unexpected decision {:?}", d);
    }
    assert_eq!(cache.serialize(), before);
}

#[test]
fn stale_entry_is_fetched_and_overwritten() {
    // A cache entry whose hash differs from the manifest's forces one
    // fetch, and recording it overwrites hash, size and mtime.
    let manifest = manifest_with_ab();
    let mut cache = Cache::new();
    cache.insert(
        CacheKey::new("versions/a/b.txt"),
        CacheEntry { mtime: Some(1), size: 9, hash: Md5Sum::parse(H2).unwrap() },
    );
    let d = resolve(None, &manifest, &cache, "versions/", "a/b.txt");
    match d {
        Decision::FetchNeeded { cache_key, size, hash, .. } => {
            assert_eq!(size, 10);
            assert_eq!(hash, Md5Sum::parse(H1).unwrap());
            record_fetch(&mut cache, cache_key, 77, size, hash);
        },
        other => panic!("expected a fetch, got {:?}", other),
    }
    let e = cache.get(&CacheKey::new("versions/a/b.txt")).unwrap();
    assert_eq!(e.hash, Md5Sum::parse(H1).unwrap());
    assert_eq!(e.size, 10);
    assert_eq!(e.mtime, Some(77));
}

#[test]
fn archived_file_is_shadowed() {
    // A checksum present in the archive index resolves to "archived",
    // whatever the manifest and cache hold, and the cache stays untouched.
    let manifest = manifest_with_ab();
    let mut cache = Cache::new();
    // Even a stale cache entry must not trigger a fetch here.
    cache.insert(
        CacheKey::new("a/b.txt"),
        CacheEntry { mtime: Some(1), size: 1, hash: Md5Sum::parse(H2).unwrap() },
    );
    let before = cache.serialize();
    let index = ArchiveIndex {
        archives: vec![ArchiveRef { path: "primary.pk".to_owned() }],
        files: vec![(calculate_crc(b"a/b.txt"), ArchiveFileRef { category: 1, pack_file: 0 })],
    };
    let d = resolve(Some(&index), &manifest, &cache, "", "a/b.txt");
    match d {
        Decision::Archived { category, pack_file } => {
            assert_eq!(category, 1);
            assert_eq!(pack_file, 0);
        },
        other => panic!("expected archived, got {:?}", other),
    }
    assert_eq!(cache.serialize(), before);
}

#[test]
fn archive_miss_falls_through() {
    // An index without this file's checksum falls through to the normal
    // cache-or-fetch resolution.
    let manifest = manifest_with_ab();
    let cache = Cache::new();
    let index = ArchiveIndex {
        archives: vec![],
        files: vec![(calculate_crc(b"other.txt"), ArchiveFileRef { category: 1, pack_file: 0 })],
    };
    let d = resolve(Some(&index), &manifest, &cache, "", "a/b.txt");
    assert!(matches!(d, Decision::FetchNeeded { .. }));
}

#[test]
fn unknown_file_is_skipped() {
    // A file absent from the manifest: no fetch, no cache change, no error.
    let manifest = manifest_with_ab();
    let cache = Cache::new();
    let d = resolve(None, &manifest, &cache, "versions/", "not/listed.txt");
    assert!(matches!(d, Decision::NotInManifest));
    assert_eq!(cache.serialize(), "");
}

#[test]
fn area_prefixes_prevent_collisions() {
    // The same relative path in the staging and install areas lives under
    // two different cache keys.
    let mut cache = Cache::new();
    cache.insert(
        CacheKey::new("versions/a.txt"),
        CacheEntry { mtime: Some(1), size: 1, hash: Md5Sum::parse(H1).unwrap() },
    );
    cache.insert(
        CacheKey::new("a.txt"),
        CacheEntry { mtime: Some(2), size: 2, hash: Md5Sum::parse(H2).unwrap() },
    );
    assert_eq!(cache.get(&CacheKey::new("versions/a.txt")).unwrap().size, 1);
    assert_eq!(cache.get(&CacheKey::new("a.txt")).unwrap().size, 2);
}
