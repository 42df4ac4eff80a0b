//! The per-file sync decision engine.
//!
//! For each file of a file set the engine combines the archive index, the
//! manifest and the metadata cache into one decision: the file is
//! delivered inside an archive, it is absent from the manifest, the cache
//! already holds the manifest's hash, or it must be fetched.  One
//! resolution function serves both areas: install-area files pass the
//! archive index as their shadow check, staging-area files pass none and
//! always miss.  After a successful fetch the engine records the
//! manifest's claims, never recomputed ones, under the file's cache key.

use vstd::prelude::*;

use crate::archive::{crc_find, ArchiveFileRef, ArchiveIndex};
use crate::assoc::{spec_find, spec_insert};
use crate::cache::{Cache, CacheEntry, CacheKey};
use crate::config::PatcherConfig;
use crate::crc::{calculate_crc, spec_calculate_crc};
use crate::manifest::{spec_to_path, Manifest};
use crate::md5sum::Md5Sum;
use crate::text::backslashify;

verus! {

/// The checksum of a path, computed over its UTF-8 bytes.
pub open spec fn path_crc(s: Seq<char>) -> u32 {
    spec_calculate_crc(vstd::utf8::encode_utf8(s))
}

/// The metadata-cache key for a file resolved against an area: the area's
/// key prefix, then the file path, slashes normalized.
pub open spec fn file_cache_key(base_key: Seq<char>, file: Seq<char>) -> Seq<char> {
    backslashify(base_key + file)
}

/// The decision for one (file set, file) pair.
#[derive(Debug)]
pub enum Decision {
    /// The file is delivered inside a named archive: no fetch, and the
    /// cache is neither consulted nor touched.
    Archived {
        /// The category recorded in the archive index
        category: u32,
        /// The position of the containing archive
        pack_file: u32,
    },
    /// The file is not listed in the manifest: nothing to do, not an
    /// error.
    NotInManifest,
    /// The cache already holds the manifest's hash for this file: no
    /// network access.
    CacheHit,
    /// The file must be fetched from the patch server and then recorded
    /// in the cache.
    FetchNeeded {
        /// The URL suffix to join onto the patch-server base URL
        url_suffix: String,
        /// The cache key to record the fetch under
        cache_key: CacheKey,
        /// The size the manifest declares
        size: u32,
        /// The hash the manifest declares
        hash: Md5Sum,
    },
}

/// What the decision for a file must look like, given the archive index
/// in force (none for staging-area files), the manifest, and the cache.
pub open spec fn resolve_post(
    archive: Option<ArchiveIndex>,
    manifest: Manifest,
    cache: Cache,
    base_key: Seq<char>,
    file: Seq<char>,
    d: Decision,
) -> bool {
    let crc = path_crc(file);
    let shadowed = archive matches Some(a) && a.shadows(crc);
    let entry = spec_find(manifest.files_view(), file);
    let key = file_cache_key(base_key, file);
    match d {
        Decision::Archived { category, pack_file } => shadowed && crc_find(
            archive.unwrap().files@,
            crc,
        ) == Some(ArchiveFileRef { category, pack_file }),
        Decision::NotInManifest => !shadowed && entry is None,
        Decision::CacheHit => !shadowed && (entry matches Some(f) && (spec_find(cache@, key)
            matches Some(c) && c.hash == f.hash)),
        Decision::FetchNeeded { url_suffix, cache_key, size, hash } => {
            &&& !shadowed
            &&& entry matches Some(f) && {
                &&& url_suffix@ == spec_to_path(f)
                &&& size == f.filesize
                &&& hash == f.hash
                &&& cache_key@ == key
                &&& !(spec_find(cache@, key) matches Some(c) && c.hash == f.hash)
            }
        },
    }
}

/// Decide what to do for one file.
///
/// Install-area files pass the archive index as `archive`; staging-area
/// files (the version list, the index, the sub-manifests) pass `None` and
/// fall through to the cache check.  The order is fixed: an archived file
/// is resolved without consulting manifest or cache; otherwise a file
/// absent from the manifest is skipped; otherwise a cache entry carrying
/// the manifest's hash skips the fetch; otherwise the file is fetched.
pub fn resolve(
    archive: Option<&ArchiveIndex>,
    manifest: &Manifest,
    cache: &Cache,
    base_key: &str,
    file: &str,
) -> (d: Decision)
    ensures
        resolve_post(
            match archive {
                Some(a) => Some(*a),
                None => None,
            },
            *manifest,
            *cache,
            base_key@,
            file@,
            d,
        ),
{
    if let Some(a) = archive {
        let crc = calculate_crc(file.as_bytes());
        if let Some(m) = a.get(crc) {
            return Decision::Archived { category: m.category, pack_file: m.pack_file };
        }
    }
    match manifest.get(file) {
        None => Decision::NotInManifest,
        Some(f) => {
            let mut raw_key = base_key.to_owned();
            raw_key.append(file);
            let cache_key = CacheKey::new(raw_key.as_str());
            let mut hit = false;
            if let Some(c) = cache.get(&cache_key) {
                if c.hash == f.hash {
                    hit = true;
                }
            }
            if hit {
                Decision::CacheHit
            } else {
                Decision::FetchNeeded {
                    url_suffix: f.to_path(),
                    cache_key,
                    size: f.filesize,
                    hash: f.hash,
                }
            }
        },
    }
}

/// Record a completed fetch: the manifest's declared size and hash — not
/// values recomputed from the fetched bytes — and the fresh modification
/// time, inserted under the file's cache key.
pub fn record_fetch(cache: &mut Cache, key: CacheKey, mtime: u64, size: u32, hash: Md5Sum)
    requires
        old(cache).wf(),
    ensures
        final(cache)@ == spec_insert(
            old(cache)@,
            key@,
            CacheEntry { mtime: Some(mtime), size, hash },
        ),
        final(cache).wf(),
{
    cache.insert(key, CacheEntry { mtime: Some(mtime), size, hash });
}

// ---------------------------------------------------------------------------
// Properties of the decision
// ---------------------------------------------------------------------------

/// Archive shadowing: when a file's checksum is present in the archive
/// index in force, the decision is `Archived`, whatever the manifest and
/// the cache hold, and the engine touches neither.
pub proof fn lemma_archive_shadowing(
    archive: ArchiveIndex,
    manifest: Manifest,
    cache: Cache,
    base_key: Seq<char>,
    file: Seq<char>,
    d: Decision,
)
    requires
        resolve_post(Some(archive), manifest, cache, base_key, file, d),
        archive.shadows(path_crc(file)),
    ensures
        d matches Decision::Archived { .. },
{
}

/// Unknown file: a file absent from the manifest (and not shadowed by an
/// archive) produces no fetch and no cache mutation; the decision is the
/// non-fatal `NotInManifest`.
pub proof fn lemma_unknown_file(
    archive: Option<ArchiveIndex>,
    manifest: Manifest,
    cache: Cache,
    base_key: Seq<char>,
    file: Seq<char>,
    d: Decision,
)
    requires
        resolve_post(archive, manifest, cache, base_key, file, d),
        !(archive matches Some(a) && a.shadows(path_crc(file))),
        spec_find(manifest.files_view(), file) is None,
    ensures
        d matches Decision::NotInManifest,
{
}

/// Idempotence of a sync run: when the cache already holds the manifest's
/// hash for a file, resolving that file never asks for a fetch, so a
/// re-run over a fully populated cache fetches nothing and leaves the
/// cache — and hence its persisted text — unchanged.
pub proof fn lemma_populated_cache_never_fetches(
    archive: Option<ArchiveIndex>,
    manifest: Manifest,
    cache: Cache,
    base_key: Seq<char>,
    file: Seq<char>,
    d: Decision,
)
    requires
        resolve_post(archive, manifest, cache, base_key, file, d),
        spec_find(manifest.files_view(), file) matches Some(f) && (spec_find(
            cache@,
            file_cache_key(base_key, file),
        ) matches Some(c) && c.hash == f.hash),
    ensures
        !(d matches Decision::FetchNeeded { .. }),
{
}

/// Staleness detection: a cache entry whose stored hash differs from the
/// manifest's hash forces exactly one fetch, and recording that fetch
/// overwrites the entry with the manifest's declared hash and size and a
/// fresh modification time.
pub proof fn lemma_stale_entry_is_fetched(
    archive: Option<ArchiveIndex>,
    manifest: Manifest,
    cache: Cache,
    base_key: Seq<char>,
    file: Seq<char>,
    d: Decision,
)
    requires
        resolve_post(archive, manifest, cache, base_key, file, d),
        !(archive matches Some(a) && a.shadows(path_crc(file))),
        spec_find(manifest.files_view(), file) matches Some(f) && (spec_find(
            cache@,
            file_cache_key(base_key, file),
        ) matches Some(c) && c.hash != f.hash),
    ensures
        d matches Decision::FetchNeeded { .. },
        d matches Decision::FetchNeeded { cache_key, size, hash, .. } ==> {
            let f = spec_find(manifest.files_view(), file).unwrap();
            cache_key@ == file_cache_key(base_key, file) && size == f.filesize && hash == f.hash
        },
{
}

/// After recording a fetch, the file's cache key maps to the freshly
/// recorded entry, and every other key maps to what it mapped to before.
pub proof fn lemma_recorded_fetch_lookup(
    s: Seq<(Seq<char>, CacheEntry)>,
    key: Seq<char>,
    mtime: u64,
    size: u32,
    hash: Md5Sum,
    q: Seq<char>,
)
    ensures
        spec_find(spec_insert(s, key, CacheEntry { mtime: Some(mtime), size, hash }), q) == if q
            == key {
            Some(CacheEntry { mtime: Some(mtime), size, hash })
        } else {
            spec_find(s, q)
        },
{
    crate::assoc::lemma_spec_find_insert(s, key, CacheEntry { mtime: Some(mtime), size, hash }, q);
}

/// The two areas never collide in the cache: with a non-empty staging
/// prefix, the same relative file path maps to different keys in the
/// staging and install areas.
pub proof fn lemma_area_keys_disjoint(prefix: Seq<char>, file: Seq<char>)
    requires
        prefix.len() > 0,
    ensures
        file_cache_key(prefix, file) != file_cache_key(Seq::<char>::empty(), file),
{
    assert(Seq::<char>::empty() + file =~= file);
    assert(file_cache_key(prefix, file).len() == prefix.len() + file.len());
    assert(file_cache_key(Seq::<char>::empty(), file).len() == file.len());
}

// ---------------------------------------------------------------------------
// Directories and key prefixes
// ---------------------------------------------------------------------------

/// The two areas a file can be materialized in.
#[derive(Debug, Clone, PartialEq, Eq)]
pub struct PatcherDirs {
    /// The final install area
    pub install: String,
    /// The download/staging area, below the install area
    pub download: String,
}

impl PatcherDirs {
    /// Compute both area directories from the working directory, the
    /// configuration and an optional explicit install directory.
    pub fn resolve(cwd: &str, cfg: &PatcherConfig, install_dir: Option<&str>) -> (r: PatcherDirs)
        ensures
            ({
                let chosen = match install_dir {
                    Some(d) => d@,
                    None => cfg.defaultinstallpath@,
                };
                &&& r.install@ == crate::util::spec_join(cwd@, chosen)
                &&& r.download@ == crate::util::spec_join(
                    r.install@,
                    cfg.downloaddirectory@,
                )
            }),
    {
        let mut install = cwd.to_owned();
        match install_dir {
            Some(d) => crate::util::join(&mut install, d),
            None => crate::util::join(&mut install, cfg.defaultinstallpath.as_str()),
        }
        let mut download = install.clone();
        crate::util::join(&mut download, cfg.downloaddirectory.as_str());
        PatcherDirs { install, download }
    }
}

/// The cache-key prefixes of the two areas.  The same relative file path
/// in the two areas must never collide in the cache, so the staging area
/// prefixes its keys with the download directory while the install area
/// uses the bare path.
#[derive(Debug, Clone, PartialEq, Eq)]
pub struct PatcherKeys {
    /// The staging-area key prefix: the download directory and a slash
    pub download: String,
    /// The install-area key prefix: empty
    pub install: String,
}

impl PatcherKeys {
    /// The key prefixes for this configuration.
    pub fn new(cfg: &PatcherConfig) -> (r: PatcherKeys)
        ensures
            r.download@ == cfg.downloaddirectory@ + "/"@,
            r.install@ == Seq::<char>::empty(),
    {
        let mut download = cfg.downloaddirectory.clone();
        download.append("/");
        PatcherKeys { download, install: String::new() }
    }
}

} // verus!
