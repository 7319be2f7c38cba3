use std::path::PathBuf;

use pwned_passwords_downloader_rs::args::HashMode;
use pwned_passwords_downloader_rs::etag::{
    ordered_map, CacheDocument, CacheError, CacheLoad, CacheRead, ETagCache, ETagDeltas,
};
use pwned_passwords_downloader_rs::string_map::StringMap;

const PATH: &str = "out/.etag_cache.json";

/// Loads a cache from a file that holds a document.
fn load(
    document: CacheDocument,
    mode: HashMode,
    incremental: bool,
) -> Result<ETagCache, CacheError> {
    let path = PathBuf::from(PATH);
    match ETagCache::load(&path, mode, incremental, CacheRead::Content)? {
        CacheLoad::Parse => ETagCache::from_document(&path, mode, Ok(document)),
        CacheLoad::Ready {
            cache,
            ignored_file,
        } => {
            assert!(ignored_file);
            Ok(cache)
        }
    }
}

fn document(mode: HashMode) -> CacheDocument {
    CacheDocument {
        etags: vec![("ABCDE".to_string(), "\"etag\"".to_string())],
        mode,
    }
}

#[test]
fn load_accepts_matching_mode() {
    let cache = match load(document(HashMode::Ntlm), HashMode::Ntlm, true) {
        Ok(cache) => cache,
        Err(error) => panic!("{}", error.message()),
    };
    assert_eq!(cache.mode, HashMode::Ntlm);
    assert_eq!(
        cache.etags.get("ABCDE").map(String::as_str),
        Some("\"etag\"")
    );
    assert_eq!(cache.path, PathBuf::from(PATH));
}

#[test]
fn load_rejects_mode_mismatch() {
    match load(document(HashMode::Sha1), HashMode::Ntlm, true) {
        Err(CacheError::ModeMismatch {
            cached_mode,
            current_mode,
            ..
        }) => {
            assert_eq!(cached_mode, "sha1");
            assert_eq!(current_mode, "ntlm");
        }
        _ => panic!("Expected ModeMismatch error"),
    }
}

#[test]
fn load_ignores_mode_mismatch() {
    let cache = match load(document(HashMode::Sha1), HashMode::Ntlm, false) {
        Ok(cache) => cache,
        Err(error) => panic!("{}", error.message()),
    };
    assert_eq!(cache.mode, HashMode::Ntlm);
    assert!(cache.etags.is_empty());
}

#[test]
fn load_starts_empty_without_a_file() {
    let path = PathBuf::from(PATH);
    for incremental in [true, false] {
        match ETagCache::load(&path, HashMode::Sha1, incremental, CacheRead::NotFound) {
            Ok(CacheLoad::Ready {
                cache,
                ignored_file,
            }) => {
                assert!(!ignored_file);
                assert!(cache.etags.is_empty());
                assert_eq!(cache.path, path);
            }
            _ => panic!("Expected an empty cache"),
        }
    }
}

#[test]
fn load_reports_what_cannot_be_read() {
    let path = PathBuf::from(PATH);
    let read = CacheRead::Failed("denied".to_string());
    match ETagCache::load(&path, HashMode::Sha1, false, read) {
        Err(error) => {
            assert!(matches!(error, CacheError::Read { .. }));
            assert_eq!(
                error.message(),
                "Failed to read ETag cache from out/.etag_cache.json: denied"
            );
        }
        Ok(_) => panic!("Expected Read error"),
    }
    match ETagCache::from_document(&path, HashMode::Sha1, Err("bad json".to_string())) {
        Err(error) => {
            assert!(matches!(error, CacheError::Parse { .. }));
            assert_eq!(
                error.message(),
                "Failed to parse ETag cache from out/.etag_cache.json: bad json"
            );
        }
        Ok(_) => panic!("Expected Parse error"),
    }
}

#[test]
fn cache_errors_have_messages() {
    let mismatch = CacheError::ModeMismatch {
        path: PATH.to_string(),
        cached_mode: "sha1",
        current_mode: "ntlm",
    };
    assert_eq!(
        mismatch.message(),
        "ETag cache at out/.etag_cache.json created for mode sha1; current run requires ntlm"
    );
    assert_eq!(
        CacheError::Serialize("nan".to_string()).message(),
        "Failed to serialize ETag cache: nan"
    );
    let write = cache_of(&[]).write_error("full".to_string());
    assert!(matches!(write, CacheError::Write { .. }));
    assert_eq!(
        write.message(),
        "Failed to write ETag cache to out/.etag_cache.json: full"
    );
}

fn cache_of(entries: &[(&str, &str)]) -> ETagCache {
    let mut etags = StringMap::new();
    for (hash, etag) in entries {
        etags.insert(hash.to_string(), etag.to_string());
    }
    ETagCache {
        etags,
        mode: HashMode::Sha1,
        path: PathBuf::from(PATH),
    }
}

#[test]
fn saved_cache_loads_back() {
    let cache = cache_of(&[("FFFFF", "f"), ("00000", "0"), ("ABCDE", "a")]);
    let document = cache.document();
    let hashes: Vec<&str> = document.etags.iter().map(|(h, _)| h.as_str()).collect();
    assert_eq!(hashes, ["00000", "ABCDE", "FFFFF"]);
    assert_eq!(ordered_map(&cache.etags), document.etags);

    match load(document, HashMode::Sha1, true) {
        Ok(loaded) => assert_eq!(loaded.etags.entries(), cache.etags.entries()),
        Err(error) => panic!("{}", error.message()),
    }
}

#[test]
fn deltas_change_the_cache() {
    let mut cache = cache_of(&[("00000", "0"), ("00001", "1"), ("00002", "2")]);
    let mut deltas = ETagDeltas::default();
    assert!(deltas.updates.is_empty());
    assert!(deltas.removals.is_empty());
    deltas.updates.insert("00001".to_string(), "new".to_string());
    deltas.updates.insert("00003".to_string(), "3".to_string());
    deltas.removals.insert("00002".to_string());
    deltas.removals.insert("00009".to_string());
    cache.apply_deltas(deltas);
    let entries: Vec<(&str, &str)> = cache
        .etags
        .entries()
        .iter()
        .map(|(h, e)| (h.as_str(), e.as_str()))
        .collect();
    assert_eq!(entries, [("00000", "0"), ("00001", "new"), ("00003", "3")]);
}
