//! The cache of ETags that lets a later run skip what has not changed.

use std::path::PathBuf;
use vstd::prelude::*;
use vstd::string::*;

use crate::args::HashMode;
use crate::outside::{path_display, path_text};
use crate::string_map::{
    keys_ascend, law_last_entry_counts, map_of, text_before, StringMap, StringSet,
};

verus! {

/// What went wrong with the cache. Every path and every reason is given as
/// the text that a user sees.
#[derive(Debug)]
pub enum CacheError {
    /// The file does not hold a cache.
    Parse { path: String, source: String },
    /// The file holds the cache of another mode.
    ModeMismatch { path: String, cached_mode: &'static str, current_mode: &'static str },
    /// The file is there and could not be read.
    Read { path: String, source: String },
    /// The cache could not be written down.
    Serialize(String),
    /// The file could not be written.
    Write { path: String, source: String },
}

impl CacheError {
    /// The message that a user sees.
    pub open spec fn spec_message(self) -> Seq<char> {
        match self {
            CacheError::Parse { path, source } => "Failed to parse ETag cache from "@ + path@ + ": "@
                + source@,
            CacheError::ModeMismatch { path, cached_mode, current_mode } => "ETag cache at "@ + path@
                + " created for mode "@ + cached_mode@ + "; current run requires "@ + current_mode@,
            CacheError::Read { path, source } => "Failed to read ETag cache from "@ + path@ + ": "@
                + source@,
            CacheError::Serialize(source) => "Failed to serialize ETag cache: "@ + source@,
            CacheError::Write { path, source } => "Failed to write ETag cache to "@ + path@ + ": "@
                + source@,
        }
    }

    /// The message that a user sees.
    pub fn message(&self) -> (message: String)
        ensures
            message@ == self.spec_message(),
    {
        match self {
            CacheError::Parse { path, source } => "Failed to parse ETag cache from ".to_owned().concat(
                path.as_str(),
            ).concat(": ").concat(source.as_str()),
            CacheError::ModeMismatch { path, cached_mode, current_mode } =>
                "ETag cache at ".to_owned().concat(path.as_str()).concat(
                " created for mode ",
            ).concat(cached_mode).concat("; current run requires ").concat(current_mode),
            CacheError::Read { path, source } => "Failed to read ETag cache from ".to_owned().concat(
                path.as_str(),
            ).concat(": ").concat(source.as_str()),
            CacheError::Serialize(source) => "Failed to serialize ETag cache: ".to_owned().concat(
                source.as_str(),
            ),
            CacheError::Write { path, source } => "Failed to write ETag cache to ".to_owned().concat(
                path.as_str(),
            ).concat(": ").concat(source.as_str()),
        }
    }
}

/// What the file of a cache holds.
#[derive(Debug)]
pub struct CacheDocument {
    /// The ETag of each range.
    pub etags: Vec<(String, String)>,
    /// The mode of the run that the ETags are from.
    pub mode: HashMode,
}

/// What came of reading the file of a cache.
#[derive(Debug)]
pub enum CacheRead {
    /// The file was read.
    Content,
    /// There is no such file.
    NotFound,
    /// The file could not be read, for the reason given.
    Failed(String),
}

/// How to go on once the file of a cache has been read.
#[derive(Debug)]
pub enum CacheLoad {
    /// Take what the file holds for a document.
    Parse,
    /// Start with this cache.
    Ready {
        cache: ETagCache,
        /// Whether there is a file that plays no part.
        ignored_file: bool,
    },
}

/// The ETags of the ranges that were downloaded.
#[derive(Debug)]
pub struct ETagCache {
    /// The ETag of each range, by the prefix of the range.
    pub etags: StringMap<String>,
    /// The mode of the run.
    pub mode: HashMode,
    /// The file of the cache.
    pub path: PathBuf,
}

/// The changes that a run makes to the cache.
#[derive(Debug)]
pub struct ETagDeltas {
    /// The ranges with a new ETag.
    pub updates: StringMap<String>,
    /// The ranges that no ETag is kept of.
    pub removals: StringSet,
}

impl Default for ETagDeltas {
    fn default() -> (deltas: Self)
        ensures
            deltas.updates@ == Map::<Seq<char>, String>::empty(),
            deltas.removals@ == Set::<Seq<char>>::empty(),
    {
        ETagDeltas { updates: StringMap::new(), removals: StringSet::new() }
    }
}

/// ETags after a change: the removals are gone, and the updates are in place.
pub open spec fn with_deltas(
    etags: Map<Seq<char>, String>,
    updates: Map<Seq<char>, String>,
    removals: Set<Seq<char>>,
) -> Map<Seq<char>, String> {
    etags.remove_keys(removals).union_prefer_right(updates)
}

/// The ETag of a range, if there is one.
pub open spec fn lookup(etags: Map<Seq<char>, String>, hash: Seq<char>) -> Option<String> {
    if etags.contains_key(hash) {
        Some(etags[hash])
    } else {
        None
    }
}

/// The ETags that a document gives a run of a mode; none to a run of another
/// mode.
pub open spec fn document_etags(document: CacheDocument, mode: HashMode) -> Option<
    Map<Seq<char>, String>,
> {
    if document.mode == mode {
        Some(map_of(document.etags@))
    } else {
        None
    }
}

/// The entries of a map in the order of their keys.
pub fn ordered_map(value: &StringMap<String>) -> (ordered: Vec<(String, String)>)
    ensures
        keys_ascend(ordered@),
        map_of(ordered@) == value@,
{
    let entries = value.entries();
    let mut ordered: Vec<(String, String)> = Vec::new();
    let mut i: usize = 0;
    while i < entries.len()
        invariant
            i <= entries@.len(),
            ordered@ == entries@.take(i as int),
        decreases entries@.len() - i,
    {
        ordered.push((entries[i].0.clone(), entries[i].1.clone()));
        i = i + 1;
        assert(entries@.take(i as int) == entries@.take(i - 1).push(entries@[i - 1]));
    }
    assert(entries@.take(i as int) == entries@);
    ordered
}

impl ETagCache {
    /// Whether this is the cache that a run without known ETags starts with.
    pub open spec fn starts_empty(self, mode: HashMode, path: PathBuf) -> bool {
        &&& self.etags@ == Map::<Seq<char>, String>::empty()
        &&& self.mode == mode
        &&& self.path == path
    }

    /// Whether a document holds what the cache holds, in the order of the
    /// ranges.
    pub open spec fn is_described_by(self, document: CacheDocument) -> bool {
        &&& keys_ascend(document.etags@)
        &&& map_of(document.etags@) == self.etags@
        &&& document.mode == self.mode
    }

    /// Decides what a run starts with, once the file of its cache was read. A
    /// run that is not incremental ignores the file; one without a file starts
    /// with no ETag.
    pub fn load(
        at: &PathBuf,
        mode: HashMode,
        incremental: bool,
        read: CacheRead,
    ) -> (result: Result<CacheLoad, CacheError>)
        ensures
            match read {
                CacheRead::Content => if incremental {
                    result matches Ok(CacheLoad::Parse)
                } else {
                    result matches Ok(CacheLoad::Ready { cache, ignored_file })
                        && cache.starts_empty(mode, *at) && ignored_file
                },
                CacheRead::NotFound => result matches Ok(CacheLoad::Ready { cache, ignored_file })
                    && cache.starts_empty(mode, *at) && !ignored_file,
                CacheRead::Failed(reason) => result matches Err(
                    CacheError::Read { path, source },
                ) && path@ == path_display(*at) && source@ == reason@,
            },
    {
        match read {
            CacheRead::Content if incremental => Ok(CacheLoad::Parse),
            CacheRead::Content => Ok(
                CacheLoad::Ready {
                    cache: ETagCache { etags: StringMap::new(), mode, path: at.clone() },
                    ignored_file: true,
                },
            ),
            CacheRead::NotFound => Ok(
                CacheLoad::Ready {
                    cache: ETagCache { etags: StringMap::new(), mode, path: at.clone() },
                    ignored_file: false,
                },
            ),
            CacheRead::Failed(source) => Err(
                CacheError::Read { path: path_text(at), source },
            ),
        }
    }

    /// The cache that the document in its file stands for. The document must
    /// be of the mode of the run.
    pub fn from_document(
        at: &PathBuf,
        mode: HashMode,
        parsed: Result<CacheDocument, String>,
    ) -> (result: Result<ETagCache, CacheError>)
        ensures
            match parsed {
                Ok(document) => match document_etags(document, mode) {
                    Some(etags) => result matches Ok(cache) && cache.etags@ == etags && cache.mode
                        == mode && cache.path == *at,
                    None => result matches Err(
                        CacheError::ModeMismatch { path, cached_mode, current_mode },
                    ) && path@ == path_display(*at) && cached_mode@ == document.mode.spec_str()
                        && current_mode@ == mode.spec_str(),
                },
                Err(reason) => result matches Err(CacheError::Parse { path, source }) && path@
                    == path_display(*at) && source@ == reason@,
            },
    {
        match parsed {
            Ok(document) => if document.mode == mode {
                Ok(
                    ETagCache {
                        etags: StringMap::from_entries(&document.etags),
                        mode,
                        path: at.clone(),
                    },
                )
            } else {
                Err(
                    CacheError::ModeMismatch {
                        path: path_text(at),
                        cached_mode: document.mode.as_str(),
                        current_mode: mode.as_str(),
                    },
                )
            },
            Err(source) => Err(CacheError::Parse { path: path_text(at), source }),
        }
    }

    /// What the file of the cache is to hold: the ETags in the order of their
    /// ranges, and the mode.
    pub fn document(&self) -> (document: CacheDocument)
        ensures
            self.is_described_by(document),
    {
        CacheDocument { etags: ordered_map(&self.etags), mode: self.mode }
    }

    /// The error of a cache that could not be written to its file, for the
    /// reason given.
    pub fn write_error(&self, reason: String) -> (error: CacheError)
        ensures
            error matches CacheError::Write { path, source } && path@ == path_display(self.path)
                && source == reason,
    {
        CacheError::Write { path: path_text(&self.path), source: reason }
    }

    /// Makes the changes of a run.
    pub fn apply_deltas(&mut self, deltas: ETagDeltas)
        ensures
            final(self).etags@ == with_deltas(
                old(self).etags@,
                deltas.updates@,
                deltas.removals@,
            ),
            final(self).mode == old(self).mode,
            final(self).path == old(self).path,
    {
        let ghost start = self.etags@;
        let removals = deltas.removals.members();
        let mut i: usize = 0;
        assert(start =~= start.remove_keys(map_of(removals@.take(0)).dom()));
        while i < removals.len()
            invariant
                i <= removals@.len(),
                self.etags@ == start.remove_keys(map_of(removals@.take(i as int)).dom()),
                self.mode == old(self).mode,
                self.path == old(self).path,
            decreases removals@.len() - i,
        {
            self.etags.remove(removals[i].0.as_str());
            i = i + 1;
            assert(removals@.take(i as int).drop_last() == removals@.take(i - 1));
            assert(self.etags@ =~= start.remove_keys(map_of(removals@.take(i as int)).dom()));
        }
        assert(removals@.take(i as int) == removals@);
        let ghost kept = self.etags@;
        let updates = deltas.updates.entries();
        let mut j: usize = 0;
        assert(kept =~= kept.union_prefer_right(map_of(updates@.take(0))));
        while j < updates.len()
            invariant
                j <= updates@.len(),
                self.etags@ == kept.union_prefer_right(map_of(updates@.take(j as int))),
                self.mode == old(self).mode,
                self.path == old(self).path,
            decreases updates@.len() - j,
        {
            self.etags.insert(updates[j].0.clone(), updates[j].1.clone());
            j = j + 1;
            assert(updates@.take(j as int).drop_last() == updates@.take(j - 1));
            assert(self.etags@ =~= kept.union_prefer_right(map_of(updates@.take(j as int))));
        }
        assert(updates@.take(j as int) == updates@);
    }
}

/// A later run of the same mode starts with the ETags that an earlier run
/// saved; a run of the other mode gets none of them.
pub proof fn law_saved_etags_load_back(cache: ETagCache, document: CacheDocument, mode: HashMode)
    requires
        cache.is_described_by(document),
    ensures
        document_etags(document, mode) == (if mode == cache.mode {
            Some(cache.etags@)
        } else {
            None
        }),
{
}

/// What a change does to each range. One with a new ETag has it; one that is only
/// to be removed has none; every other one keeps what it had.
pub proof fn law_what_deltas_do(
    etags: Map<Seq<char>, String>,
    updates: Map<Seq<char>, String>,
    removals: Set<Seq<char>>,
    hash: Seq<char>,
)
    ensures
        ({
            let after = with_deltas(etags, updates, removals);
            if updates.contains_key(hash) {
                after.contains_key(hash) && after[hash] == updates[hash]
            } else if removals.contains(hash) {
                !after.contains_key(hash)
            } else {
                after.contains_key(hash) == etags.contains_key(hash) && (etags.contains_key(hash)
                    ==> after[hash] == etags[hash])
            }
        }),
        lookup(etags, hash) is Some <==> etags.contains_key(hash),
        etags.contains_key(hash) ==> lookup(etags, hash) == Some(etags[hash]),
{
}

/// What a saved document says. It has one entry for each range in the cache, with
/// the ETag that is cached, in the order of the ranges, and the mode of the run.
pub proof fn law_document_holds_cache(cache: ETagCache, document: CacheDocument, hash: Seq<char>)
    requires
        cache.is_described_by(document),
    ensures
        document.mode == cache.mode,
        cache.etags@.contains_key(hash) <==> exists|i: int|
            0 <= i < document.etags@.len() && (#[trigger] document.etags@[i]).0@ == hash,
        forall|i: int|
            0 <= i < document.etags@.len() ==> cache.etags@[(#[trigger] document.etags@[i]).0@]
                == document.etags@[i].1,
        forall|i: int, j: int|
            0 <= i < j < document.etags@.len() ==> text_before(
                (#[trigger] document.etags@[i]).0@,
                (#[trigger] document.etags@[j]).0@,
            ),
{
    let entries = document.etags@;
    if entries.len() > 0 {
        law_last_entry_counts(entries, 0, hash);
    }
    assert forall|i: int| 0 <= i < entries.len() implies cache.etags@[(#[trigger] entries[i]).0@]
        == entries[i].1 by {
        law_last_entry_counts(entries, i, hash);
    }
}

/// What a run gets from a document. One of the mode of the document gets the last
/// ETag that is given for each range, and nothing else; one of the other mode gets
/// nothing. A run without known ETags starts with none.
pub proof fn law_what_a_document_gives(
    document: CacheDocument,
    mode: HashMode,
    hash: Seq<char>,
    cache: ETagCache,
    path: PathBuf,
)
    ensures
        document_etags(document, mode) is Some <==> document.mode == mode,
        document_etags(document, mode) matches Some(etags) ==> {
            &&& etags.contains_key(hash) <==> exists|i: int|
                0 <= i < document.etags@.len() && (#[trigger] document.etags@[i]).0@ == hash
            &&& forall|i: int|
                0 <= i < document.etags@.len() && (#[trigger] document.etags@[i]).0@ == hash && (
                forall|j: int|
                    i < j < document.etags@.len() ==> (#[trigger] document.etags@[j]).0@ != hash)
                    ==> etags[hash] == document.etags@[i].1
        },
        cache.starts_empty(mode, path) ==> !cache.etags@.contains_key(hash) && cache.mode == mode
            && cache.path == path,
{
    let entries = document.etags@;
    if entries.len() > 0 {
        law_last_entry_counts(entries, 0, hash);
    }
    if document.mode == mode {
        let etags = map_of(entries);
        assert forall|i: int|
            0 <= i < entries.len() && (#[trigger] entries[i]).0@ == hash && (forall|j: int|
                i < j < entries.len() ==> (#[trigger] entries[j]).0@ != hash) implies etags[hash]
            == entries[i].1 by {
            law_last_entry_counts(entries, i, hash);
        }
    }
}

/// What a user reads of each error with the cache: which file it is about, and
/// what went wrong.
pub proof fn law_cache_errors_tell_reason(error: CacheError)
    ensures
        match error {
            CacheError::Parse { path, source } => error.spec_message()
                == "Failed to parse ETag cache from "@ + path@ + ": "@ + source@,
            CacheError::ModeMismatch { path, cached_mode, current_mode } => error.spec_message()
                == "ETag cache at "@ + path@ + " created for mode "@ + cached_mode@
                + "; current run requires "@ + current_mode@,
            CacheError::Read { path, source } => error.spec_message()
                == "Failed to read ETag cache from "@ + path@ + ": "@ + source@,
            CacheError::Serialize(source) => error.spec_message()
                == "Failed to serialize ETag cache: "@ + source@,
            CacheError::Write { path, source } => error.spec_message()
                == "Failed to write ETag cache to "@ + path@ + ": "@ + source@,
        },
{
}

}
