//! The filesystem event classifier: raw watcher notifications from the
//! replay directory become the four domain events live ingestion consumes.
//! A finished replay container is recognised by its extension, with the
//! client's temporary write name excluded; the arena-metadata file by its
//! fixed name, whether freshly created or rewritten in place; the
//! preferences file by its fixed name.

use vstd::prelude::*;
use vstd::utf8::encode_utf8;

use crate::text::bytes_eq;

verus! {

/// A raw watcher notification, reduced to what classification reads. The
/// first kind covers both a file created and one renamed into place; the
/// rename-from half of a move is not modelled and arrives as `Other`.
#[derive(Debug, Clone, Copy, PartialEq, Eq, Structural)]
pub enum RawWatchKind {
    CreateOrRenameTo,
    OtherModify,
    Remove,
    Other,
}

/// A domain event of live ingestion, carrying the path it concerns.
#[derive(Debug, Clone)]
pub enum NotifyFileEvent {
    /// A finished replay container appeared.
    Added(String),
    /// A watched path went away.
    Removed(String),
    /// The client's preferences file was touched.
    PreferencesChanged,
    /// The arena-metadata file of a match in progress appeared.
    TempArenaInfoCreated(String),
}

/// The classification verdict alone, without the carried path.
#[derive(Debug, Clone, Copy, PartialEq, Eq, Structural)]
pub enum EventClass {
    AddedReplay,
    ArenaInfoCreated,
    PreferencesTouched,
    RemovedPath,
    NoEvent,
}

/// A path separator byte, either slash.
pub open spec fn is_sep(b: u8) -> bool {
    b == 47 || b == 92
}

/// Last index satisfying `pred`, or -1.
pub open spec fn last_index_where(p: Seq<u8>, pred: spec_fn(u8) -> bool) -> int
    decreases p.len(),
{
    if p.len() == 0 {
        -1
    } else if pred(p.last()) {
        p.len() - 1
    } else {
        last_index_where(p.drop_last(), pred)
    }
}

/// The index found is in range.
pub proof fn lemma_last_index_range(p: Seq<u8>, pred: spec_fn(u8) -> bool)
    ensures
        -1 <= last_index_where(p, pred) < p.len(),
    decreases p.len(),
{
    if p.len() != 0 && !pred(p.last()) {
        lemma_last_index_range(p.drop_last(), pred);
    }
}

/// A hit with nothing satisfying `pred` behind it pins the index down.
pub proof fn lemma_last_index_at(p: Seq<u8>, pred: spec_fn(u8) -> bool, k: int)
    requires
        0 <= k < p.len(),
        pred(p[k]),
        forall|j: int| k < j < p.len() ==> !pred(#[trigger] p[j]),
    ensures
        last_index_where(p, pred) == k,
    decreases p.len(),
{
    if k < p.len() - 1 {
        assert(!pred(p.last()));
        assert forall|j: int| k < j < p.drop_last().len() implies !pred(#[trigger] p.drop_last()[j]) by {
            assert(p.drop_last()[j] == p[j]);
        }
        lemma_last_index_at(p.drop_last(), pred, k);
    }
}

/// With no byte satisfying `pred`, nothing is found.
pub proof fn lemma_last_index_none(p: Seq<u8>, pred: spec_fn(u8) -> bool)
    requires
        forall|j: int| 0 <= j < p.len() ==> !pred(#[trigger] p[j]),
    ensures
        last_index_where(p, pred) == -1,
    decreases p.len(),
{
    if p.len() != 0 {
        lemma_last_index_none(p.drop_last(), pred);
    }
}

/// The file name: everything after the last separator, the whole path
/// when there is none.
pub open spec fn file_name_bytes(p: Seq<u8>) -> Seq<u8> {
    p.skip(last_index_where(p, |b: u8| is_sep(b)) + 1)
}

/// Where the extension starts within a file name: after a dot that is
/// neither the lead byte nor absent.
pub open spec fn ext_dot(name: Seq<u8>) -> int {
    last_index_where(name, |b: u8| b == 46)
}

/// The file name carries an extension.
pub open spec fn has_extension(name: Seq<u8>) -> bool {
    ext_dot(name) > 0
}

/// The extension's bytes, after the last dot.
pub open spec fn extension_bytes(name: Seq<u8>) -> Seq<u8> {
    name.skip(ext_dot(name) + 1)
}

/// The path names a finished replay container: the replay extension, and
/// not the client's temporary write name.
pub open spec fn is_replay_path(pb: Seq<u8>) -> bool {
    let name = file_name_bytes(pb);
    &&& has_extension(name)
    &&& extension_bytes(name) == encode_utf8("wowsreplay"@)
    &&& name != encode_utf8("temp.wowsreplay"@)
}

/// The path names the arena-metadata file written at match start.
pub open spec fn is_arena_info_path(pb: Seq<u8>) -> bool {
    file_name_bytes(pb) == encode_utf8("tempArenaInfo.json"@)
}

/// The path names the client's preferences file.
pub open spec fn is_preferences_path(pb: Seq<u8>) -> bool {
    file_name_bytes(pb) == encode_utf8("preferences.xml"@)
}

/// The classification table: creations and renames-into of a replay file
/// or of the arena-metadata file; modifications of the arena-metadata file
/// (the client rewrites it in place at match start) or of the preferences
/// file; removals of anything watched; everything else is dropped.
pub open spec fn spec_classify(kind: RawWatchKind, pb: Seq<u8>, is_file: bool) -> EventClass {
    match kind {
        RawWatchKind::CreateOrRenameTo => {
            if is_file && is_replay_path(pb) {
                EventClass::AddedReplay
            } else if is_file && is_arena_info_path(pb) {
                EventClass::ArenaInfoCreated
            } else {
                EventClass::NoEvent
            }
        },
        RawWatchKind::OtherModify => {
            if is_arena_info_path(pb) {
                EventClass::ArenaInfoCreated
            } else if is_preferences_path(pb) {
                EventClass::PreferencesTouched
            } else {
                EventClass::NoEvent
            }
        },
        RawWatchKind::Remove => EventClass::RemovedPath,
        RawWatchKind::Other => EventClass::NoEvent,
    }
}

/// The verdict an event carries.
pub open spec fn event_class_of(r: Option<NotifyFileEvent>) -> EventClass {
    match r {
        Some(NotifyFileEvent::Added(_)) => EventClass::AddedReplay,
        Some(NotifyFileEvent::Removed(_)) => EventClass::RemovedPath,
        Some(NotifyFileEvent::PreferencesChanged) => EventClass::PreferencesTouched,
        Some(NotifyFileEvent::TempArenaInfoCreated(_)) => EventClass::ArenaInfoCreated,
        None => EventClass::NoEvent,
    }
}

/// Index just past the last separator, or 0 when there is none.
#[verifier::loop_isolation(false)]
fn name_start(p: &[u8]) -> (r: usize)
    ensures
        r == last_index_where(p@, |b: u8| is_sep(b)) + 1,
{
    let ghost pred = |b: u8| is_sep(b);
    let n: usize = p.len();
    let mut k: usize = n;
    while k > 0
        invariant
            k <= n,
            n == p@.len(),
            forall|j: int| k <= j < n ==> !pred(#[trigger] p@[j]),
        decreases k,
    {
        k = k - 1;
        let b = p[k];
        if b == 47 || b == 92 {
            proof {
                lemma_last_index_at(p@, pred, k as int);
            }
            return k + 1;
        }
        assert(!pred(p@[k as int]));
    }
    proof {
        lemma_last_index_none(p@, pred);
    }
    0
}

/// Index just past the extension's dot, or 0 when the name carries no
/// extension.
#[verifier::loop_isolation(false)]
fn ext_start(name: &[u8]) -> (r: usize)
    ensures
        has_extension(name@) ==> r == ext_dot(name@) + 1,
        !has_extension(name@) ==> r == 0,
{
    let ghost pred = |b: u8| b == 46u8;
    let n: usize = name.len();
    let mut k: usize = n;
    while k > 0
        invariant
            k <= n,
            n == name@.len(),
            forall|j: int| k <= j < n ==> !pred(#[trigger] name@[j]),
        decreases k,
    {
        k = k - 1;
        let b = name[k];
        if b == 46 {
            proof {
                lemma_last_index_at(name@, pred, k as int);
            }
            if k > 0 {
                return k + 1;
            } else {
                return 0;
            }
        }
        assert(!pred(name@[k as int]));
    }
    proof {
        lemma_last_index_none(name@, pred);
    }
    0
}

/// Classify one raw notification; see [`spec_classify`]. The carried path
/// is handed back unchanged inside the event.
pub fn classify_event(kind: RawWatchKind, path: String, is_file: bool) -> (r: Option<NotifyFileEvent>)
    ensures
        event_class_of(r) == spec_classify(kind, encode_utf8(path@), is_file),
        match r {
            Some(NotifyFileEvent::Added(q)) => q@ == path@,
            Some(NotifyFileEvent::Removed(q)) => q@ == path@,
            Some(NotifyFileEvent::TempArenaInfoCreated(q)) => q@ == path@,
            _ => true,
        },
{
    let ghost pb = encode_utf8(path@);
    match kind {
        RawWatchKind::CreateOrRenameTo => {
            if !is_file {
                return None;
            }
            let bytes: &[u8] = path.as_str().as_bytes();
            assert(bytes@ == pb);
            let start = name_start(bytes);
            proof {
                lemma_last_index_range(pb, |b: u8| is_sep(b));
            }
            let name: &[u8] = &bytes[start..bytes.len()];
            assert(name@ == file_name_bytes(pb));
            let replay_lit: &[u8] = "wowsreplay".as_bytes();
            assert(replay_lit@ == encode_utf8("wowsreplay"@));
            let temp_lit: &[u8] = "temp.wowsreplay".as_bytes();
            assert(temp_lit@ == encode_utf8("temp.wowsreplay"@));
            let es = ext_start(name);
            let ext_matches = if es > 0 {
                proof {
                    lemma_last_index_range(name@, |b: u8| b == 46u8);
                }
                let ext: &[u8] = &name[es..name.len()];
                assert(ext@ == extension_bytes(file_name_bytes(pb)));
                bytes_eq(ext, replay_lit)
            } else {
                false
            };
            if ext_matches && !bytes_eq(name, temp_lit) {
                assert(is_replay_path(pb));
                return Some(NotifyFileEvent::Added(path));
            }
            let arena_lit: &[u8] = "tempArenaInfo.json".as_bytes();
            assert(arena_lit@ == encode_utf8("tempArenaInfo.json"@));
            if bytes_eq(name, arena_lit) {
                assert(!is_replay_path(pb));
                return Some(NotifyFileEvent::TempArenaInfoCreated(path));
            }
            assert(!is_replay_path(pb) && !is_arena_info_path(pb));
            None
        },
        RawWatchKind::OtherModify => {
            let bytes: &[u8] = path.as_str().as_bytes();
            assert(bytes@ == pb);
            let start = name_start(bytes);
            proof {
                lemma_last_index_range(pb, |b: u8| is_sep(b));
            }
            let name: &[u8] = &bytes[start..bytes.len()];
            assert(name@ == file_name_bytes(pb));
            let arena_lit: &[u8] = "tempArenaInfo.json".as_bytes();
            assert(arena_lit@ == encode_utf8("tempArenaInfo.json"@));
            if bytes_eq(name, arena_lit) {
                return Some(NotifyFileEvent::TempArenaInfoCreated(path));
            }
            let prefs_lit: &[u8] = "preferences.xml".as_bytes();
            assert(prefs_lit@ == encode_utf8("preferences.xml"@));
            if bytes_eq(name, prefs_lit) {
                Some(NotifyFileEvent::PreferencesChanged)
            } else {
                None
            }
        },
        RawWatchKind::Remove => Some(NotifyFileEvent::Removed(path)),
        RawWatchKind::Other => None,
    }
}

} // verus!
