//! The library's border with outside crates: the clock, the client's
//! timestamp format, and the arena-metadata decoder. Each function here is
//! trusted — Verus believes its contract without reading its body — so the
//! bodies hold one outside call and plain conversions, nothing else.

use vstd::prelude::*;

use crate::player_tracker::LivePlayer;

verus! {

/// Relies on `chrono::NaiveDateTime::parse_from_str` with the client's
/// day-first dotted format, and `chrono::TimeZone::from_local_datetime` on
/// the local zone: the instant in epoch seconds, or `None` when the text
/// does not parse or the local offset leaves it unrepresentable. The
/// result depends on the machine's time zone, so nothing more is promised.
#[verifier::external_body]
pub(crate) fn parse_replay_instant(s: &str) -> Option<i64> {
    let naive = chrono::NaiveDateTime::parse_from_str(s, "%d.%m.%Y %H:%M:%S").ok()?;
    let local = chrono::TimeZone::from_local_datetime(&chrono::Local, &naive).single()?;
    Some(local.timestamp())
}

/// Relies on `std::time::SystemTime::duration_since`: the current instant
/// in epoch seconds, which no zone affects. A clock set before the epoch
/// gives the negated offset rather than a panic; an offset beyond the
/// representable range saturates. A clock reading promises nothing
/// checkable, so nothing is stated.
#[verifier::external_body]
pub(crate) fn now_epoch_secs() -> i64 {
    match std::time::SystemTime::now().duration_since(std::time::UNIX_EPOCH) {
        Ok(since) => i64::try_from(since.as_secs()).unwrap_or(i64::MAX),
        Err(before) => i64::try_from(before.duration().as_secs()).map_or(i64::MIN, |s| -s),
    }
}

/// What the arena-metadata decoder yields on a given blob. The decode — a
/// UTF-8 check and a JSON parse — is a function of the bytes alone, so its
/// result carries a name; the wrapper below ties each call to it.
pub uninterp spec fn spec_arena_roster(meta: Seq<u8>) -> Option<Seq<LivePlayer>>;

/// Relies on `wows_replays::ReplayFile::from_decrypted_parts`: decodes an
/// arena-metadata blob with an empty packet stream; on success, each
/// roster entry's player id, display name and team relation, in file
/// order. `None` on any decode failure. The call returns
/// [`spec_arena_roster`] of the blob.
#[verifier::external_body]
pub(crate) fn decode_arena_roster(meta: Vec<u8>) -> (r: Option<Vec<LivePlayer>>)
    ensures
        match r {
            Option::Some(v) => spec_arena_roster(meta@) == Some(v@),
            Option::None => spec_arena_roster(meta@) is None,
        },
{
    let replay_file = match wows_replays::ReplayFile::from_decrypted_parts(meta, Vec::new()) {
        Ok(replay_file) => replay_file,
        Err(_) => return None,
    };
    Some(
        replay_file.meta.vehicles.into_iter().map(
            |v| LivePlayer { db_id: v.id.raw(), name: v.name, relation: v.relation },
        ).collect(),
    )
}

} // verus!
