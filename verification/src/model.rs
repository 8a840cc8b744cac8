//! Mathematical model of the player index: ghost mirrors of the tracked
//! state and the merge rules stated over them. The executable tracker in
//! [`crate::player_tracker`] promises, for each mutation, that its new view
//! equals the corresponding function here; the laws of the index are proved
//! about these functions.

use vstd::prelude::*;

verus! {

/// Ghost mirror of one tracked player.
#[verifier::ext_equal]
pub struct PlayerModel {
    /// Stable numeric identity, the primary key.
    pub db_id: i64,
    /// Most recently observed display name.
    pub last_name: Seq<char>,
    /// Previously observed display names; excludes `last_name`.
    pub names: Seq<Seq<char>>,
    pub clan_id: i64,
    pub clan: Seq<char>,
    /// Match instants (local seconds), strictly increasing.
    pub timestamps: Seq<i64>,
    /// Identifiers of counted matches, strictly increasing.
    pub arena_ids: Seq<i64>,
    /// Free-form user text; never touched by ingestion.
    pub notes: Seq<char>,
}

/// Ghost mirror of one time bucket: the players observed at one instant, in
/// encounter order.
#[verifier::ext_equal]
pub struct BucketModel {
    pub timestamp: i64,
    pub ids: Seq<i64>,
}

/// Ghost mirror of the whole index.
#[verifier::ext_equal]
pub struct TrackerModel {
    /// One entry per tracked player, in first-encounter order; ids unique.
    pub players: Seq<PlayerModel>,
    /// Buckets in strictly increasing timestamp order.
    pub by_time: Seq<BucketModel>,
}

// ---------------------------------------------------------------------------
// ordered-sequence helpers
// ---------------------------------------------------------------------------

/// Strictly increasing: the sequence carries a set, in order, without
/// duplicates.
pub open spec fn sorted_strict(s: Seq<i64>) -> bool {
    forall|i: int, j: int| 0 <= i < j < s.len() ==> s[i] < s[j]
}

/// Insert `x` into an ordered sequence, keeping order and dropping the
/// insertion when `x` is already present.
pub open spec fn sorted_insert(s: Seq<i64>, x: i64) -> Seq<i64>
    decreases s.len(),
{
    if s.len() == 0 {
        seq![x]
    } else if x < s[0] {
        seq![x] + s
    } else if x == s[0] {
        s
    } else {
        seq![s[0]] + sorted_insert(s.drop_first(), x)
    }
}

/// What [`sorted_insert`] does: order kept, membership extended by `x`, a
/// present `x` inserted without effect.
pub proof fn lemma_sorted_insert_props(s: Seq<i64>, x: i64)
    requires
        sorted_strict(s),
    ensures
        sorted_strict(sorted_insert(s, x)),
        forall|y: i64| sorted_insert(s, x).contains(y) <==> (y == x || s.contains(y)),
        s.contains(x) ==> sorted_insert(s, x) == s,
        sorted_insert(s, x).len() >= 1,
        sorted_insert(s, x).len() <= s.len() + 1,
        sorted_insert(s, x).contains(x),
    decreases s.len(),
{
    if s.len() == 0 {
        assert forall|y: i64| sorted_insert(s, x).contains(y) implies (y == x || s.contains(y)) by {}
        assert(sorted_insert(s, x).contains(x)) by {
            assert(sorted_insert(s, x)[0] == x);
        }
    } else if x < s[0] {
        let r = seq![x] + s;
        assert forall|y: i64| r.contains(y) implies (y == x || s.contains(y)) by {
            let i = choose|i: int| 0 <= i < r.len() && r[i] == y;
            if i > 0 {
                assert(s[i - 1] == y);
            }
        }
        assert forall|y: i64| (y == x || s.contains(y)) implies r.contains(y) by {
            if y == x {
                assert(r[0] == y);
            } else {
                let i = choose|i: int| 0 <= i < s.len() && s[i] == y;
                assert(r[i + 1] == y);
            }
        }
        assert(r[0] == x);
    } else if x == s[0] {
        assert(s[0] == x);
    } else {
        let t = s.drop_first();
        assert(sorted_strict(t));
        lemma_sorted_insert_props(t, x);
        let rt = sorted_insert(t, x);
        let r = seq![s[0]] + rt;
        // order: s[0] is below everything in rt
        assert forall|i: int, j: int| 0 <= i < j < r.len() implies r[i] < r[j] by {
            if i == 0 {
                let z = r[j];
                assert(rt[j - 1] == z);
                assert(rt.contains(z));
                if z == x {
                } else {
                    assert(t.contains(z));
                    let k = choose|k: int| 0 <= k < t.len() && t[k] == z;
                    assert(s[k + 1] == z);
                }
            } else {
                assert(rt[i - 1] < rt[j - 1]);
            }
        }
        assert forall|y: i64| r.contains(y) implies (y == x || s.contains(y)) by {
            let i = choose|i: int| 0 <= i < r.len() && r[i] == y;
            if i == 0 {
                assert(s[0] == y);
            } else {
                assert(rt.contains(y));
                if y != x {
                    assert(t.contains(y));
                    let k = choose|k: int| 0 <= k < t.len() && t[k] == y;
                    assert(s[k + 1] == y);
                }
            }
        }
        assert forall|y: i64| (y == x || s.contains(y)) implies r.contains(y) by {
            if y == x {
                assert(rt.contains(x));
                let k = choose|k: int| 0 <= k < rt.len() && rt[k] == x;
                assert(r[k + 1] == x);
            } else {
                let i = choose|i: int| 0 <= i < s.len() && s[i] == y;
                if i == 0 {
                    assert(r[0] == y);
                } else {
                    assert(t[i - 1] == y);
                    assert(t.contains(y));
                    assert(rt.contains(y));
                    let k = choose|k: int| 0 <= k < rt.len() && rt[k] == y;
                    assert(r[k + 1] == y);
                }
            }
        }
        if s.contains(x) {
            let i = choose|i: int| 0 <= i < s.len() && s[i] == x;
            assert(i > 0);
            assert(t[i - 1] == x);
            assert(t.contains(x));
            assert(r =~= s) by {
                assert(rt == t);
            }
        }
        assert(rt.contains(x));
        let k = choose|k: int| 0 <= k < rt.len() && rt[k] == x;
        assert(r[k + 1] == x);
    }
}

/// Each entry below its successor reaches any later entry: adjacency gives
/// the whole strict order.
pub proof fn lemma_adjacent_sorted(s: Seq<i64>)
    requires
        forall|k: int| 0 <= k < s.len() - 1 ==> #[trigger] s[k] < s[k + 1],
    ensures
        sorted_strict(s),
{
    assert forall|i: int, j: int| 0 <= i < j < s.len() implies s[i] < s[j] by {
        lemma_chain_lt(s, i, j);
    }
}

/// Walk the adjacency chain from `i` up to `j`.
proof fn lemma_chain_lt(s: Seq<i64>, i: int, j: int)
    requires
        forall|k: int| 0 <= k < s.len() - 1 ==> #[trigger] s[k] < s[k + 1],
        0 <= i < j < s.len(),
    ensures
        s[i] < s[j],
    decreases j - i,
{
    if i + 1 == j {
        assert(s[i] < s[i + 1]);
    } else {
        lemma_chain_lt(s, i, j - 1);
        assert(s[j - 1] < s[j]);
    }
}

/// Count of entries strictly after `start`.
pub open spec fn count_after(s: Seq<i64>, start: i64) -> nat
    decreases s.len(),
{
    if s.len() == 0 {
        0
    } else {
        count_after(s.drop_last(), start) + if s.last() > start {
            1nat
        } else {
            0nat
        }
    }
}

/// Widening the window can only gain encounters: an earlier start counts at
/// least as many entries.
pub proof fn lemma_count_after_monotone(s: Seq<i64>, s1: i64, s2: i64)
    requires
        s1 <= s2,
    ensures
        count_after(s, s1) >= count_after(s, s2),
    decreases s.len(),
{
    if s.len() != 0 {
        lemma_count_after_monotone(s.drop_last(), s1, s2);
    }
}

// ---------------------------------------------------------------------------
// lookup helpers
// ---------------------------------------------------------------------------

/// Index of the first player with this id, or -1.
pub open spec fn find_index_by_id(s: Seq<PlayerModel>, id: i64) -> int
    decreases s.len(),
{
    if s.len() == 0 {
        -1
    } else if s[0].db_id == id {
        0
    } else {
        let r = find_index_by_id(s.drop_first(), id);
        if r < 0 {
            -1
        } else {
            r + 1
        }
    }
}

/// What [`find_index_by_id`] finds: the first index carrying `id`, and -1
/// exactly when no index does.
pub proof fn lemma_find_index_by_id(s: Seq<PlayerModel>, id: i64)
    ensures
        -1 <= find_index_by_id(s, id) < s.len(),
        find_index_by_id(s, id) == -1 <==> (forall|i: int|
            0 <= i < s.len() ==> s[i].db_id != id),
        find_index_by_id(s, id) >= 0 ==> s[find_index_by_id(s, id)].db_id == id,
        find_index_by_id(s, id) >= 0 ==> (forall|i: int|
            0 <= i < find_index_by_id(s, id) ==> s[i].db_id != id),
    decreases s.len(),
{
    if s.len() != 0 && s[0].db_id != id {
        lemma_find_index_by_id(s.drop_first(), id);
        let t = s.drop_first();
        let r = find_index_by_id(t, id);
        if r == -1 {
            assert forall|i: int| 0 <= i < s.len() implies s[i].db_id != id by {
                if i > 0 {
                    assert(t[i - 1].db_id != id);
                }
            }
        } else {
            assert(s[r + 1].db_id == id);
            assert forall|i: int| 0 <= i < r + 1 implies s[i].db_id != id by {
                if i > 0 {
                    assert(t[i - 1].db_id != id);
                }
            }
        }
    }
}

/// A prefix without `id` followed by a hit pins the find down.
pub proof fn lemma_find_index_by_id_at(s: Seq<PlayerModel>, id: i64, k: int)
    requires
        0 <= k < s.len(),
        s[k].db_id == id,
        forall|i: int| 0 <= i < k ==> s[i].db_id != id,
    ensures
        find_index_by_id(s, id) == k,
    decreases k,
{
    if k > 0 {
        lemma_find_index_by_id_at(s.drop_first(), id, k - 1);
    }
}

/// The find depends only on the ids: sequences with pointwise equal ids
/// find alike.
pub proof fn lemma_find_index_same_ids(s1: Seq<PlayerModel>, s2: Seq<PlayerModel>, id: i64)
    requires
        s1.len() == s2.len(),
        forall|i: int| 0 <= i < s1.len() ==> s1[i].db_id == s2[i].db_id,
    ensures
        find_index_by_id(s1, id) == find_index_by_id(s2, id),
    decreases s1.len(),
{
    if s1.len() != 0 {
        assert(s1[0].db_id == s2[0].db_id);
        assert forall|i: int| 0 <= i < s1.drop_first().len() implies s1.drop_first()[i].db_id
            == s2.drop_first()[i].db_id by {
            assert(s1[i + 1].db_id == s2[i + 1].db_id);
        }
        lemma_find_index_same_ids(s1.drop_first(), s2.drop_first(), id);
    }
}

/// Appending an entry leaves earlier finds alone and makes an absent id
/// findable at the end exactly when the entry carries it.
pub proof fn lemma_find_index_push(s: Seq<PlayerModel>, u: PlayerModel, id: i64)
    ensures
        find_index_by_id(s, id) >= 0 ==> find_index_by_id(s.push(u), id) == find_index_by_id(
            s,
            id,
        ),
        find_index_by_id(s, id) == -1 && u.db_id == id ==> find_index_by_id(s.push(u), id)
            == s.len(),
        find_index_by_id(s, id) == -1 && u.db_id != id ==> find_index_by_id(s.push(u), id) == -1,
    decreases s.len(),
{
    lemma_find_index_by_id(s, id);
    lemma_find_index_by_id(s.push(u), id);
    if s.len() == 0 {
        assert(s.push(u)[0] == u);
        if u.db_id == id {
            lemma_find_index_by_id_at(s.push(u), id, 0);
        }
    } else {
        assert(s.push(u)[0] == s[0]);
        assert(s.push(u).drop_first() =~= s.drop_first().push(u));
        lemma_find_index_push(s.drop_first(), u, id);
    }
}

/// Replacing an entry with one carrying the same id leaves every find
/// alone.
pub proof fn lemma_find_index_update_same_id(s: Seq<PlayerModel>, k: int, u: PlayerModel, id: i64)
    requires
        0 <= k < s.len(),
        u.db_id == s[k].db_id,
    ensures
        find_index_by_id(s.update(k, u), id) == find_index_by_id(s, id),
{
    assert forall|i: int| 0 <= i < s.len() implies s.update(k, u)[i].db_id == s[i].db_id by {}
    lemma_find_index_same_ids(s.update(k, u), s, id);
}

/// Index of the bucket at this instant, or -1.
pub open spec fn find_bucket(s: Seq<BucketModel>, ts: i64) -> int
    decreases s.len(),
{
    if s.len() == 0 {
        -1
    } else if s[0].timestamp == ts {
        0
    } else {
        let r = find_bucket(s.drop_first(), ts);
        if r < 0 {
            -1
        } else {
            r + 1
        }
    }
}

// ---------------------------------------------------------------------------
// player-level merge rules
// ---------------------------------------------------------------------------

/// A player entry as it is first created, before any observation lands.
pub open spec fn fresh_player_model(id: i64) -> PlayerModel {
    PlayerModel {
        db_id: id,
        last_name: Seq::empty(),
        names: Seq::empty(),
        clan_id: 0,
        clan: Seq::empty(),
        timestamps: Seq::empty(),
        arena_ids: Seq::empty(),
        notes: Seq::empty(),
    }
}

/// The identity refresh applies when this observation is newer than every
/// prior one (or there is no prior one).
pub open spec fn should_refresh(p: PlayerModel, ts: i64) -> bool {
    forall|i: int| 0 <= i < p.timestamps.len() ==> p.timestamps[i] < ts
}

/// Remove the first occurrence of `v`.
pub open spec fn seq_remove_value(s: Seq<Seq<char>>, v: Seq<char>) -> Seq<Seq<char>>
    decreases s.len(),
{
    if s.len() == 0 {
        s
    } else if s[0] == v {
        s.drop_first()
    } else {
        seq![s[0]] + seq_remove_value(s.drop_first(), v)
    }
}

/// What [`seq_remove_value`] leaves behind: everything but (one occurrence
/// of) `v`.
pub proof fn lemma_seq_remove_value_props(s: Seq<Seq<char>>, v: Seq<char>)
    requires
        forall|i: int, j: int| 0 <= i < j < s.len() ==> s[i] != s[j],
    ensures
        forall|y: Seq<char>|
            #[trigger] seq_remove_value(s, v).contains(y) <==> (y != v && s.contains(y)),
        forall|i: int, j: int|
            0 <= i < j < seq_remove_value(s, v).len() ==> seq_remove_value(s, v)[i]
                != seq_remove_value(s, v)[j],
        !s.contains(v) ==> seq_remove_value(s, v) == s,
    decreases s.len(),
{
    let r = seq_remove_value(s, v);
    if s.len() == 0 {
        assert forall|y: Seq<char>| #[trigger] r.contains(y) implies (y != v && s.contains(y)) by {}
    } else if s[0] == v {
        let t = s.drop_first();
        assert forall|y: Seq<char>| #[trigger] r.contains(y) implies (y != v && s.contains(y)) by {
            let i = choose|i: int| 0 <= i < t.len() && t[i] == y;
            assert(s[i + 1] == y);
            assert(s[0] != s[i + 1]);
        }
        assert forall|y: Seq<char>| y != v && s.contains(y) implies r.contains(y) by {
            let i = choose|i: int| 0 <= i < s.len() && s[i] == y;
            assert(i > 0);
            assert(t[i - 1] == y);
        }
    } else {
        let t = s.drop_first();
        assert(forall|i: int, j: int| 0 <= i < j < t.len() ==> t[i] != t[j]);
        lemma_seq_remove_value_props(t, v);
        let rt = seq_remove_value(t, v);
        assert forall|y: Seq<char>| #[trigger] r.contains(y) implies (y != v && s.contains(y)) by {
            let i = choose|i: int| 0 <= i < r.len() && r[i] == y;
            if i == 0 {
                assert(s[0] == y);
            } else {
                assert(rt[i - 1] == y);
                assert(rt.contains(y));
                assert(t.contains(y));
                let k = choose|k: int| 0 <= k < t.len() && t[k] == y;
                assert(s[k + 1] == y);
            }
        }
        assert forall|y: Seq<char>| y != v && s.contains(y) implies r.contains(y) by {
            let i = choose|i: int| 0 <= i < s.len() && s[i] == y;
            if i == 0 {
                assert(r[0] == y);
            } else {
                assert(t[i - 1] == y);
                assert(t.contains(y));
                assert(rt.contains(y));
                let k = choose|k: int| 0 <= k < rt.len() && rt[k] == y;
                assert(r[k + 1] == y);
            }
        }
        assert forall|i: int, j: int| 0 <= i < j < r.len() implies r[i] != r[j] by {
            if i == 0 {
                assert(rt[j - 1] == r[j]);
                assert(rt.contains(r[j]));
                assert(t.contains(r[j]));
                let k = choose|k: int| 0 <= k < t.len() && t[k] == r[j];
                assert(s[0] != s[k + 1]);
            } else {
                assert(rt[i - 1] != rt[j - 1]);
            }
        }
        if !s.contains(v) {
            assert(!t.contains(v)) by {
                if t.contains(v) {
                    let k = choose|k: int| 0 <= k < t.len() && t[k] == v;
                    assert(s[k + 1] == v);
                }
            }
            assert(r =~= s);
        }
    }
}

/// Steps 3 and 4 of the merge: refresh the display identity when the
/// observation is the newest one. The superseded name moves into the alias
/// set when it differs, is non-empty and was not recorded yet; the incoming
/// name leaves the alias set, which never carries the current name.
pub open spec fn refresh_identity(p: PlayerModel, name: Seq<char>, clan: Seq<char>, ts: i64) -> PlayerModel {
    if should_refresh(p, ts) {
        let pushed = if p.last_name != name && p.last_name.len() > 0 && !p.names.contains(p.last_name) {
            p.names.push(p.last_name)
        } else {
            p.names
        };
        PlayerModel { last_name: name, clan: clan, names: seq_remove_value(pushed, name), ..p }
    } else {
        p
    }
}

/// One player folded into the index from a finished match: skip the local
/// player; skip a match already counted for this player; otherwise refresh
/// the identity, record instant and match, and append the player to the
/// instant's bucket.
pub open spec fn merge_match_player(m: TrackerModel, arena_id: i64, ts: i64, p: crate::player_tracker::ReplayPlayer) -> TrackerModel {
    if p.relation == 0 {
        m
    } else {
        let idx = find_index_by_id(m.players, p.db_id);
        if idx >= 0 && m.players[idx].arena_ids.contains(arena_id) {
            m
        } else {
            let base = if idx >= 0 {
                m.players[idx]
            } else {
                fresh_player_model(p.db_id)
            };
            let refreshed = refresh_identity(base, p.name@, p.clan@, ts);
            let updated = PlayerModel {
                clan_id: p.clan_id,
                timestamps: sorted_insert(refreshed.timestamps, ts),
                arena_ids: sorted_insert(refreshed.arena_ids, arena_id),
                ..refreshed
            };
            let players2 = if idx >= 0 {
                m.players.update(idx, updated)
            } else {
                m.players.push(updated)
            };
            TrackerModel { players: players2, by_time: bucket_append(m.by_time, ts, p.db_id) }
        }
    }
}

/// Append `id` to the bucket at `ts`, creating the bucket in order when
/// absent.
pub open spec fn bucket_append(bt: Seq<BucketModel>, ts: i64, id: i64) -> Seq<BucketModel>
    decreases bt.len(),
{
    if bt.len() == 0 {
        seq![BucketModel { timestamp: ts, ids: seq![id] }]
    } else if ts < bt[0].timestamp {
        seq![BucketModel { timestamp: ts, ids: seq![id] }] + bt
    } else if ts == bt[0].timestamp {
        seq![BucketModel { timestamp: ts, ids: bt[0].ids.push(id) }] + bt.drop_first()
    } else {
        seq![bt[0]] + bucket_append(bt.drop_first(), ts, id)
    }
}

/// A whole match folded in: its players in roster order.
pub open spec fn merge_match_model(m: TrackerModel, arena_id: i64, ts: i64, ps: Seq<crate::player_tracker::ReplayPlayer>) -> TrackerModel
    decreases ps.len(),
{
    if ps.len() == 0 {
        m
    } else {
        merge_match_model(merge_match_player(m, arena_id, ts, ps[0]), arena_id, ts, ps.drop_first())
    }
}

/// One roster entry folded in at match start: no match id and no bucket, the
/// identity refresh and the instant only.
pub open spec fn merge_roster_player(m: TrackerModel, now: i64, p: crate::player_tracker::LivePlayer) -> TrackerModel {
    if p.relation == 0 {
        m
    } else {
        let idx = find_index_by_id(m.players, p.db_id);
        let base = if idx >= 0 {
            m.players[idx]
        } else {
            fresh_player_model(p.db_id)
        };
        let refreshed = refresh_identity(base, p.name@, base.clan, now);
        let updated = PlayerModel { timestamps: sorted_insert(refreshed.timestamps, now), ..refreshed };
        let players2 = if idx >= 0 {
            m.players.update(idx, updated)
        } else {
            m.players.push(updated)
        };
        TrackerModel { players: players2, by_time: m.by_time }
    }
}

/// A whole arena roster folded in at match start.
pub open spec fn merge_roster_model(m: TrackerModel, now: i64, ps: Seq<crate::player_tracker::LivePlayer>) -> TrackerModel
    decreases ps.len(),
{
    if ps.len() == 0 {
        m
    } else {
        merge_roster_model(merge_roster_player(m, now, ps[0]), now, ps.drop_first())
    }
}

// ---------------------------------------------------------------------------
// well-formedness
// ---------------------------------------------------------------------------

impl PlayerModel {
    /// What every entry keeps even before its first observation lands:
    /// ordered duplicate-free instants and match ids, duplicate-free
    /// aliases, and the current name outside the alias set.
    pub open spec fn wf_base(self) -> bool {
        &&& sorted_strict(self.timestamps)
        &&& sorted_strict(self.arena_ids)
        &&& forall|i: int, j: int| 0 <= i < j < self.names.len() ==> self.names[i] != self.names[j]
        &&& forall|i: int| 0 <= i < self.names.len() ==> self.names[i] != self.last_name
    }

    /// Every tracked player keeps [`PlayerModel::wf_base`] and, once it
    /// exists, at least one encounter instant.
    pub open spec fn wf(self) -> bool {
        &&& self.wf_base()
        &&& self.timestamps.len() >= 1
    }

    /// The most recent encounter instant.
    pub open spec fn newest_encounter(self) -> i64
        recommends
            self.timestamps.len() >= 1,
    {
        self.timestamps.last()
    }

    /// Total number of counted matches.
    pub open spec fn total_encounters(self) -> nat {
        self.arena_ids.len()
    }

    /// Encounters strictly after `start`.
    pub open spec fn encounters_after(self, start: i64) -> nat {
        count_after(self.timestamps, start)
    }

    /// Encounters within the window, the whole history when none is set.
    pub open spec fn encounters_in_window(self, window_start: Option<i64>) -> nat {
        match window_start {
            Some(start) => self.encounters_after(start),
            None => self.total_encounters(),
        }
    }
}

impl TrackerModel {
    /// Ids of the tracked players, in entry order.
    pub open spec fn ids(self) -> Seq<i64> {
        self.players.map_values(|p: PlayerModel| p.db_id)
    }

    /// Every entry well-formed, ids unique, buckets strictly ordered.
    pub open spec fn wf(self) -> bool {
        &&& forall|i: int| 0 <= i < self.players.len() ==> (#[trigger] self.players[i]).wf()
        &&& forall|i: int, j: int|
            0 <= i < j < self.players.len() ==> (#[trigger] self.players[i]).db_id != (
            #[trigger] self.players[j]).db_id
        &&& forall|i: int, j: int|
            0 <= i < j < self.by_time.len() ==> (#[trigger] self.by_time[i]).timestamp < (
            #[trigger] self.by_time[j]).timestamp
    }

    /// Whether a player with this id is tracked.
    pub open spec fn has_player(self, id: i64) -> bool {
        find_index_by_id(self.players, id) >= 0
    }

    /// The tracked player with this id.
    pub open spec fn player(self, id: i64) -> PlayerModel
        recommends
            self.has_player(id),
    {
        self.players[find_index_by_id(self.players, id)]
    }

    /// The empty index.
    pub open spec fn empty() -> TrackerModel {
        TrackerModel { players: Seq::empty(), by_time: Seq::empty() }
    }

    /// The two maps agree: every bucket names only tracked players, each
    /// of whom carries the bucket's instant among their encounters. Merges
    /// establish this as they go; a restored blob has to be checked.
    pub open spec fn linked(self) -> bool {
        forall|i: int, j: int|
            0 <= i < self.by_time.len() && 0 <= j < self.by_time[i].ids.len()
                ==> #[trigger] entry_linked(self, i, j)
    }
}

/// Bucket entry (i, j) points at a tracked player carrying the bucket's
/// instant.
pub open spec fn entry_linked(m: TrackerModel, i: int, j: int) -> bool {
    let id = m.by_time[i].ids[j];
    let k = find_index_by_id(m.players, id);
    &&& k >= 0
    &&& m.players[k].timestamps.contains(m.by_time[i].timestamp)
}

// ---------------------------------------------------------------------------
// splice forms: where the recursive definitions land in terms of indices,
// which is what the executable code computes
// ---------------------------------------------------------------------------

/// With `k` the first index at or above `x`, the insertion is a splice at
/// `k`, or nothing when `x` already sits there.
pub proof fn lemma_sorted_insert_splice(s: Seq<i64>, x: i64, k: int)
    requires
        sorted_strict(s),
        0 <= k <= s.len(),
        forall|i: int| 0 <= i < k ==> s[i] < x,
        k < s.len() ==> s[k] >= x,
    ensures
        sorted_insert(s, x) == if k < s.len() && s[k] == x {
            s
        } else {
            s.take(k) + seq![x] + s.skip(k)
        },
    decreases k,
{
    if k == 0 {
        if s.len() == 0 {
            assert(sorted_insert(s, x) =~= s.take(0) + seq![x] + s.skip(0));
        } else if s[0] == x {
        } else if x < s[0] {
            assert(seq![x] + s =~= s.take(0) + seq![x] + s.skip(0));
        }
    } else {
        let t = s.drop_first();
        assert(s[0] < x);
        assert(sorted_strict(t));
        assert forall|i: int| 0 <= i < k - 1 implies t[i] < x by {
            assert(s[i + 1] < x);
        }
        lemma_sorted_insert_splice(t, x, k - 1);
        if k < s.len() && s[k] == x {
            assert(t[k - 1] == x);
            assert(seq![s[0]] + t =~= s);
        } else {
            assert(sorted_insert(s, x) =~= s.take(k) + seq![x] + s.skip(k)) by {
                assert(sorted_insert(s, x) == seq![s[0]] + sorted_insert(t, x));
                assert(sorted_insert(t, x) == t.take(k - 1) + seq![x] + t.skip(k - 1));
            }
        }
    }
}

/// With `k` the first occurrence of `v`, the removal drops exactly index
/// `k`.
pub proof fn lemma_seq_remove_value_at(s: Seq<Seq<char>>, v: Seq<char>, k: int)
    requires
        0 <= k < s.len(),
        s[k] == v,
        forall|i: int| 0 <= i < k ==> s[i] != v,
    ensures
        seq_remove_value(s, v) == s.remove(k),
    decreases k,
{
    if k == 0 {
        assert(s.drop_first() =~= s.remove(0));
    } else {
        let t = s.drop_first();
        assert forall|i: int| 0 <= i < k - 1 implies t[i] != v by {
            assert(s[i + 1] != v);
        }
        assert(t[k - 1] == v);
        lemma_seq_remove_value_at(t, v, k - 1);
        assert(seq![s[0]] + t.remove(k - 1) =~= s.remove(k));
    }
}

/// The bucket instants after an append are exactly the old instants with
/// `ts` inserted in order.
pub proof fn lemma_bucket_append_times(bt: Seq<BucketModel>, ts: i64, id: i64)
    ensures
        bucket_append(bt, ts, id).map_values(|b: BucketModel| b.timestamp) == sorted_insert(
            bt.map_values(|b: BucketModel| b.timestamp),
            ts,
        ),
    decreases bt.len(),
{
    let f = |b: BucketModel| b.timestamp;
    if bt.len() == 0 {
        assert(bucket_append(bt, ts, id).map_values(f) =~= sorted_insert(bt.map_values(f), ts));
    } else if ts < bt[0].timestamp {
        assert(bucket_append(bt, ts, id).map_values(f) =~= seq![ts] + bt.map_values(f));
        assert(bt.map_values(f)[0] == bt[0].timestamp);
        assert(sorted_insert(bt.map_values(f), ts) == seq![ts] + bt.map_values(f));
    } else if ts == bt[0].timestamp {
        assert(bt.map_values(f)[0] == ts);
        assert(bucket_append(bt, ts, id).map_values(f) =~= bt.map_values(f));
    } else {
        lemma_bucket_append_times(bt.drop_first(), ts, id);
        assert(bt.map_values(f)[0] == bt[0].timestamp);
        assert(bt.drop_first().map_values(f) =~= bt.map_values(f).drop_first());
        assert(bucket_append(bt, ts, id).map_values(f) =~= seq![bt[0].timestamp] + bucket_append(
            bt.drop_first(),
            ts,
            id,
        ).map_values(f));
        assert(sorted_insert(bt.map_values(f), ts) == seq![bt[0].timestamp] + sorted_insert(
            bt.map_values(f).drop_first(),
            ts,
        ));
    }
}

/// With `k` the first index at or above `ts`, the append lands in bucket
/// `k`, or creates one there.
pub proof fn lemma_bucket_append_splice(bt: Seq<BucketModel>, ts: i64, id: i64, k: int)
    requires
        0 <= k <= bt.len(),
        forall|i: int| 0 <= i < k ==> bt[i].timestamp < ts,
        k < bt.len() ==> bt[k].timestamp >= ts,
    ensures
        bucket_append(bt, ts, id) == if k < bt.len() && bt[k].timestamp == ts {
            bt.update(k, BucketModel { timestamp: ts, ids: bt[k].ids.push(id) })
        } else {
            bt.insert(k, BucketModel { timestamp: ts, ids: seq![id] })
        },
    decreases k,
{
    if k == 0 {
        if bt.len() == 0 {
            assert(bucket_append(bt, ts, id) =~= bt.insert(
                0,
                BucketModel { timestamp: ts, ids: seq![id] },
            ));
        } else if bt[0].timestamp == ts {
            assert(seq![BucketModel { timestamp: ts, ids: bt[0].ids.push(id) }] + bt.drop_first()
                =~= bt.update(0, BucketModel { timestamp: ts, ids: bt[0].ids.push(id) }));
        } else {
            assert(ts < bt[0].timestamp);
            assert(seq![BucketModel { timestamp: ts, ids: seq![id] }] + bt =~= bt.insert(
                0,
                BucketModel { timestamp: ts, ids: seq![id] },
            ));
        }
    } else {
        let t = bt.drop_first();
        assert(bt[0].timestamp < ts);
        assert forall|i: int| 0 <= i < k - 1 implies t[i].timestamp < ts by {
            assert(bt[i + 1].timestamp < ts);
        }
        lemma_bucket_append_splice(t, ts, id, k - 1);
        if k < bt.len() && bt[k].timestamp == ts {
            assert(t[k - 1] == bt[k]);
            assert(seq![bt[0]] + t.update(k - 1, BucketModel { timestamp: ts, ids: bt[k].ids.push(id) })
                =~= bt.update(k, BucketModel { timestamp: ts, ids: bt[k].ids.push(id) }));
        } else {
            assert(seq![bt[0]] + t.insert(k - 1, BucketModel { timestamp: ts, ids: seq![id] })
                =~= bt.insert(k, BucketModel { timestamp: ts, ids: seq![id] }));
        }
    }
}

// ---------------------------------------------------------------------------
// preservation of well-formedness
// ---------------------------------------------------------------------------

/// The identity refresh touches only name, clan and aliases, and keeps the
/// entry well-formed.
pub proof fn lemma_refresh_identity_wf(p: PlayerModel, name: Seq<char>, clan: Seq<char>, ts: i64)
    requires
        p.wf_base(),
    ensures
        refresh_identity(p, name, clan, ts).wf_base(),
        refresh_identity(p, name, clan, ts).db_id == p.db_id,
        refresh_identity(p, name, clan, ts).timestamps == p.timestamps,
        refresh_identity(p, name, clan, ts).arena_ids == p.arena_ids,
        refresh_identity(p, name, clan, ts).notes == p.notes,
        refresh_identity(p, name, clan, ts).clan_id == p.clan_id,
{
    if should_refresh(p, ts) {
        let pushed = if p.last_name != name && p.last_name.len() > 0 && !p.names.contains(
            p.last_name,
        ) {
            p.names.push(p.last_name)
        } else {
            p.names
        };
        assert forall|i: int, j: int| 0 <= i < j < pushed.len() implies pushed[i] != pushed[j] by {
            if pushed.len() == p.names.len() + 1 {
                if j == p.names.len() {
                    assert(pushed[i] == p.names[i]);
                    assert(pushed[j] == p.last_name);
                } else {
                    assert(pushed[i] == p.names[i]);
                    assert(pushed[j] == p.names[j]);
                }
            } else {
                assert(pushed[i] == p.names[i]);
                assert(pushed[j] == p.names[j]);
            }
        }
        lemma_seq_remove_value_props(pushed, name);
        let kept = seq_remove_value(pushed, name);
        assert forall|i: int| 0 <= i < kept.len() implies kept[i] != name by {
            assert(kept.contains(kept[i]));
        }
    }
}

/// Folding one match observation keeps the whole index well-formed.
pub proof fn lemma_merge_match_player_wf(m: TrackerModel, arena_id: i64, ts: i64, p: crate::player_tracker::ReplayPlayer)
    requires
        m.wf(),
    ensures
        merge_match_player(m, arena_id, ts, p).wf(),
{
    lemma_find_index_by_id(m.players, p.db_id);
    if p.relation != 0 {
        let idx = find_index_by_id(m.players, p.db_id);
        if !(idx >= 0 && m.players[idx].arena_ids.contains(arena_id)) {
            let base = if idx >= 0 {
                m.players[idx]
            } else {
                fresh_player_model(p.db_id)
            };
            assert(base.wf_base());
            lemma_refresh_identity_wf(base, p.name@, p.clan@, ts);
            let refreshed = refresh_identity(base, p.name@, p.clan@, ts);
            lemma_sorted_insert_props(refreshed.timestamps, ts);
            lemma_sorted_insert_props(refreshed.arena_ids, arena_id);
            lemma_bucket_append_times(m.by_time, ts, p.db_id);
            lemma_sorted_insert_props(m.by_time.map_values(|b: BucketModel| b.timestamp), ts);
            let r = merge_match_player(m, arena_id, ts, p);
            let times = m.by_time.map_values(|b: BucketModel| b.timestamp);
            assert(sorted_strict(times));
            let rtimes = r.by_time.map_values(|b: BucketModel| b.timestamp);
            assert(sorted_strict(rtimes));
            assert forall|i: int, j: int|
                0 <= i < j < r.by_time.len() implies r.by_time[i].timestamp
                < r.by_time[j].timestamp by {
                assert(rtimes[i] == r.by_time[i].timestamp);
                assert(rtimes[j] == r.by_time[j].timestamp);
            }
        }
    }
}

/// Folding a whole match keeps the index well-formed.
pub proof fn lemma_merge_match_model_wf(m: TrackerModel, arena_id: i64, ts: i64, ps: Seq<crate::player_tracker::ReplayPlayer>)
    requires
        m.wf(),
    ensures
        merge_match_model(m, arena_id, ts, ps).wf(),
    decreases ps.len(),
{
    if ps.len() != 0 {
        lemma_merge_match_player_wf(m, arena_id, ts, ps[0]);
        lemma_merge_match_model_wf(merge_match_player(m, arena_id, ts, ps[0]), arena_id, ts, ps.drop_first());
    }
}

/// Folding one roster observation keeps the index well-formed.
pub proof fn lemma_merge_roster_player_wf(m: TrackerModel, now: i64, p: crate::player_tracker::LivePlayer)
    requires
        m.wf(),
    ensures
        merge_roster_player(m, now, p).wf(),
{
    lemma_find_index_by_id(m.players, p.db_id);
    if p.relation != 0 {
        let idx = find_index_by_id(m.players, p.db_id);
        let base = if idx >= 0 {
            m.players[idx]
        } else {
            fresh_player_model(p.db_id)
        };
        assert(base.wf_base());
        lemma_refresh_identity_wf(base, p.name@, base.clan, now);
        let refreshed = refresh_identity(base, p.name@, base.clan, now);
        lemma_sorted_insert_props(refreshed.timestamps, now);
    }
}

/// Folding a whole roster keeps the index well-formed.
pub proof fn lemma_merge_roster_model_wf(m: TrackerModel, now: i64, ps: Seq<crate::player_tracker::LivePlayer>)
    requires
        m.wf(),
    ensures
        merge_roster_model(m, now, ps).wf(),
    decreases ps.len(),
{
    if ps.len() != 0 {
        lemma_merge_roster_player_wf(m, now, ps[0]);
        lemma_merge_roster_model_wf(merge_roster_player(m, now, ps[0]), now, ps.drop_first());
    }
}

// ---------------------------------------------------------------------------
// unrolling a whole-roster fold one player at a time
// ---------------------------------------------------------------------------

/// Appending one more player to a match fold applies one more step.
pub proof fn lemma_merge_match_model_push(m: TrackerModel, arena_id: i64, ts: i64, ps: Seq<crate::player_tracker::ReplayPlayer>, p: crate::player_tracker::ReplayPlayer)
    ensures
        merge_match_model(m, arena_id, ts, ps.push(p)) == merge_match_player(
            merge_match_model(m, arena_id, ts, ps),
            arena_id,
            ts,
            p,
        ),
    decreases ps.len(),
{
    if ps.len() == 0 {
        let m1 = merge_match_player(m, arena_id, ts, p);
        assert(ps.push(p)[0] == p);
        assert(ps.push(p).drop_first() =~= Seq::<crate::player_tracker::ReplayPlayer>::empty());
        assert(merge_match_model(m1, arena_id, ts, Seq::empty()) == m1);
        assert(merge_match_model(m, arena_id, ts, ps) == m);
    } else {
        let m1 = merge_match_player(m, arena_id, ts, ps[0]);
        assert(ps.push(p)[0] == ps[0]);
        assert(ps.push(p).drop_first() =~= ps.drop_first().push(p));
        assert(merge_match_model(m, arena_id, ts, ps.push(p)) == merge_match_model(m1, arena_id, ts, ps.drop_first().push(p)));
        assert(merge_match_model(m, arena_id, ts, ps) == merge_match_model(m1, arena_id, ts, ps.drop_first()));
        lemma_merge_match_model_push(m1, arena_id, ts, ps.drop_first(), p);
    }
}

/// Appending one more player to a roster fold applies one more step.
pub proof fn lemma_merge_roster_model_push(m: TrackerModel, now: i64, ps: Seq<crate::player_tracker::LivePlayer>, p: crate::player_tracker::LivePlayer)
    ensures
        merge_roster_model(m, now, ps.push(p)) == merge_roster_player(
            merge_roster_model(m, now, ps),
            now,
            p,
        ),
    decreases ps.len(),
{
    if ps.len() == 0 {
        let m1 = merge_roster_player(m, now, p);
        assert(ps.push(p)[0] == p);
        assert(ps.push(p).drop_first() =~= Seq::<crate::player_tracker::LivePlayer>::empty());
        assert(merge_roster_model(m1, now, Seq::empty()) == m1);
        assert(merge_roster_model(m, now, ps) == m);
    } else {
        let m1 = merge_roster_player(m, now, ps[0]);
        assert(ps.push(p)[0] == ps[0]);
        assert(ps.push(p).drop_first() =~= ps.drop_first().push(p));
        assert(merge_roster_model(m, now, ps.push(p)) == merge_roster_model(m1, now, ps.drop_first().push(p)));
        assert(merge_roster_model(m, now, ps) == merge_roster_model(m1, now, ps.drop_first()));
        lemma_merge_roster_model_push(m1, now, ps.drop_first(), p);
    }
}

} // verus!
