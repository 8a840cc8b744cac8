//! The aggregation engine: folds per-match player observations into a
//! cross-session index keyed by player id and by match instant.

use vstd::prelude::*;

use crate::model::{
    BucketModel, PlayerModel, TrackerModel, bucket_append, count_after, entry_linked,
    find_index_by_id,
    fresh_player_model, lemma_bucket_append_splice, lemma_find_index_by_id,
    lemma_find_index_by_id_at, lemma_merge_match_model_push, lemma_merge_match_player_wf,
    lemma_merge_roster_model_push, lemma_merge_roster_player_wf, lemma_seq_remove_value_at,
    lemma_sorted_insert_splice,
    merge_match_model, merge_match_player, merge_roster_model, merge_roster_player,
    refresh_identity, seq_remove_value, should_refresh, sorted_insert, sorted_strict,
};
use crate::query::{SortOrder, SortedBy, TimePeriod};

verus! {

/// One player observation extracted from a decoded match report, as plain
/// values. `relation` is the team relation the client records: 0 is the
/// local player, 1 a teammate, larger values the enemy teams.
pub struct ReplayPlayer {
    pub db_id: i64,
    pub name: String,
    pub clan: String,
    pub clan_id: i64,
    pub relation: u32,
}

/// One roster entry of the arena-metadata file written at match start.
pub struct LivePlayer {
    pub db_id: i64,
    pub name: String,
    pub relation: u32,
}

/// The plain contents of a decoded replay that the tracker consumes.
pub struct ReplayData {
    /// Identifier of the match, used to count each match once per player.
    pub arena_id: i64,
    /// Match instant as the client writes it, day-first with dotted date.
    pub date_time: String,
    /// The match's roster with team relations.
    pub players: Vec<ReplayPlayer>,
}

/// One tracked player of the cross-session index.
pub struct TrackedPlayer {
    db_id: i64,
    last_name: String,
    names: Vec<String>,
    clan_id: i64,
    clan: String,
    timestamps: Vec<i64>,
    arena_ids: Vec<i64>,
    notes: String,
}

impl View for TrackedPlayer {
    type V = PlayerModel;

    closed spec fn view(&self) -> PlayerModel {
        PlayerModel {
            db_id: self.db_id,
            last_name: self.last_name@,
            names: self.names@.map_values(|n: String| n@),
            clan_id: self.clan_id,
            clan: self.clan@,
            timestamps: self.timestamps@,
            arena_ids: self.arena_ids@,
            notes: self.notes@,
        }
    }
}

/// The players observed at one match instant, in encounter order.
pub struct TimeBucket {
    timestamp: i64,
    ids: Vec<i64>,
}

impl View for TimeBucket {
    type V = BucketModel;

    closed spec fn view(&self) -> BucketModel {
        BucketModel { timestamp: self.timestamp, ids: self.ids@ }
    }
}

/// The cross-session player index, together with the transient query state
/// that is persisted alongside it.
pub struct PlayerTracker {
    tracked_players_by_time: Vec<TimeBucket>,
    tracked_players: Vec<TrackedPlayer>,
    filter_time_period: TimePeriod,
    sort_order: SortedBy,
    player_filter: String,
}

impl View for PlayerTracker {
    type V = TrackerModel;

    closed spec fn view(&self) -> TrackerModel {
        TrackerModel {
            players: self.tracked_players@.map_values(|p: TrackedPlayer| p@),
            by_time: self.tracked_players_by_time@.map_values(|b: TimeBucket| b@),
        }
    }
}

/// Model of a sequence of tracked players.
pub open spec fn players_view(v: Seq<TrackedPlayer>) -> Seq<PlayerModel> {
    v.map_values(|p: TrackedPlayer| p@)
}

/// Model of a sequence of time buckets.
pub open spec fn buckets_view(v: Seq<TimeBucket>) -> Seq<BucketModel> {
    v.map_values(|b: TimeBucket| b@)
}

/// Model of the two halves of the index taken together.
pub open spec fn tracker_of(ps: Seq<TrackedPlayer>, bs: Seq<TimeBucket>) -> TrackerModel {
    TrackerModel { players: players_view(ps), by_time: buckets_view(bs) }
}

impl TimeBucket {
    /// The bucket's match instant.
    pub fn timestamp(&self) -> (r: i64)
        ensures
            r == self@.timestamp,
    {
        self.timestamp
    }

    /// The players observed at this instant, in encounter order.
    pub fn ids(&self) -> (r: &Vec<i64>)
        ensures
            r@ == self@.ids,
    {
        &self.ids
    }
}

impl TrackedPlayer {
    /// The entry is well-formed; see [`PlayerModel::wf`].
    pub open spec fn wf(self) -> bool {
        self@.wf()
    }

    /// Stable numeric identity.
    pub fn db_id(&self) -> (r: i64)
        ensures
            r == self@.db_id,
    {
        self.db_id
    }

    /// Most recently observed display name.
    pub fn last_name(&self) -> (r: &String)
        ensures
            r@ == self@.last_name,
    {
        &self.last_name
    }

    /// Previously observed display names; never contains the current name.
    pub fn aliases(&self) -> (r: &Vec<String>)
        ensures
            r@.map_values(|n: String| n@) == self@.names,
    {
        &self.names
    }

    /// Clan tag observed together with the most recent name refresh.
    pub fn clan(&self) -> (r: &String)
        ensures
            r@ == self@.clan,
    {
        &self.clan
    }

    /// Numeric clan identity of the latest observation.
    pub fn clan_id(&self) -> (r: i64)
        ensures
            r == self@.clan_id,
    {
        self.clan_id
    }

    /// Match instants, oldest first, without duplicates.
    pub fn timestamps(&self) -> (r: &Vec<i64>)
        ensures
            r@ == self@.timestamps,
    {
        &self.timestamps
    }

    /// Counted match identifiers, ascending, without duplicates.
    pub fn arena_ids(&self) -> (r: &Vec<i64>)
        ensures
            r@ == self@.arena_ids,
    {
        &self.arena_ids
    }

    /// Free-form user text; ingestion never touches it.
    pub fn notes(&self) -> (r: &String)
        ensures
            r@ == self@.notes,
    {
        &self.notes
    }

    /// Replace the user text; everything else stays.
    pub fn set_notes(&mut self, notes: String)
        ensures
            final(self)@ == (PlayerModel { notes: notes@, ..old(self)@ }),
    {
        self.notes = notes;
    }

    /// The most recent encounter instant.
    pub fn last_encounter(&self) -> (r: i64)
        requires
            self.wf(),
        ensures
            r == self@.newest_encounter(),
    {
        self.timestamps[self.timestamps.len() - 1]
    }

    /// Total number of counted matches.
    pub fn total_encounters(&self) -> (r: usize)
        ensures
            r == self@.total_encounters(),
    {
        self.arena_ids.len()
    }

    /// How many encounters fall strictly after `start`; with no window, the
    /// total instead.
    pub fn encounters_in_window(&self, window_start: Option<i64>) -> (r: usize)
        ensures
            r == self@.encounters_in_window(window_start),
    {
        match window_start {
            Option::Some(start) => {
                let n: usize = self.timestamps.len();
                let mut i: usize = 0;
                let mut c: usize = 0;
                while i < n
                    invariant
                        i <= n,
                        n == self.timestamps@.len(),
                        c == count_after(self.timestamps@.take(i as int), start),
                        c <= i,
                    decreases n - i,
                {
                    proof {
                        assert(self.timestamps@.take(i + 1).drop_last() =~= self.timestamps@.take(
                            i as int,
                        ));
                        assert(self.timestamps@.take(i + 1).last() == self.timestamps@[i as int]);
                    }
                    if self.timestamps[i] > start {
                        c = c + 1;
                    }
                    i = i + 1;
                }
                proof {
                    assert(self.timestamps@.take(n as int) =~= self.timestamps@);
                }
                c
            },
            Option::None => self.arena_ids.len(),
        }
    }
}

// ---------------------------------------------------------------------------
// validation of persisted state
// ---------------------------------------------------------------------------

/// Whether the entries are strictly increasing.
fn check_sorted_strict(v: &Vec<i64>) -> (r: bool)
    ensures
        r == sorted_strict(v@),
{
    let n: usize = v.len();
    if n == 0 {
        return true;
    }
    let mut k: usize = 0;
    while k < n - 1
        invariant
            k <= n - 1,
            1 <= n == v@.len(),
            forall|j: int| 0 <= j < k ==> #[trigger] v@[j] < v@[j + 1],
        decreases n - k,
    {
        if v[k] >= v[k + 1] {
            assert(!sorted_strict(v@)) by {
                assert(v@[k as int] >= v@[k + 1]);
            }
            return false;
        }
        k = k + 1;
    }
    proof {
        crate::model::lemma_adjacent_sorted(v@);
    }
    true
}

/// Whether the alias list is duplicate-free and excludes the current name.
fn check_names(names: &Vec<String>, last_name: &String) -> (r: bool)
    ensures
        r == ({
            let views = names@.map_values(|n: String| n@);
            (forall|a: int, b: int| 0 <= a < b < views.len() ==> views[a] != views[b])
                && (forall|a: int| 0 <= a < views.len() ==> views[a] != last_name@)
        }),
{
    let ghost views = names@.map_values(|n: String| n@);
    let n: usize = names.len();
    let mut i: usize = 0;
    while i < n
        invariant
            i <= n,
            n == names@.len(),
            views == names@.map_values(|m: String| m@),
            forall|a: int, b: int| 0 <= a < b < i ==> views[a] != views[b],
            forall|a: int| 0 <= a < i ==> views[a] != last_name@,
        decreases n - i,
    {
        if names[i] == *last_name {
            assert(views[i as int] == last_name@);
            return false;
        }
        let mut j: usize = 0;
        while j < i
            invariant
                j <= i < n,
                n == names@.len(),
                views == names@.map_values(|m: String| m@),
                forall|a: int| 0 <= a < j ==> views[a] != views[i as int],
            decreases i - j,
        {
            if names[j] == names[i] {
                assert(views[j as int] == views[i as int]);
                return false;
            }
            assert(views[j as int] != views[i as int]);
            j = j + 1;
        }
        assert(views[i as int] != last_name@);
        i = i + 1;
    }
    true
}

impl TrackedPlayer {
    /// Whether this entry is well-formed; decides [`TrackedPlayer::wf`] at
    /// run time, for state read back from a persisted blob.
    pub fn check_wf(&self) -> (r: bool)
        ensures
            r == self.wf(),
    {
        let ts_ok = check_sorted_strict(&self.timestamps);
        let ar_ok = check_sorted_strict(&self.arena_ids);
        let names_ok = check_names(&self.names, &self.last_name);
        proof {
            assert(self@.names == self.names@.map_values(|n: String| n@));
            assert(self@.timestamps == self.timestamps@);
            assert(self@.arena_ids == self.arena_ids@);
            if ts_ok && ar_ok && names_ok && self.timestamps@.len() >= 1 {
                assert(self@.wf_base());
                assert(self@.wf());
            }
        }
        ts_ok && ar_ok && names_ok && self.timestamps.len() >= 1
    }

    /// Rebuild one entry from persisted plain values; `None` exactly when
    /// they break the entry's invariant.
    pub fn from_parts(
        db_id: i64,
        last_name: String,
        names: Vec<String>,
        clan_id: i64,
        clan: String,
        timestamps: Vec<i64>,
        arena_ids: Vec<i64>,
        notes: String,
    ) -> (r: Option<TrackedPlayer>)
        ensures
            ({
                let model = PlayerModel {
                    db_id,
                    last_name: last_name@,
                    names: names@.map_values(|n: String| n@),
                    clan_id,
                    clan: clan@,
                    timestamps: timestamps@,
                    arena_ids: arena_ids@,
                    notes: notes@,
                };
                match r {
                    Option::Some(p) => p.wf() && p@ == model,
                    Option::None => !model.wf(),
                }
            }),
    {
        let candidate = TrackedPlayer {
            db_id,
            last_name,
            names,
            clan_id,
            clan,
            timestamps,
            arena_ids,
            notes,
        };
        if candidate.check_wf() {
            Option::Some(candidate)
        } else {
            Option::None
        }
    }
}

impl TimeBucket {
    /// Rebuild one bucket from persisted plain values.
    pub fn from_parts(timestamp: i64, ids: Vec<i64>) -> (r: TimeBucket)
        ensures
            r@ == (BucketModel { timestamp, ids: ids@ }),
    {
        TimeBucket { timestamp, ids }
    }
}

// ---------------------------------------------------------------------------
// small verified vector helpers
// ---------------------------------------------------------------------------

/// Linear membership test.
fn vec_i64_contains(v: &Vec<i64>, x: i64) -> (r: bool)
    ensures
        r == v@.contains(x),
{
    let n: usize = v.len();
    let mut i: usize = 0;
    while i < n
        invariant
            i <= n,
            n == v@.len(),
            forall|j: int| 0 <= j < i ==> v@[j] != x,
        decreases n - i,
    {
        if v[i] == x {
            assert(v@.contains(x)) by {
                assert(v@[i as int] == x);
            }
            return true;
        }
        i = i + 1;
    }
    assert(!v@.contains(x));
    false
}

/// Insert `x` into an ordered vector, keeping order, dropping duplicates.
fn vec_sorted_insert(v: &mut Vec<i64>, x: i64)
    requires
        sorted_strict(old(v)@),
    ensures
        final(v)@ == sorted_insert(old(v)@, x),
{
    let n: usize = v.len();
    let mut k: usize = 0;
    while k < n && v[k] < x
        invariant
            k <= n,
            n == v@.len(),
            v@ == old(v)@,
            forall|i: int| 0 <= i < k ==> v@[i] < x,
        decreases n - k,
    {
        k = k + 1;
    }
    proof {
        lemma_sorted_insert_splice(v@, x, k as int);
    }
    if k < n && v[k] == x {
    } else {
        let ghost before = v@;
        v.insert(k, x);
        proof {
            assert(v@ =~= before.take(k as int) + seq![x] + before.skip(k as int));
        }
    }
}

/// Linear membership test on names, by character content.
fn vec_string_contains(v: &Vec<String>, x: &String) -> (r: bool)
    ensures
        r == v@.map_values(|n: String| n@).contains(x@),
{
    let ghost views = v@.map_values(|n: String| n@);
    let n: usize = v.len();
    let mut i: usize = 0;
    while i < n
        invariant
            i <= n,
            n == v@.len(),
            views == v@.map_values(|m: String| m@),
            forall|j: int| 0 <= j < i ==> views[j] != x@,
        decreases n - i,
    {
        if v[i] == *x {
            assert(views.contains(x@)) by {
                assert(views[i as int] == x@);
            }
            return true;
        }
        assert(views[i as int] != x@);
        i = i + 1;
    }
    assert(!views.contains(x@));
    false
}

/// Remove the first name equal to `x`, by character content.
fn vec_string_remove_value(v: &mut Vec<String>, x: &String)
    ensures
        final(v)@.map_values(|n: String| n@) == seq_remove_value(
            old(v)@.map_values(|n: String| n@),
            x@,
        ),
{
    let ghost views = old(v)@.map_values(|n: String| n@);
    let n: usize = v.len();
    let mut i: usize = 0;
    while i < n
        invariant
            i <= n,
            n == v@.len(),
            v@ == old(v)@,
            views == old(v)@.map_values(|m: String| m@),
            forall|j: int| 0 <= j < i ==> views[j] != x@,
        decreases n - i,
    {
        if v[i] == *x {
            proof {
                assert(views[i as int] == x@);
                lemma_seq_remove_value_at(views, x@, i as int);
            }
            let ghost before = v@;
            let _removed = v.remove(i);
            proof {
                assert(v@.map_values(|n: String| n@) =~= views.remove(i as int));
            }
            return ;
        }
        assert(views[i as int] != x@);
        i = i + 1;
    }
    proof {
        assert(!views.contains(x@));
        lemma_seq_remove_value_unchanged(views, x@);
    }
}

/// A value that does not occur leaves the removal without effect; holds
/// with or without duplicates.
proof fn lemma_seq_remove_value_unchanged(s: Seq<Seq<char>>, v: Seq<char>)
    requires
        !s.contains(v),
    ensures
        seq_remove_value(s, v) == s,
    decreases s.len(),
{
    if s.len() != 0 {
        assert(s[0] != v);
        assert(!s.drop_first().contains(v)) by {
            if s.drop_first().contains(v) {
                let k = choose|k: int| 0 <= k < s.drop_first().len() && s.drop_first()[k] == v;
                assert(s[k + 1] == v);
            }
        }
        lemma_seq_remove_value_unchanged(s.drop_first(), v);
        assert(seq![s[0]] + s.drop_first() =~= s);
    }
}

/// Index of the first entry with this id.
fn find_player_index(v: &Vec<TrackedPlayer>, id: i64) -> (r: Option<usize>)
    ensures
        match r {
            Option::Some(i) => i == find_index_by_id(players_view(v@), id),
            Option::None => find_index_by_id(players_view(v@), id) == -1,
        },
{
    let ghost views = players_view(v@);
    let n: usize = v.len();
    let mut i: usize = 0;
    while i < n
        invariant
            i <= n,
            n == v@.len(),
            views == players_view(v@),
            forall|j: int| 0 <= j < i ==> views[j].db_id != id,
        decreases n - i,
    {
        if v[i].db_id == id {
            proof {
                assert(views[i as int].db_id == id);
                lemma_find_index_by_id_at(views, id, i as int);
            }
            return Option::Some(i);
        }
        assert(views[i as int].db_id != id);
        i = i + 1;
    }
    proof {
        lemma_find_index_by_id(views, id);
    }
    Option::None
}

/// Append `id` to the bucket at `ts`, creating the bucket in order when
/// absent.
fn push_bucket(buckets: &mut Vec<TimeBucket>, ts: i64, id: i64)
    ensures
        buckets_view(final(buckets)@) == bucket_append(buckets_view(old(buckets)@), ts, id),
{
    let ghost views = buckets_view(old(buckets)@);
    let n: usize = buckets.len();
    let mut k: usize = 0;
    while k < n && buckets[k].timestamp < ts
        invariant
            k <= n,
            n == buckets@.len(),
            buckets@ == old(buckets)@,
            views == buckets_view(old(buckets)@),
            forall|i: int| 0 <= i < k ==> views[i].timestamp < ts,
        decreases n - k,
    {
        assert(views[k as int].timestamp == buckets@[k as int]@.timestamp);
        k = k + 1;
    }
    proof {
        lemma_bucket_append_splice(views, ts, id, k as int);
    }
    if k < n && buckets[k].timestamp == ts {
        let mut b = buckets.remove(k);
        b.ids.push(id);
        buckets.insert(k, b);
        proof {
            assert(buckets_view(buckets@) =~= views.update(
                k as int,
                BucketModel { timestamp: ts, ids: views[k as int].ids.push(id) },
            ));
        }
    } else {
        let mut ids: Vec<i64> = Vec::new();
        ids.push(id);
        buckets.insert(k, TimeBucket { timestamp: ts, ids });
        proof {
            assert(buckets_view(buckets@) =~= views.insert(
                k as int,
                BucketModel { timestamp: ts, ids: seq![id] },
            ));
        }
    }
}

/// Apply one observation to one entry: refresh the identity when newest,
/// then record the instant, and the match id when one is known.
fn apply_observation(
    pl: &mut TrackedPlayer,
    name: &String,
    clan: Option<&String>,
    clan_id: Option<i64>,
    ts: i64,
    arena_id: Option<i64>,
)
    requires
        old(pl)@.wf_base(),
    ensures
        final(pl)@ == ({
            let clan_v = match clan {
                Option::Some(c) => c@,
                Option::None => old(pl)@.clan,
            };
            let refreshed = refresh_identity(old(pl)@, name@, clan_v, ts);
            PlayerModel {
                clan_id: match clan_id {
                    Option::Some(c) => c,
                    Option::None => refreshed.clan_id,
                },
                timestamps: sorted_insert(refreshed.timestamps, ts),
                arena_ids: match arena_id {
                    Option::Some(a) => sorted_insert(refreshed.arena_ids, a),
                    Option::None => refreshed.arena_ids,
                },
                ..refreshed
            }
        }),
{
    let ghost p0 = pl@;
    let ts_len: usize = pl.timestamps.len();
    let do_refresh: bool = ts_len == 0 || pl.timestamps[ts_len - 1] < ts;
    proof {
        if ts_len > 0 && pl.timestamps@[ts_len - 1] < ts {
            assert forall|i: int| 0 <= i < p0.timestamps.len() implies p0.timestamps[i] < ts by {
                if i < ts_len - 1 {
                    assert(p0.timestamps[i] < p0.timestamps[ts_len - 1]);
                }
            }
        }
        if ts_len > 0 && !(pl.timestamps@[ts_len - 1] < ts) {
            assert(!should_refresh(p0, ts)) by {
                assert(p0.timestamps[ts_len - 1] >= ts);
            }
        }
        assert(do_refresh == should_refresh(p0, ts));
    }
    if do_refresh {
        let name_differs: bool = !(pl.last_name == *name);
        let prev_nonempty: bool = !pl.last_name.as_str().is_empty();
        let ghost pushed_model: Seq<Seq<char>>;
        if name_differs && prev_nonempty && !vec_string_contains(&pl.names, &pl.last_name) {
            let prev = pl.last_name.clone();
            pl.names.push(prev);
            proof {
                pushed_model = p0.names.push(p0.last_name);
                assert(pl.names@.map_values(|n: String| n@) =~= pushed_model);
            }
        } else {
            proof {
                pushed_model = p0.names;
            }
        }
        pl.last_name = name.clone();
        match clan {
            Option::Some(c) => {
                pl.clan = c.clone();
            },
            Option::None => {},
        }
        vec_string_remove_value(&mut pl.names, name);
        proof {
            assert(pl@.names == seq_remove_value(pushed_model, name@));
        }
    }
    match clan_id {
        Option::Some(cid) => {
            pl.clan_id = cid;
        },
        Option::None => {},
    }
    vec_sorted_insert(&mut pl.timestamps, ts);
    match arena_id {
        Option::Some(a) => {
            vec_sorted_insert(&mut pl.arena_ids, a);
        },
        Option::None => {},
    }
    proof {
        let clan_v = match clan {
            Option::Some(c) => c@,
            Option::None => p0.clan,
        };
        let refreshed = refresh_identity(p0, name@, clan_v, ts);
        let target = PlayerModel {
            clan_id: match clan_id {
                Option::Some(c) => c,
                Option::None => refreshed.clan_id,
            },
            timestamps: sorted_insert(refreshed.timestamps, ts),
            arena_ids: match arena_id {
                Option::Some(a) => sorted_insert(refreshed.arena_ids, a),
                Option::None => refreshed.arena_ids,
            },
            ..refreshed
        };
        assert(pl@ =~= target);
    }
}

/// One match observation folded into the two halves of the index; performs
/// [`crate::model::merge_match_player`].
fn merge_one_from_match(
    players: &mut Vec<TrackedPlayer>,
    buckets: &mut Vec<TimeBucket>,
    arena_id: i64,
    ts: i64,
    p: &ReplayPlayer,
)
    requires
        tracker_of(old(players)@, old(buckets)@).wf(),
    ensures
        tracker_of(final(players)@, final(buckets)@) == merge_match_player(
            tracker_of(old(players)@, old(buckets)@),
            arena_id,
            ts,
            *p,
        ),
{
    let ghost m0 = tracker_of(players@, buckets@);
    if p.relation == 0 {
        return ;
    }
    let idx = find_player_index(players, p.db_id);
    proof {
        lemma_find_index_by_id(m0.players, p.db_id);
    }
    match idx {
        Option::Some(i) => {
            let has = vec_i64_contains(&players[i].arena_ids, arena_id);
            proof {
                assert(m0.players[i as int].arena_ids == players@[i as int]@.arena_ids);
            }
            if has {
                return ;
            }
            let mut pl = players.remove(i);
            proof {
                assert(m0.wf());
                assert((i as int) < m0.players.len());
                assert(pl@ == m0.players[i as int]);
                assert(m0.players[i as int].wf());
                assert(pl@.wf_base());
            }
            apply_observation(&mut pl, &p.name, Option::Some(&p.clan), Option::Some(p.clan_id), ts, Option::Some(arena_id));
            players.insert(i, pl);
            push_bucket(buckets, ts, p.db_id);
            proof {
                let refreshed = refresh_identity(m0.players[i as int], p.name@, p.clan@, ts);
                let updated = PlayerModel {
                    clan_id: p.clan_id,
                    timestamps: sorted_insert(refreshed.timestamps, ts),
                    arena_ids: sorted_insert(refreshed.arena_ids, arena_id),
                    ..refreshed
                };
                assert(players_view(players@) =~= m0.players.update(i as int, updated));
                assert(tracker_of(players@, buckets@) =~= merge_match_player(m0, arena_id, ts, *p));
            }
        },
        Option::None => {
            let mut pl = TrackedPlayer {
                db_id: p.db_id,
                last_name: String::new(),
                names: Vec::new(),
                clan_id: 0,
                clan: String::new(),
                timestamps: Vec::new(),
                arena_ids: Vec::new(),
                notes: String::new(),
            };
            proof {
                assert(pl@ =~= fresh_player_model(p.db_id));
            }
            apply_observation(&mut pl, &p.name, Option::Some(&p.clan), Option::Some(p.clan_id), ts, Option::Some(arena_id));
            players.push(pl);
            push_bucket(buckets, ts, p.db_id);
            proof {
                let refreshed = refresh_identity(fresh_player_model(p.db_id), p.name@, p.clan@, ts);
                let updated = PlayerModel {
                    clan_id: p.clan_id,
                    timestamps: sorted_insert(refreshed.timestamps, ts),
                    arena_ids: sorted_insert(refreshed.arena_ids, arena_id),
                    ..refreshed
                };
                assert(players_view(players@) =~= m0.players.push(updated));
                assert(tracker_of(players@, buckets@) =~= merge_match_player(m0, arena_id, ts, *p));
            }
        },
    }
}

/// One roster observation folded in at match start; performs
/// [`crate::model::merge_roster_player`].
fn merge_one_from_roster(players: &mut Vec<TrackedPlayer>, now: i64, p: &LivePlayer)
    requires
        tracker_of(old(players)@, Seq::empty()).wf(),
    ensures
        players_view(final(players)@) == merge_roster_player(
            TrackerModel { players: players_view(old(players)@), by_time: Seq::empty() },
            now,
            *p,
        ).players,
{
    let ghost m0 = TrackerModel { players: players_view(players@), by_time: Seq::empty() };
    if p.relation == 0 {
        return ;
    }
    let idx = find_player_index(players, p.db_id);
    proof {
        lemma_find_index_by_id(m0.players, p.db_id);
    }
    match idx {
        Option::Some(i) => {
            let mut pl = players.remove(i);
            proof {
                let mp = tracker_of(old(players)@, Seq::empty());
                assert(mp.wf());
                assert(m0.players == mp.players);
                assert((i as int) < mp.players.len());
                assert(mp.players[i as int].wf());
                assert(pl@ == m0.players[i as int]);
                assert(m0.players[i as int].wf());
                assert(pl@.wf_base());
            }
            apply_observation(&mut pl, &p.name, Option::None, Option::None, now, Option::None);
            players.insert(i, pl);
            proof {
                let refreshed = refresh_identity(m0.players[i as int], p.name@, m0.players[i as int].clan, now);
                let updated = PlayerModel { timestamps: sorted_insert(refreshed.timestamps, now), ..refreshed };
                assert(players_view(players@) =~= m0.players.update(i as int, updated));
            }
        },
        Option::None => {
            let mut pl = TrackedPlayer {
                db_id: p.db_id,
                last_name: String::new(),
                names: Vec::new(),
                clan_id: 0,
                clan: String::new(),
                timestamps: Vec::new(),
                arena_ids: Vec::new(),
                notes: String::new(),
            };
            proof {
                assert(pl@ =~= fresh_player_model(p.db_id));
            }
            apply_observation(&mut pl, &p.name, Option::None, Option::None, now, Option::None);
            players.push(pl);
            proof {
                let fresh = fresh_player_model(p.db_id);
                let refreshed = refresh_identity(fresh, p.name@, fresh.clan, now);
                let updated = PlayerModel { timestamps: sorted_insert(refreshed.timestamps, now), ..refreshed };
                assert(players_view(players@) =~= m0.players.push(updated));
            }
        },
    }
}

impl PlayerTracker {
    /// The index is well-formed; see [`TrackerModel::wf`].
    pub open spec fn wf(self) -> bool {
        self@.wf()
    }

    /// Time window applied by the listing.
    pub closed spec fn spec_filter_time_period(self) -> TimePeriod {
        self.filter_time_period
    }

    /// Sort key and direction of the listing.
    pub closed spec fn spec_sort_order(self) -> SortedBy {
        self.sort_order
    }

    /// Substring filter applied to clan, name and aliases.
    pub closed spec fn spec_player_filter(self) -> Seq<char> {
        self.player_filter@
    }

    /// The query state is untouched between two index states.
    pub open spec fn same_query_state(self, other: PlayerTracker) -> bool {
        &&& self.spec_filter_time_period() == other.spec_filter_time_period()
        &&& self.spec_sort_order() == other.spec_sort_order()
        &&& self.spec_player_filter() == other.spec_player_filter()
    }

    /// Time window applied by the listing.
    pub fn filter_time_period(&self) -> (r: TimePeriod)
        ensures
            r == self.spec_filter_time_period(),
    {
        self.filter_time_period
    }

    /// Replace the listing's time window; the aggregate is untouched.
    pub fn set_filter_time_period(&mut self, period: TimePeriod)
        ensures
            final(self).spec_filter_time_period() == period,
            final(self)@ == old(self)@,
            final(self).spec_sort_order() == old(self).spec_sort_order(),
            final(self).spec_player_filter() == old(self).spec_player_filter(),
    {
        self.filter_time_period = period;
    }

    /// Sort key and direction of the listing.
    pub fn sort_order(&self) -> (r: SortedBy)
        ensures
            r == self.spec_sort_order(),
    {
        self.sort_order
    }

    /// Apply a user's column selection to the sort state: the column
    /// already in charge flips its direction, another column takes over as
    /// selected; the aggregate is untouched.
    pub fn select_sort_key(&mut self, new: SortedBy)
        ensures
            final(self).spec_sort_order() == old(self).spec_sort_order().spec_transition_to(new),
            final(self)@ == old(self)@,
            final(self).spec_filter_time_period() == old(self).spec_filter_time_period(),
            final(self).spec_player_filter() == old(self).spec_player_filter(),
    {
        self.sort_order.transition_to(new);
    }

    /// Substring filter applied to clan, name and aliases.
    pub fn player_filter(&self) -> (r: &String)
        ensures
            r@ == self.spec_player_filter(),
    {
        &self.player_filter
    }

    /// Replace the name filter; the aggregate is untouched.
    pub fn set_player_filter(&mut self, filter: String)
        ensures
            final(self).spec_player_filter() == filter@,
            final(self)@ == old(self)@,
            final(self).spec_filter_time_period() == old(self).spec_filter_time_period(),
            final(self).spec_sort_order() == old(self).spec_sort_order(),
    {
        self.player_filter = filter;
    }

    /// A fresh, empty index with the default query state.
    pub fn new() -> (t: PlayerTracker)
        ensures
            t.wf(),
            t@ == TrackerModel::empty(),
            t.spec_filter_time_period() == TimePeriod::LastDay,
            t.spec_sort_order() == SortedBy::TimesEncountered(SortOrder::Desc),
            t.spec_player_filter() == Seq::<char>::empty(),
    {
        let t = PlayerTracker {
            tracked_players_by_time: Vec::new(),
            tracked_players: Vec::new(),
            filter_time_period: TimePeriod::LastDay,
            sort_order: SortedBy::TimesEncountered(SortOrder::Desc),
            player_filter: String::new(),
        };
        proof {
            assert(t@.players =~= Seq::<PlayerModel>::empty());
            assert(t@.by_time =~= Seq::<BucketModel>::empty());
        }
        t
    }

    /// Number of tracked players.
    pub fn player_count(&self) -> (r: usize)
        ensures
            r == self@.players.len(),
    {
        self.tracked_players.len()
    }

    /// The tracked players, in first-encounter order.
    pub fn players(&self) -> (r: &Vec<TrackedPlayer>)
        ensures
            players_view(r@) == self@.players,
    {
        &self.tracked_players
    }

    /// The time buckets, in increasing instant order.
    pub fn buckets(&self) -> (r: &Vec<TimeBucket>)
        ensures
            buckets_view(r@) == self@.by_time,
    {
        &self.tracked_players_by_time
    }

    /// The tracked player with this id, when one exists.
    pub fn get(&self, db_id: i64) -> (r: Option<&TrackedPlayer>)
        ensures
            match r {
                Option::Some(p) => self@.has_player(db_id) && p@ == self@.player(db_id),
                Option::None => !self@.has_player(db_id),
            },
    {
        proof {
            lemma_find_index_by_id(players_view(self.tracked_players@), db_id);
        }
        match find_player_index(&self.tracked_players, db_id) {
            Option::Some(i) => Option::Some(&self.tracked_players[i]),
            Option::None => Option::None,
        }
    }

    /// Empty both maps; the query state survives, as the "clear stats"
    /// action leaves it alone.
    pub fn clear(&mut self)
        ensures
            final(self).wf(),
            final(self)@ == TrackerModel::empty(),
            final(self).same_query_state(*old(self)),
    {
        self.tracked_players.clear();
        self.tracked_players_by_time.clear();
        proof {
            assert(self@.players =~= Seq::<PlayerModel>::empty());
            assert(self@.by_time =~= Seq::<BucketModel>::empty());
        }
    }

    /// Fold a finished match into the index: every non-self player not yet
    /// counted for this match gains this encounter; see
    /// [`crate::model::merge_match_model`].
    pub fn merge_match(&mut self, arena_id: i64, timestamp: i64, players: &Vec<ReplayPlayer>)
        requires
            old(self).wf(),
        ensures
            final(self).wf(),
            final(self)@ == merge_match_model(old(self)@, arena_id, timestamp, players@),
            final(self).same_query_state(*old(self)),
    {
        let ghost m0 = self@;
        let n: usize = players.len();
        let mut i: usize = 0;
        while i < n
            invariant
                i <= n,
                n == players@.len(),
                m0 == old(self)@,
                tracker_of(self.tracked_players@, self.tracked_players_by_time@)
                    == merge_match_model(m0, arena_id, timestamp, players@.take(i as int)),
                tracker_of(self.tracked_players@, self.tracked_players_by_time@).wf(),
                self.filter_time_period == old(self).filter_time_period,
                self.sort_order == old(self).sort_order,
                self.player_filter == old(self).player_filter,
            decreases n - i,
        {
            let ghost mi = tracker_of(self.tracked_players@, self.tracked_players_by_time@);
            merge_one_from_match(
                &mut self.tracked_players,
                &mut self.tracked_players_by_time,
                arena_id,
                timestamp,
                &players[i],
            );
            proof {
                lemma_merge_match_model_push(m0, arena_id, timestamp, players@.take(i as int), players@[i as int]);
                assert(players@.take(i + 1) =~= players@.take(i as int).push(players@[i as int]));
                lemma_merge_match_player_wf(mi, arena_id, timestamp, players@[i as int]);
            }
            i = i + 1;
        }
        proof {
            assert(players@.take(n as int) =~= players@);
            assert(self@ == tracker_of(self.tracked_players@, self.tracked_players_by_time@));
        }
    }

    /// Fold an arena roster into the index at match start: identity refresh
    /// and encounter instant only, no match id and no time bucket; see
    /// [`crate::model::merge_roster_model`].
    pub fn merge_live_roster(&mut self, now: i64, roster: &Vec<LivePlayer>)
        requires
            old(self).wf(),
        ensures
            final(self).wf(),
            final(self)@ == merge_roster_model(old(self)@, now, roster@),
            final(self).same_query_state(*old(self)),
    {
        let ghost m0 = self@;
        let n: usize = roster.len();
        let mut i: usize = 0;
        while i < n
            invariant
                i <= n,
                n == roster@.len(),
                self.tracked_players_by_time@ == old(self).tracked_players_by_time@,
                (TrackerModel {
                    players: players_view(self.tracked_players@),
                    by_time: m0.by_time,
                }) == merge_roster_model(m0, now, roster@.take(i as int)),
                m0 == old(self)@,
                tracker_of(self.tracked_players@, self.tracked_players_by_time@).wf(),
                self.filter_time_period == old(self).filter_time_period,
                self.sort_order == old(self).sort_order,
                self.player_filter == old(self).player_filter,
            decreases n - i,
        {
            let ghost mi = TrackerModel { players: players_view(self.tracked_players@), by_time: m0.by_time };
            proof {
                assert(tracker_of(self.tracked_players@, Seq::empty()).wf()) by {
                    assert(tracker_of(self.tracked_players@, self.tracked_players_by_time@).wf());
                }
            }
            merge_one_from_roster(&mut self.tracked_players, now, &roster[i]);
            proof {
                lemma_merge_roster_model_push(m0, now, roster@.take(i as int), roster@[i as int]);
                assert(roster@.take(i + 1) =~= roster@.take(i as int).push(roster@[i as int]));
                lemma_merge_roster_player_wf(mi, now, roster@[i as int]);
                let stepped = merge_roster_player(
                    TrackerModel { players: players_view(self.tracked_players@), by_time: Seq::empty() },
                    now,
                    roster@[i as int],
                );
                assert(merge_roster_player(mi, now, roster@[i as int]).players == merge_roster_player(
                    TrackerModel { players: mi.players, by_time: Seq::empty() },
                    now,
                    roster@[i as int],
                ).players);
            }
            i = i + 1;
        }
        proof {
            assert(roster@.take(n as int) =~= roster@);
            assert(self@ == TrackerModel { players: players_view(self.tracked_players@), by_time: m0.by_time });
        }
    }

    /// Rebuild the whole index from persisted plain values; `None` exactly
    /// when they break the index's invariant or the agreement of its two
    /// maps (a bucket naming an untracked player, or an instant absent
    /// from that player's history). Fields a persisted blob lacked take
    /// their defaults at the caller before this runs.
    pub fn from_parts(
        players: Vec<TrackedPlayer>,
        buckets: Vec<TimeBucket>,
        filter_time_period: TimePeriod,
        sort_order: SortedBy,
        player_filter: String,
    ) -> (r: Option<PlayerTracker>)
        ensures
            ({
                let model = TrackerModel {
                    players: players_view(players@),
                    by_time: buckets_view(buckets@),
                };
                match r {
                    Option::Some(t) => {
                        &&& t.wf()
                        &&& t@.linked()
                        &&& t@ == model
                        &&& t.spec_filter_time_period() == filter_time_period
                        &&& t.spec_sort_order() == sort_order
                        &&& t.spec_player_filter() == player_filter@
                    },
                    Option::None => !(model.wf() && model.linked()),
                }
            }),
    {
        let ghost model = TrackerModel {
            players: players_view(players@),
            by_time: buckets_view(buckets@),
        };
        let n: usize = players.len();
        let mut i: usize = 0;
        while i < n
            invariant
                i <= n,
                n == players@.len(),
                model == (TrackerModel {
                    players: players_view(players@),
                    by_time: buckets_view(buckets@),
                }),
                forall|a: int| 0 <= a < i ==> (#[trigger] model.players[a]).wf(),
                forall|a: int, b: int|
                    0 <= a < b < i ==> (#[trigger] model.players[a]).db_id != (
                    #[trigger] model.players[b]).db_id,
            decreases n - i,
        {
            if !players[i].check_wf() {
                assert(!model.players[i as int].wf());
                return Option::None;
            }
            let mut j: usize = 0;
            while j < i
                invariant
                    j <= i < n,
                    n == players@.len(),
                    model == (TrackerModel {
                        players: players_view(players@),
                        by_time: buckets_view(buckets@),
                    }),
                    forall|a: int|
                        0 <= a < j ==> (#[trigger] model.players[a]).db_id != model.players[i as int].db_id,
                decreases i - j,
            {
                if players[j].db_id == players[i].db_id {
                    assert(model.players[j as int].db_id == model.players[i as int].db_id);
                    return Option::None;
                }
                assert(model.players[j as int].db_id != model.players[i as int].db_id);
                j = j + 1;
            }
            i = i + 1;
        }
        let bn: usize = buckets.len();
        let mut k: usize = 0;
        while bn > 0 && k < bn - 1
            invariant
                bn == buckets@.len(),
                bn > 0 ==> k <= bn - 1,
                bn == 0 ==> k == 0,
                model == (TrackerModel {
                    players: players_view(players@),
                    by_time: buckets_view(buckets@),
                }),
                forall|a: int|
                    0 <= a < k ==> (#[trigger] model.by_time[a]).timestamp < model.by_time[a + 1].timestamp,
            decreases bn - k,
        {
            if buckets[k].timestamp >= buckets[k + 1].timestamp {
                assert(model.by_time[k as int].timestamp >= model.by_time[k + 1].timestamp);
                return Option::None;
            }
            assert(model.by_time[k as int].timestamp < model.by_time[k + 1].timestamp);
            k = k + 1;
        }
        proof {
            let times = model.by_time.map_values(|b: BucketModel| b.timestamp);
            assert forall|a: int| 0 <= a < times.len() - 1 implies #[trigger] times[a] < times[a + 1] by {
                assert(model.by_time[a].timestamp < model.by_time[a + 1].timestamp);
            }
            crate::model::lemma_adjacent_sorted(times);
            assert forall|a: int, b: int|
                0 <= a < b < model.by_time.len() implies (#[trigger] model.by_time[a]).timestamp < (
                #[trigger] model.by_time[b]).timestamp by {
                assert(times[a] < times[b]);
            }
        }
        // the two maps must agree: each bucket entry names a tracked
        // player whose history carries the bucket's instant
        let mut bi: usize = 0;
        while bi < bn
            invariant
                bi <= bn,
                bn == buckets@.len(),
                model == (TrackerModel {
                    players: players_view(players@),
                    by_time: buckets_view(buckets@),
                }),
                forall|i2: int, j2: int|
                    0 <= i2 < bi && 0 <= j2 < model.by_time[i2].ids.len()
                        ==> #[trigger] entry_linked(model, i2, j2),
            decreases bn - bi,
        {
            let idn: usize = buckets[bi].ids.len();
            let mut j: usize = 0;
            while j < idn
                invariant
                    j <= idn,
                    bi < bn,
                    bn == buckets@.len(),
                    idn == buckets@[bi as int].ids@.len(),
                    model == (TrackerModel {
                        players: players_view(players@),
                        by_time: buckets_view(buckets@),
                    }),
                    forall|j2: int| 0 <= j2 < j ==> #[trigger] entry_linked(model, bi as int, j2),
                decreases idn - j,
            {
                let id = buckets[bi].ids[j];
                assert(id == model.by_time[bi as int].ids[j as int]);
                match find_player_index(&players, id) {
                    Option::Some(pi) => {
                        proof {
                            lemma_find_index_by_id(model.players, id);
                        }
                        if !vec_i64_contains(&players[pi].timestamps, buckets[bi].timestamp) {
                            proof {
                                assert(!model.players[pi as int].timestamps.contains(
                                    model.by_time[bi as int].timestamp,
                                ));
                                assert(!entry_linked(model, bi as int, j as int));
                            }
                            return Option::None;
                        }
                        assert(entry_linked(model, bi as int, j as int));
                    },
                    Option::None => {
                        proof {
                            assert(!entry_linked(model, bi as int, j as int));
                        }
                        return Option::None;
                    },
                }
                j = j + 1;
            }
            bi = bi + 1;
        }
        assert(model.linked());
        Option::Some(PlayerTracker {
            tracked_players_by_time: buckets,
            tracked_players: players,
            filter_time_period,
            sort_order,
            player_filter,
        })
    }

    /// Fold a decoded replay into the index. The match instant comes from
    /// the replay's own timestamp text through the machine's local zone,
    /// so the contract promises a merge at some instant; everything else
    /// about the merge is pinned by [`crate::model::merge_match_model`].
    /// A timestamp that does not parse means a malformed replay: the event
    /// is skipped and the index is untouched.
    pub fn update_from_replay(&mut self, replay: &ReplayData) -> (merged: bool)
        requires
            old(self).wf(),
        ensures
            final(self).wf(),
            final(self).same_query_state(*old(self)),
            merged ==> exists|ts: i64|
                final(self)@ == merge_match_model(old(self)@, replay.arena_id, ts, replay.players@),
            !merged ==> *final(self) == *old(self),
    {
        match crate::external::parse_replay_instant(replay.date_time.as_str()) {
            Option::Some(ts) => {
                self.merge_match(replay.arena_id, ts, &replay.players);
                true
            },
            Option::None => false,
        }
    }

    /// Fold a raw arena-metadata blob into the index at the current
    /// instant. The decode is a function of the blob alone, named
    /// [`crate::external::spec_arena_roster`]: the merge happens exactly
    /// when the blob decodes, and folds exactly the decoded roster in —
    /// only the clock instant stays open. What a roster merge does is
    /// pinned by [`crate::model::merge_roster_model`]; a blob that does
    /// not decode leaves the index untouched.
    pub fn update_from_live_arena_info(&mut self, meta: Vec<u8>) -> (merged: bool)
        requires
            old(self).wf(),
        ensures
            final(self).wf(),
            final(self).same_query_state(*old(self)),
            merged == (crate::external::spec_arena_roster(meta@) is Some),
            merged ==> exists|now: i64|
                final(self)@ == #[trigger] merge_roster_model(
                    old(self)@,
                    now,
                    crate::external::spec_arena_roster(meta@)->0,
                ),
            !merged ==> *final(self) == *old(self),
    {
        let ghost blob = meta@;
        match crate::external::decode_arena_roster(meta) {
            Option::Some(roster) => {
                let now = crate::external::now_epoch_secs();
                self.merge_live_roster(now, &roster);
                proof {
                    assert(crate::external::spec_arena_roster(blob)->0 == roster@);
                    assert(self@ == merge_roster_model(old(self)@, now, crate::external::spec_arena_roster(blob)->0));
                }
                true
            },
            Option::None => false,
        }
    }
}

} // verus!
