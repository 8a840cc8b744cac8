//! Laws of the player index, proved about the merge rules of
//! [`crate::model`]. The executable tracker's contracts say its new view is
//! exactly what those rules give, so each law carries over to the running
//! code.

use vstd::prelude::*;

use crate::model::{
    PlayerModel, TrackerModel, find_index_by_id, fresh_player_model, lemma_count_after_monotone,
    lemma_find_index_by_id, lemma_find_index_push, lemma_find_index_update_same_id,
    lemma_merge_match_player_wf, lemma_sorted_insert_props, merge_match_model, merge_match_player,
    merge_roster_model, merge_roster_player, refresh_identity, seq_remove_value, should_refresh,
    sorted_insert,
};
use crate::listing::{listing_spec, rows_of, sort_rows_asc};
use crate::player_tracker::{LivePlayer, ReplayPlayer};
use crate::query::{SortOrder, SortedBy};

verus! {

/// This match is already on the books for this observation: either it is
/// the local player, or the match id is recorded for them.
pub open spec fn match_recorded(m: TrackerModel, arena_id: i64, p: ReplayPlayer) -> bool {
    ||| p.relation == 0
    ||| (m.has_player(p.db_id) && m.player(p.db_id).arena_ids.contains(arena_id))
}

/// Folding one observation never erases a recorded (player, match) pair.
proof fn lemma_step_preserves_record(m: TrackerModel, arena_id: i64, ts: i64, p: ReplayPlayer, id: i64)
    requires
        m.wf(),
        m.has_player(id),
        m.player(id).arena_ids.contains(arena_id),
    ensures
        merge_match_player(m, arena_id, ts, p).has_player(id),
        merge_match_player(m, arena_id, ts, p).player(id).arena_ids.contains(arena_id),
{
    lemma_find_index_by_id(m.players, p.db_id);
    lemma_find_index_by_id(m.players, id);
    let r = merge_match_player(m, arena_id, ts, p);
    let fid = find_index_by_id(m.players, id);
    if p.relation != 0 {
        let idx = find_index_by_id(m.players, p.db_id);
        if !(idx >= 0 && m.players[idx].arena_ids.contains(arena_id)) {
            if p.db_id == id {
                assert(idx == fid);
                assert(false);
            }
            let base = if idx >= 0 {
                m.players[idx]
            } else {
                fresh_player_model(p.db_id)
            };
            let refreshed = refresh_identity(base, p.name@, p.clan@, ts);
            let updated = PlayerModel {
                clan_id: p.clan_id,
                timestamps: sorted_insert(refreshed.timestamps, ts),
                arena_ids: sorted_insert(refreshed.arena_ids, arena_id),
                ..refreshed
            };
            assert(updated.db_id == base.db_id);
            if idx >= 0 {
                assert(m.players[idx].db_id == p.db_id);
                lemma_find_index_update_same_id(m.players, idx, updated, id);
                assert(fid != idx);
                assert(r.players[fid] == m.players[fid]);
            } else {
                lemma_find_index_push(m.players, updated, id);
                assert(r.players[fid] == m.players[fid]);
            }
        }
    }
}

/// Folding a whole match never erases a recorded (player, match) pair.
proof fn lemma_fold_preserves_record(m: TrackerModel, arena_id: i64, ts: i64, ps: Seq<ReplayPlayer>, id: i64)
    requires
        m.wf(),
        m.has_player(id),
        m.player(id).arena_ids.contains(arena_id),
    ensures
        merge_match_model(m, arena_id, ts, ps).has_player(id),
        merge_match_model(m, arena_id, ts, ps).player(id).arena_ids.contains(arena_id),
    decreases ps.len(),
{
    if ps.len() != 0 {
        lemma_step_preserves_record(m, arena_id, ts, ps[0], id);
        lemma_merge_match_player_wf(m, arena_id, ts, ps[0]);
        lemma_fold_preserves_record(merge_match_player(m, arena_id, ts, ps[0]), arena_id, ts, ps.drop_first(), id);
    }
}

/// After one observation is folded, its (player, match) pair is on the
/// books.
proof fn lemma_step_establishes_record(m: TrackerModel, arena_id: i64, ts: i64, p: ReplayPlayer)
    requires
        m.wf(),
        p.relation != 0,
    ensures
        merge_match_player(m, arena_id, ts, p).has_player(p.db_id),
        merge_match_player(m, arena_id, ts, p).player(p.db_id).arena_ids.contains(arena_id),
{
    lemma_find_index_by_id(m.players, p.db_id);
    let r = merge_match_player(m, arena_id, ts, p);
    let idx = find_index_by_id(m.players, p.db_id);
    if !(idx >= 0 && m.players[idx].arena_ids.contains(arena_id)) {
        let base = if idx >= 0 {
            m.players[idx]
        } else {
            fresh_player_model(p.db_id)
        };
        let refreshed = refresh_identity(base, p.name@, p.clan@, ts);
        let updated = PlayerModel {
            clan_id: p.clan_id,
            timestamps: sorted_insert(refreshed.timestamps, ts),
            arena_ids: sorted_insert(refreshed.arena_ids, arena_id),
            ..refreshed
        };
        assert(refreshed.arena_ids == base.arena_ids);
        lemma_sorted_insert_props(refreshed.arena_ids, arena_id);
        assert(updated.db_id == p.db_id);
        if idx >= 0 {
            assert(m.players[idx].db_id == p.db_id);
            lemma_find_index_update_same_id(m.players, idx, updated, p.db_id);
            assert(r.players[idx] == updated);
        } else {
            lemma_find_index_push(m.players, updated, p.db_id);
            assert(r.players[m.players.len() as int] == updated);
        }
    }
}

/// After a whole match is folded, every non-self observation of it is on
/// the books.
proof fn lemma_fold_establishes_records(m: TrackerModel, arena_id: i64, ts: i64, ps: Seq<ReplayPlayer>)
    requires
        m.wf(),
    ensures
        forall|k: int|
            0 <= k < ps.len() ==> #[trigger] match_recorded(
                merge_match_model(m, arena_id, ts, ps),
                arena_id,
                ps[k],
            ),
    decreases ps.len(),
{
    if ps.len() != 0 {
        let m1 = merge_match_player(m, arena_id, ts, ps[0]);
        lemma_merge_match_player_wf(m, arena_id, ts, ps[0]);
        lemma_fold_establishes_records(m1, arena_id, ts, ps.drop_first());
        let r = merge_match_model(m, arena_id, ts, ps);
        assert forall|k: int| 0 <= k < ps.len() implies #[trigger] match_recorded(
            r,
            arena_id,
            ps[k],
        ) by {
            if k == 0 {
                if ps[0].relation != 0 {
                    lemma_step_establishes_record(m, arena_id, ts, ps[0]);
                    lemma_fold_preserves_record(m1, arena_id, ts, ps.drop_first(), ps[0].db_id);
                }
            } else {
                assert(ps.drop_first()[k - 1] == ps[k]);
                assert(match_recorded(merge_match_model(m1, arena_id, ts, ps.drop_first()), arena_id, ps.drop_first()[k - 1]));
            }
        }
    }
}

/// A match whose every observation is already on the books folds to
/// nothing.
proof fn lemma_fold_noop(m: TrackerModel, arena_id: i64, ts: i64, ps: Seq<ReplayPlayer>)
    requires
        forall|k: int| 0 <= k < ps.len() ==> #[trigger] match_recorded(m, arena_id, ps[k]),
    ensures
        merge_match_model(m, arena_id, ts, ps) == m,
    decreases ps.len(),
{
    if ps.len() != 0 {
        assert(match_recorded(m, arena_id, ps[0]));
        lemma_find_index_by_id(m.players, ps[0].db_id);
        assert(merge_match_player(m, arena_id, ts, ps[0]) == m);
        assert forall|k: int| 0 <= k < ps.drop_first().len() implies #[trigger] match_recorded(
            m,
            arena_id,
            ps.drop_first()[k],
        ) by {
            assert(ps.drop_first()[k] == ps[k + 1]);
            assert(match_recorded(m, arena_id, ps[k + 1]));
        }
        lemma_fold_noop(m, arena_id, ts, ps.drop_first());
    }
}

/// Idempotent merge: folding the same match in twice, for the same player
/// list and instant, leaves exactly the state of folding it once — no
/// duplicate instants, match ids or counts.
pub proof fn lemma_merge_match_idempotent(m: TrackerModel, arena_id: i64, ts: i64, ps: Seq<ReplayPlayer>)
    requires
        m.wf(),
    ensures
        merge_match_model(merge_match_model(m, arena_id, ts, ps), arena_id, ts, ps)
            == merge_match_model(m, arena_id, ts, ps),
{
    lemma_fold_establishes_records(m, arena_id, ts, ps);
    lemma_fold_noop(merge_match_model(m, arena_id, ts, ps), arena_id, ts, ps);
}

/// Folding an observation that is not about `id` (or is the local player)
/// never makes `id` tracked.
proof fn lemma_step_adds_no_stranger(m: TrackerModel, arena_id: i64, ts: i64, p: ReplayPlayer, id: i64)
    requires
        !m.has_player(id),
        p.db_id == id ==> p.relation == 0,
    ensures
        !merge_match_player(m, arena_id, ts, p).has_player(id),
{
    lemma_find_index_by_id(m.players, p.db_id);
    lemma_find_index_by_id(m.players, id);
    if p.relation != 0 {
        let idx = find_index_by_id(m.players, p.db_id);
        if !(idx >= 0 && m.players[idx].arena_ids.contains(arena_id)) {
            let base = if idx >= 0 {
                m.players[idx]
            } else {
                fresh_player_model(p.db_id)
            };
            let refreshed = refresh_identity(base, p.name@, p.clan@, ts);
            let updated = PlayerModel {
                clan_id: p.clan_id,
                timestamps: sorted_insert(refreshed.timestamps, ts),
                arena_ids: sorted_insert(refreshed.arena_ids, arena_id),
                ..refreshed
            };
            if idx >= 0 {
                lemma_find_index_update_same_id(m.players, idx, updated, id);
            } else {
                lemma_find_index_push(m.players, updated, id);
            }
        }
    }
}

/// The roster counterpart of [`lemma_step_adds_no_stranger`].
proof fn lemma_roster_step_adds_no_stranger(m: TrackerModel, now: i64, p: LivePlayer, id: i64)
    requires
        !m.has_player(id),
        p.db_id == id ==> p.relation == 0,
    ensures
        !merge_roster_player(m, now, p).has_player(id),
{
    lemma_find_index_by_id(m.players, p.db_id);
    lemma_find_index_by_id(m.players, id);
    if p.relation != 0 {
        let idx = find_index_by_id(m.players, p.db_id);
        let base = if idx >= 0 {
            m.players[idx]
        } else {
            fresh_player_model(p.db_id)
        };
        let refreshed = refresh_identity(base, p.name@, base.clan, now);
        let updated = PlayerModel { timestamps: sorted_insert(refreshed.timestamps, now), ..refreshed };
        if idx >= 0 {
            lemma_find_index_update_same_id(m.players, idx, updated, id);
        } else {
            lemma_find_index_push(m.players, updated, id);
        }
    }
}

/// Self exclusion, match folds: a player whose every observation in the
/// match is flagged as the local player never enters the index.
pub proof fn lemma_self_excluded_match(m: TrackerModel, arena_id: i64, ts: i64, ps: Seq<ReplayPlayer>, id: i64)
    requires
        !m.has_player(id),
        forall|k: int| 0 <= k < ps.len() ==> ((#[trigger] ps[k]).db_id == id ==> ps[k].relation == 0),
    ensures
        !merge_match_model(m, arena_id, ts, ps).has_player(id),
    decreases ps.len(),
{
    if ps.len() != 0 {
        lemma_step_adds_no_stranger(m, arena_id, ts, ps[0], id);
        assert forall|k: int|
            0 <= k < ps.drop_first().len() && (#[trigger] ps.drop_first()[k]).db_id == id
            implies ps.drop_first()[k].relation == 0 by {
            assert(ps.drop_first()[k] == ps[k + 1]);
        }
        lemma_self_excluded_match(merge_match_player(m, arena_id, ts, ps[0]), arena_id, ts, ps.drop_first(), id);
    }
}

/// Self exclusion, roster folds: the same for arena rosters at match
/// start.
pub proof fn lemma_self_excluded_roster(m: TrackerModel, now: i64, ps: Seq<LivePlayer>, id: i64)
    requires
        !m.has_player(id),
        forall|k: int| 0 <= k < ps.len() ==> ((#[trigger] ps[k]).db_id == id ==> ps[k].relation == 0),
    ensures
        !merge_roster_model(m, now, ps).has_player(id),
    decreases ps.len(),
{
    if ps.len() != 0 {
        lemma_roster_step_adds_no_stranger(m, now, ps[0], id);
        assert forall|k: int|
            0 <= k < ps.drop_first().len() && (#[trigger] ps.drop_first()[k]).db_id == id
            implies ps.drop_first()[k].relation == 0 by {
            assert(ps.drop_first()[k] == ps[k + 1]);
        }
        lemma_self_excluded_roster(merge_roster_player(m, now, ps[0]), now, ps.drop_first(), id);
    }
}

/// Name-change aliasing: a player first seen as `p1.name` at `t1`, then as
/// `p2.name` in a different match at a later `t2`, ends with the new name
/// current and exactly the old name as alias.
pub proof fn lemma_name_change_alias(m: TrackerModel, a1: i64, t1: i64, a2: i64, t2: i64, p1: ReplayPlayer, p2: ReplayPlayer)
    requires
        m.wf(),
        !m.has_player(p1.db_id),
        p2.db_id == p1.db_id,
        p1.relation != 0,
        p2.relation != 0,
        t1 < t2,
        a1 != a2,
        p1.name@ != p2.name@,
        p1.name@.len() > 0,
    ensures
        ({
            let r = merge_match_player(merge_match_player(m, a1, t1, p1), a2, t2, p2);
            &&& r.has_player(p1.db_id)
            &&& r.player(p1.db_id).last_name == p2.name@
            &&& r.player(p1.db_id).names == seq![p1.name@]
        }),
{
    let id = p1.db_id;
    lemma_find_index_by_id(m.players, id);
    let fresh = fresh_player_model(id);
    assert(should_refresh(fresh, t1));
    let refreshed1 = refresh_identity(fresh, p1.name@, p1.clan@, t1);
    assert(refreshed1.names == seq_remove_value(fresh.names, p1.name@));
    assert(refreshed1.names == Seq::<Seq<char>>::empty());
    assert(refreshed1.last_name == p1.name@);
    let u1 = PlayerModel {
        clan_id: p1.clan_id,
        timestamps: sorted_insert(refreshed1.timestamps, t1),
        arena_ids: sorted_insert(refreshed1.arena_ids, a1),
        ..refreshed1
    };
    assert(u1.timestamps =~= seq![t1]);
    assert(u1.arena_ids =~= seq![a1]);
    let m1 = merge_match_player(m, a1, t1, p1);
    assert(m1.players == m.players.push(u1));
    lemma_find_index_push(m.players, u1, id);
    let n = m.players.len() as int;
    assert(find_index_by_id(m1.players, id) == n);
    assert(m1.players[n] == u1);

    // second fold: the match differs, the instant is newer
    assert(!u1.arena_ids.contains(a2)) by {
        if u1.arena_ids.contains(a2) {
            let k = choose|k: int| 0 <= k < u1.arena_ids.len() && u1.arena_ids[k] == a2;
            assert(u1.arena_ids[0] == a1);
        }
    }
    assert(should_refresh(u1, t2)) by {
        assert(u1.timestamps[0] == t1);
    }
    let pushed = u1.names.push(u1.last_name);
    assert(pushed =~= seq![p1.name@]);
    let refreshed2 = refresh_identity(u1, p2.name@, p2.clan@, t2);
    assert(refreshed2.names == seq_remove_value(pushed, p2.name@));
    assert(seq_remove_value(pushed, p2.name@) =~= seq![p1.name@]) by {
        assert(pushed[0] == p1.name@);
        assert(pushed.drop_first() =~= Seq::<Seq<char>>::empty());
        assert(seq_remove_value(pushed.drop_first(), p2.name@) == Seq::<Seq<char>>::empty());
        assert(seq_remove_value(pushed, p2.name@) == seq![pushed[0]] + Seq::<Seq<char>>::empty());
    }
    assert(refreshed2.last_name == p2.name@);
    let u2 = PlayerModel {
        clan_id: p2.clan_id,
        timestamps: sorted_insert(refreshed2.timestamps, t2),
        arena_ids: sorted_insert(refreshed2.arena_ids, a2),
        ..refreshed2
    };
    let r = merge_match_player(m1, a2, t2, p2);
    assert(r.players == m1.players.update(n, u2));
    lemma_find_index_update_same_id(m1.players, n, u2, id);
    assert(find_index_by_id(r.players, id) == n);
    assert(r.players[n] == u2);
}

/// Sort toggle: selecting the same column twice in a row flips the
/// direction, and the listing comes back exactly reversed; selecting a
/// column not in charge installs it as selected.
pub proof fn lemma_sort_toggle(m: TrackerModel, start: Option<i64>, filter: Seq<char>, s0: SortedBy, selection: SortedBy)
    ensures
        ({
            let s1 = s0.spec_transition_to(selection);
            let s2 = s1.spec_transition_to(selection);
            listing_spec(m, start, filter, s2) == listing_spec(m, start, filter, s1).reverse()
        }),
        !s0.same_key(selection) ==> s0.spec_transition_to(selection) == selection,
{
    let s1 = s0.spec_transition_to(selection);
    let s2 = s1.spec_transition_to(selection);
    assert(s1.same_key(selection));
    let rows = rows_of(m.players, m, start, filter);
    let canonical = s1.spec_with_order(SortOrder::Asc);
    assert(s2.spec_with_order(SortOrder::Asc) == canonical);
    assert(s2.spec_order() == s1.spec_order().spec_toggle());
    let asc = sort_rows_asc(rows, canonical);
    match s1.spec_order() {
        SortOrder::Asc => {
            // the second listing is the reversed ascending order outright
        },
        SortOrder::Desc => {
            assert(asc.reverse().reverse() =~= asc);
        },
    }
}

/// Time-window monotonicity: moving the window start earlier never lowers
/// a player's encounter count in the window.
pub proof fn lemma_encounters_window_monotone(p: PlayerModel, s1: i64, s2: i64)
    requires
        s1 <= s2,
    ensures
        p.encounters_after(s1) >= p.encounters_after(s2),
{
    lemma_count_after_monotone(p.timestamps, s1, s2);
}

} // verus!
