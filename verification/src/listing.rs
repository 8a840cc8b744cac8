//! The player listing: candidates drawn from the time-bucketed index,
//! filtered by a case-insensitive name fragment, one row per player, sorted
//! by the selected key. The listing is recomputed on every query; nothing
//! incremental is kept beyond the index's two maps.

use vstd::prelude::*;
use vstd::utf8::encode_utf8;

use crate::model::{BucketModel, PlayerModel, TrackerModel};
use crate::player_tracker::{PlayerTracker, TimeBucket, TrackedPlayer, buckets_view, players_view};
use crate::query::{SortOrder, SortedBy, TimePeriod};
use crate::text::{ci_contains, ci_contains_bytes, lex_cmp_bytes, byte_lex_cmp};

verus! {

/// One row of the listing, ready for display.
pub struct PlayerRow {
    pub db_id: i64,
    pub last_name: String,
    pub clan: String,
    /// The most recent encounter instant.
    pub last_encounter: i64,
    /// Matches counted over the whole history.
    pub total_encounters: usize,
    /// Encounters within the active window; the total when none is set.
    pub encounters_in_window: usize,
}

/// Ghost mirror of one row.
#[verifier::ext_equal]
pub struct RowModel {
    pub db_id: i64,
    pub name: Seq<char>,
    pub clan: Seq<char>,
    pub last_encounter: i64,
    pub total_encounters: int,
    pub encounters_in_window: int,
}

impl View for PlayerRow {
    type V = RowModel;

    open spec fn view(&self) -> RowModel {
        RowModel {
            db_id: self.db_id,
            name: self.last_name@,
            clan: self.clan@,
            last_encounter: self.last_encounter,
            total_encounters: self.total_encounters as int,
            encounters_in_window: self.encounters_in_window as int,
        }
    }
}

/// The row a player produces under a window.
pub open spec fn row_of(p: PlayerModel, start: Option<i64>) -> RowModel {
    RowModel {
        db_id: p.db_id,
        name: p.last_name,
        clan: p.clan,
        last_encounter: p.newest_encounter(),
        total_encounters: p.total_encounters() as int,
        encounters_in_window: p.encounters_in_window(start) as int,
    }
}

/// A bucket falls inside the window: strictly after its start, or any
/// bucket when no window is set.
pub open spec fn bucket_in_window(b: BucketModel, start: Option<i64>) -> bool {
    match start {
        Some(s) => b.timestamp > s,
        None => true,
    }
}

/// The id was observed in some bucket inside the window.
pub open spec fn in_candidates(m: TrackerModel, start: Option<i64>, id: i64) -> bool {
    exists|i: int|
        0 <= i < m.by_time.len() && #[trigger] bucket_in_window(m.by_time[i], start)
            && m.by_time[i].ids.contains(id)
}

/// The filter fragment occurs, up to ASCII case, in the clan tag, the
/// current name or an alias; the empty fragment matches everyone.
pub open spec fn name_filter_matches(p: PlayerModel, filter: Seq<char>) -> bool {
    ||| filter.len() == 0
    ||| ci_contains(encode_utf8(p.clan), encode_utf8(filter))
    ||| ci_contains(encode_utf8(p.last_name), encode_utf8(filter))
    ||| exists|i: int|
        0 <= i < p.names.len() && ci_contains(encode_utf8(#[trigger] p.names[i]), encode_utf8(filter))
}

/// A player is listed when within the window's candidates and through the
/// name filter.
pub open spec fn listed(m: TrackerModel, start: Option<i64>, filter: Seq<char>, p: PlayerModel) -> bool {
    in_candidates(m, start, p.db_id) && name_filter_matches(p, filter)
}

/// The unsorted rows: the listed players of `players`, in order, each as a
/// row.
pub open spec fn rows_of(players: Seq<PlayerModel>, m: TrackerModel, start: Option<i64>, filter: Seq<char>) -> Seq<RowModel>
    decreases players.len(),
{
    if players.len() == 0 {
        Seq::empty()
    } else {
        let rest = rows_of(players.drop_last(), m, start, filter);
        if listed(m, start, filter, players.last()) {
            rest.push(row_of(players.last(), start))
        } else {
            rest
        }
    }
}

/// Three-way comparison of two integers.
pub open spec fn cmp_int(a: int, b: int) -> int {
    if a < b {
        -1
    } else if a > b {
        1
    } else {
        0
    }
}

/// Three-way comparison of two rows under a column, ignoring the key's
/// direction. Names and clans order as their UTF-8 bytes do, which is the
/// order `String` comparison gives.
pub open spec fn key_cmp(a: RowModel, b: RowModel, key: SortedBy) -> int {
    match key {
        SortedBy::Name(_) => lex_cmp_bytes(encode_utf8(a.name), encode_utf8(b.name)),
        SortedBy::Clan(_) => lex_cmp_bytes(encode_utf8(a.clan), encode_utf8(b.clan)),
        SortedBy::LastEncountered(_) => cmp_int(a.last_encounter as int, b.last_encounter as int),
        SortedBy::TimesEncountered(_) => cmp_int(a.total_encounters, b.total_encounters),
        SortedBy::TimesEncounteredInTimeRange(_) => cmp_int(
            a.encounters_in_window,
            b.encounters_in_window,
        ),
    }
}

/// Strict row order: the column first, ties broken by id, so that two rows
/// of distinct players always order one way.
pub open spec fn row_lt(a: RowModel, b: RowModel, key: SortedBy) -> bool {
    key_cmp(a, b, key) < 0 || (key_cmp(a, b, key) == 0 && a.db_id < b.db_id)
}

/// Insert a row into an ascending sequence, before the first row it
/// precedes.
pub open spec fn insert_row_asc(s: Seq<RowModel>, x: RowModel, key: SortedBy) -> Seq<RowModel>
    decreases s.len(),
{
    if s.len() == 0 {
        seq![x]
    } else if row_lt(x, s[0], key) {
        seq![x] + s
    } else {
        seq![s[0]] + insert_row_asc(s.drop_first(), x, key)
    }
}

/// Ascending insertion sort of the rows.
pub open spec fn sort_rows_asc(s: Seq<RowModel>, key: SortedBy) -> Seq<RowModel>
    decreases s.len(),
{
    if s.len() == 0 {
        s
    } else {
        insert_row_asc(sort_rows_asc(s.drop_last(), key), s.last(), key)
    }
}

/// The rows sorted per the key's direction: descending is exactly the
/// ascending order read backwards.
pub open spec fn sort_rows(s: Seq<RowModel>, sorted_by: SortedBy) -> Seq<RowModel> {
    let canonical = sorted_by.spec_with_order(SortOrder::Asc);
    match sorted_by.spec_order() {
        SortOrder::Asc => sort_rows_asc(s, canonical),
        SortOrder::Desc => sort_rows_asc(s, canonical).reverse(),
    }
}

/// The whole listing of an index under a window start, a filter and a sort
/// state.
pub open spec fn listing_spec(m: TrackerModel, start: Option<i64>, filter: Seq<char>, sorted_by: SortedBy) -> Seq<RowModel> {
    sort_rows(rows_of(m.players, m, start, filter), sorted_by)
}

/// Two rows never order both ways.
pub proof fn lemma_row_lt_asym(a: RowModel, b: RowModel, key: SortedBy)
    ensures
        !(row_lt(a, b, key) && row_lt(b, a, key)),
{
    match key {
        SortedBy::Name(_) => {
            crate::text::lemma_lex_cmp_antisym(encode_utf8(a.name), encode_utf8(b.name));
        },
        SortedBy::Clan(_) => {
            crate::text::lemma_lex_cmp_antisym(encode_utf8(a.clan), encode_utf8(b.clan));
        },
        _ => {},
    }
}

/// The row order chains.
pub proof fn lemma_row_lt_trans(a: RowModel, b: RowModel, c: RowModel, key: SortedBy)
    requires
        row_lt(a, b, key),
        row_lt(b, c, key),
    ensures
        row_lt(a, c, key),
{
    match key {
        SortedBy::Name(_) => {
            lemma_lex_key_trans(a.name, b.name, c.name);
        },
        SortedBy::Clan(_) => {
            lemma_lex_key_trans(a.clan, b.clan, c.clan);
        },
        _ => {},
    }
}

/// Chaining for a text column: a zero comparison means equal bytes, which
/// substitute; strict steps chain strictly.
proof fn lemma_lex_key_trans(a: Seq<char>, b: Seq<char>, c: Seq<char>)
    requires
        lex_cmp_bytes(encode_utf8(a), encode_utf8(b)) <= 0,
        lex_cmp_bytes(encode_utf8(b), encode_utf8(c)) <= 0,
    ensures
        lex_cmp_bytes(encode_utf8(a), encode_utf8(c)) <= 0,
        lex_cmp_bytes(encode_utf8(a), encode_utf8(b)) == 0 && lex_cmp_bytes(
            encode_utf8(b),
            encode_utf8(c),
        ) == 0 ==> lex_cmp_bytes(encode_utf8(a), encode_utf8(c)) == 0,
        lex_cmp_bytes(encode_utf8(a), encode_utf8(b)) < 0 || lex_cmp_bytes(
            encode_utf8(b),
            encode_utf8(c),
        ) < 0 ==> lex_cmp_bytes(encode_utf8(a), encode_utf8(c)) < 0,
{
    let ea = encode_utf8(a);
    let eb = encode_utf8(b);
    let ec = encode_utf8(c);
    crate::text::lemma_lex_cmp_eq(ea, eb);
    crate::text::lemma_lex_cmp_eq(eb, ec);
    crate::text::lemma_lex_cmp_eq(ea, ec);
    crate::text::lemma_lex_cmp_trans(ea, eb, ec);
}

/// Every row of an insertion is the inserted one or one of the old rows.
proof fn lemma_insert_row_elems(s: Seq<RowModel>, x: RowModel, key: SortedBy)
    ensures
        forall|j: int|
            0 <= j < insert_row_asc(s, x, key).len() ==> (#[trigger] insert_row_asc(s, x, key)[j])
                == x || s.contains(insert_row_asc(s, x, key)[j]),
    decreases s.len(),
{
    let r = insert_row_asc(s, x, key);
    if s.len() == 0 {
    } else if row_lt(x, s[0], key) {
        assert forall|j: int| 0 <= j < r.len() implies (#[trigger] r[j]) == x || s.contains(r[j]) by {
            if j > 0 {
                assert(r[j] == s[j - 1]);
            }
        }
    } else {
        let t = s.drop_first();
        lemma_insert_row_elems(t, x, key);
        let rt = insert_row_asc(t, x, key);
        assert forall|j: int| 0 <= j < r.len() implies (#[trigger] r[j]) == x || s.contains(r[j]) by {
            if j == 0 {
                assert(r[0] == s[0]);
            } else {
                assert(r[j] == rt[j - 1]);
                if rt[j - 1] != x {
                    assert(t.contains(rt[j - 1]));
                    let k = choose|k: int| 0 <= k < t.len() && t[k] == rt[j - 1];
                    assert(s[k + 1] == rt[j - 1]);
                }
            }
        }
    }
}

/// No later row precedes an earlier one.
pub open spec fn rows_sorted(s: Seq<RowModel>, key: SortedBy) -> bool {
    forall|i: int, j: int| 0 <= i < j < s.len() ==> !row_lt(#[trigger] s[j], #[trigger] s[i], key)
}

/// Inserting into an ordered row sequence keeps it ordered.
proof fn lemma_insert_row_keeps_sorted(s: Seq<RowModel>, x: RowModel, key: SortedBy)
    requires
        rows_sorted(s, key),
    ensures
        rows_sorted(insert_row_asc(s, x, key), key),
    decreases s.len(),
{
    let r = insert_row_asc(s, x, key);
    if s.len() == 0 {
        assert forall|i: int, j: int| 0 <= i < j < r.len() implies !row_lt(r[j], r[i], key) by {}
    } else if row_lt(x, s[0], key) {
        assert forall|i: int, j: int| 0 <= i < j < r.len() implies !row_lt(r[j], r[i], key) by {
            if i == 0 {
                assert(r[j] == s[j - 1]);
                if row_lt(s[j - 1], x, key) {
                    if j == 1 {
                        lemma_row_lt_asym(x, s[0], key);
                    } else {
                        lemma_row_lt_trans(s[j - 1], x, s[0], key);
                        assert(row_lt(s[j - 1], s[0], key));
                    }
                    assert(false);
                }
            } else {
                assert(r[i] == s[i - 1]);
                assert(r[j] == s[j - 1]);
            }
        }
    } else {
        let t = s.drop_first();
        assert(rows_sorted(t, key)) by {
            assert forall|i: int, j: int|
                0 <= i < j < t.len() implies !row_lt(#[trigger] t[j], #[trigger] t[i], key) by {
                assert(t[i] == s[i + 1]);
                assert(t[j] == s[j + 1]);
            }
        }
        lemma_insert_row_keeps_sorted(t, x, key);
        lemma_insert_row_elems(t, x, key);
        let rt = insert_row_asc(t, x, key);
        assert forall|i: int, j: int| 0 <= i < j < r.len() implies !row_lt(r[j], r[i], key) by {
            if i == 0 {
                assert(r[0] == s[0]);
                assert(r[j] == rt[j - 1]);
                if rt[j - 1] == x {
                    // the head did not precede x, so x does not precede it
                    // the other way either
                    assert(!row_lt(x, s[0], key));
                } else {
                    assert(t.contains(rt[j - 1]));
                    let k = choose|k: int| 0 <= k < t.len() && t[k] == rt[j - 1];
                    assert(s[k + 1] == rt[j - 1]);
                    assert(!row_lt(s[k + 1], s[0], key));
                }
            } else {
                assert(r[i] == rt[i - 1]);
                assert(r[j] == rt[j - 1]);
            }
        }
    }
}

/// The ascending sort is ordered: wherever one row stands before another,
/// the later one does not precede it under the key.
pub proof fn lemma_sort_rows_asc_sorted(s: Seq<RowModel>, key: SortedBy)
    ensures
        rows_sorted(sort_rows_asc(s, key), key),
    decreases s.len(),
{
    if s.len() != 0 {
        lemma_sort_rows_asc_sorted(s.drop_last(), key);
        lemma_insert_row_keeps_sorted(sort_rows_asc(s.drop_last(), key), s.last(), key);
    }
}

/// Splicing a row in adds exactly that row to the bag of rows.
proof fn lemma_cons_multiset(s: Seq<RowModel>, x: RowModel)
    ensures
        (seq![x] + s).to_multiset() == s.to_multiset().insert(x),
{
    broadcast use vstd::seq_lib::group_to_multiset_ensures;

    let t = seq![x] + s;
    assert(t.remove(0) =~= s);
    assert(t[0] == x);
    assert(t.remove(0).to_multiset() =~= t.to_multiset().remove(x));
    assert(t.to_multiset().contains(x)) by {
        assert(t.contains(x));
    }
    assert(t.to_multiset() =~= s.to_multiset().insert(x));
}

/// Insertion adds exactly the inserted row to the bag of rows.
proof fn lemma_insert_row_multiset(s: Seq<RowModel>, x: RowModel, key: SortedBy)
    ensures
        insert_row_asc(s, x, key).to_multiset() == s.to_multiset().insert(x),
    decreases s.len(),
{
    broadcast use vstd::seq_lib::group_to_multiset_ensures;

    if s.len() == 0 {
        assert(insert_row_asc(s, x, key) =~= Seq::<RowModel>::empty().push(x));
        assert(s.to_multiset() =~= Seq::<RowModel>::empty().to_multiset());
    } else if row_lt(x, s[0], key) {
        lemma_cons_multiset(s, x);
    } else {
        let t = s.drop_first();
        lemma_insert_row_multiset(t, x, key);
        let rt = insert_row_asc(t, x, key);
        lemma_cons_multiset(rt, s[0]);
        lemma_cons_multiset(t, s[0]);
        assert(seq![s[0]] + t =~= s);
        assert(t.to_multiset().insert(x).insert(s[0]) =~= t.to_multiset().insert(s[0]).insert(x));
    }
}

/// The sort hands back exactly the rows it was given, reordered.
pub proof fn lemma_sort_rows_asc_permutes(s: Seq<RowModel>, key: SortedBy)
    ensures
        sort_rows_asc(s, key).to_multiset() == s.to_multiset(),
    decreases s.len(),
{
    broadcast use vstd::seq_lib::group_to_multiset_ensures;

    if s.len() != 0 {
        lemma_sort_rows_asc_permutes(s.drop_last(), key);
        lemma_insert_row_multiset(sort_rows_asc(s.drop_last(), key), s.last(), key);
        assert(s =~= s.drop_last().push(s.last()));
        assert(s.to_multiset() =~= s.drop_last().to_multiset().insert(s.last()));
    }
}

/// What the whole listing yields: exactly the rows of the listed players,
/// ordered by the selected column — read forwards when ascending, and
/// backwards when descending.
pub proof fn lemma_listing_shape(m: TrackerModel, start: Option<i64>, filter: Seq<char>, sorted_by: SortedBy)
    ensures
        listing_spec(m, start, filter, sorted_by).to_multiset() == rows_of(
            m.players,
            m,
            start,
            filter,
        ).to_multiset(),
        sorted_by.spec_order() is Asc ==> rows_sorted(
            listing_spec(m, start, filter, sorted_by),
            sorted_by.spec_with_order(SortOrder::Asc),
        ),
        sorted_by.spec_order() is Desc ==> rows_sorted(
            listing_spec(m, start, filter, sorted_by).reverse(),
            sorted_by.spec_with_order(SortOrder::Asc),
        ),
{
    let rows = rows_of(m.players, m, start, filter);
    let canonical = sorted_by.spec_with_order(SortOrder::Asc);
    let asc = sort_rows_asc(rows, canonical);
    lemma_sort_rows_asc_sorted(rows, canonical);
    lemma_sort_rows_asc_permutes(rows, canonical);
    match sorted_by.spec_order() {
        SortOrder::Asc => {},
        SortOrder::Desc => {
            asc.reverse().lemma_reverse_to_multiset();
            assert(asc.reverse().reverse() =~= asc);
        },
    }
}

impl PlayerRow {
    /// Attention band of this row's windowed count; see
    /// [`crate::query::spec_severity_band`].
    pub fn severity(&self) -> (r: crate::query::SeverityBand)
        ensures
            r == crate::query::spec_severity_band(self@.encounters_in_window as nat),
    {
        crate::query::severity_band(self.encounters_in_window)
    }
}

/// Whether `id` was observed in a bucket inside the window.
fn id_in_window(tracker: &PlayerTracker, start: Option<i64>, id: i64) -> (r: bool)
    ensures
        r == in_candidates(tracker@, start, id),
{
    let buckets = tracker.buckets();
    let n: usize = buckets.len();
    let mut i: usize = 0;
    while i < n
        invariant
            i <= n,
            n == buckets@.len(),
            buckets_view(buckets@) == tracker@.by_time,
            forall|j: int|
                0 <= j < i ==> !(#[trigger] bucket_in_window(tracker@.by_time[j], start)
                    && tracker@.by_time[j].ids.contains(id)),
        decreases n - i,
    {
        let b = &buckets[i];
        let inside = match start {
            Option::Some(s) => b.timestamp() > s,
            Option::None => true,
        };
        assert(inside == bucket_in_window(tracker@.by_time[i as int], start));
        if inside {
            let ids = b.ids();
            let k: usize = ids.len();
            let mut j: usize = 0;
            while j < k
                invariant
                    j <= k,
                    k == ids@.len(),
                    0 <= i < tracker@.by_time.len(),
                    ids@ == tracker@.by_time[i as int].ids,
                    bucket_in_window(tracker@.by_time[i as int], start),
                    forall|l: int| 0 <= l < j ==> ids@[l] != id,
                decreases k - j,
            {
                if ids[j] == id {
                    assert(tracker@.by_time[i as int].ids.contains(id)) by {
                        assert(ids@[j as int] == id);
                    }
                    assert(bucket_in_window(tracker@.by_time[i as int], start));
                    return true;
                }
                j = j + 1;
            }
            assert(!tracker@.by_time[i as int].ids.contains(id));
        }
        i = i + 1;
    }
    false
}

/// Whether the filter fragment matches this player; see
/// [`name_filter_matches`].
fn matches_filter(p: &TrackedPlayer, filter: &String) -> (r: bool)
    ensures
        r == name_filter_matches(p@, filter@),
{
    if filter.as_str().is_empty() {
        return true;
    }
    let fb: &[u8] = filter.as_str().as_bytes();
    assert(fb@ == encode_utf8(filter@));
    let cb: &[u8] = p.clan().as_str().as_bytes();
    assert(cb@ == encode_utf8(p@.clan));
    if ci_contains_bytes(cb, fb) {
        return true;
    }
    let lb: &[u8] = p.last_name().as_str().as_bytes();
    assert(lb@ == encode_utf8(p@.last_name));
    if ci_contains_bytes(lb, fb) {
        return true;
    }
    let names = p.aliases();
    let ghost name_views = names@.map_values(|n: String| n@);
    let n: usize = names.len();
    let mut i: usize = 0;
    while i < n
        invariant
            i <= n,
            n == names@.len(),
            name_views == names@.map_values(|m: String| m@),
            name_views == p@.names,
            fb@ == encode_utf8(filter@),
            forall|j: int|
                0 <= j < i ==> !ci_contains(encode_utf8(#[trigger] p@.names[j]), encode_utf8(filter@)),
        decreases n - i,
    {
        let nb: &[u8] = names[i].as_str().as_bytes();
        proof {
            assert(names@[i as int]@ == p@.names[i as int]);
            assert(nb@ == encode_utf8(p@.names[i as int]));
        }
        if ci_contains_bytes(nb, fb) {
            assert(ci_contains(encode_utf8(p@.names[i as int]), encode_utf8(filter@)));
            return true;
        }
        i = i + 1;
    }
    false
}

/// Compare two rows under the selected column, ignoring direction.
fn key_cmp_exec(a: &PlayerRow, b: &PlayerRow, key: SortedBy) -> (r: i8)
    ensures
        r as int == key_cmp(a@, b@, key),
{
    match key {
        SortedBy::Name(_) => byte_lex_cmp(a.last_name.as_str().as_bytes(), b.last_name.as_str().as_bytes()),
        SortedBy::Clan(_) => byte_lex_cmp(a.clan.as_str().as_bytes(), b.clan.as_str().as_bytes()),
        SortedBy::LastEncountered(_) => {
            if a.last_encounter < b.last_encounter {
                -1
            } else if a.last_encounter > b.last_encounter {
                1
            } else {
                0
            }
        },
        SortedBy::TimesEncountered(_) => {
            if a.total_encounters < b.total_encounters {
                -1
            } else if a.total_encounters > b.total_encounters {
                1
            } else {
                0
            }
        },
        SortedBy::TimesEncounteredInTimeRange(_) => {
            if a.encounters_in_window < b.encounters_in_window {
                -1
            } else if a.encounters_in_window > b.encounters_in_window {
                1
            } else {
                0
            }
        },
    }
}

/// Whether `a` orders strictly before `b`; see [`row_lt`].
fn row_lt_exec(a: &PlayerRow, b: &PlayerRow, key: SortedBy) -> (r: bool)
    ensures
        r == row_lt(a@, b@, key),
{
    let c = key_cmp_exec(a, b, key);
    if c < 0 {
        true
    } else if c == 0 {
        a.db_id < b.db_id
    } else {
        false
    }
}

/// The recursive insertion lands at the first index whose row the new one
/// precedes.
proof fn lemma_insert_row_splice(s: Seq<RowModel>, x: RowModel, key: SortedBy, k: int)
    requires
        0 <= k <= s.len(),
        forall|i: int| 0 <= i < k ==> !row_lt(x, #[trigger] s[i], key),
        k < s.len() ==> row_lt(x, s[k], key),
    ensures
        insert_row_asc(s, x, key) == s.take(k) + seq![x] + s.skip(k),
    decreases k,
{
    if k == 0 {
        if s.len() == 0 {
            assert(insert_row_asc(s, x, key) =~= s.take(0) + seq![x] + s.skip(0));
        } else {
            assert(seq![x] + s =~= s.take(0) + seq![x] + s.skip(0));
        }
    } else {
        let t = s.drop_first();
        assert(!row_lt(x, s[0], key));
        assert forall|i: int| 0 <= i < k - 1 implies !row_lt(x, #[trigger] t[i], key) by {
            assert(t[i] == s[i + 1]);
        }
        if k < s.len() {
            assert(t[k - 1] == s[k]);
        }
        lemma_insert_row_splice(t, x, key, k - 1);
        assert(seq![s[0]] + (t.take(k - 1) + seq![x] + t.skip(k - 1)) =~= s.take(k) + seq![x]
            + s.skip(k));
    }
}

/// Insert one row into an ascending vector; see [`insert_row_asc`].
fn insert_row_sorted(v: &mut Vec<PlayerRow>, x: PlayerRow, key: SortedBy)
    ensures
        final(v)@.map_values(|r: PlayerRow| r@) == insert_row_asc(
            old(v)@.map_values(|r: PlayerRow| r@),
            x@,
            key,
        ),
{
    let ghost views = old(v)@.map_values(|r: PlayerRow| r@);
    let n: usize = v.len();
    let mut k: usize = 0;
    while k < n && !row_lt_exec(&x, &v[k], key)
        invariant
            k <= n,
            n == v@.len(),
            v@ == old(v)@,
            views == old(v)@.map_values(|r: PlayerRow| r@),
            forall|i: int| 0 <= i < k ==> !row_lt(x@, #[trigger] views[i], key),
        decreases n - k,
    {
        k = k + 1;
    }
    proof {
        lemma_insert_row_splice(views, x@, key, k as int);
    }
    v.insert(k, x);
    proof {
        assert(v@.map_values(|r: PlayerRow| r@) =~= views.take(k as int) + seq![x@] + views.skip(
            k as int,
        ));
    }
}

/// Reverse a vector of rows.
fn reverse_rows(v: Vec<PlayerRow>) -> (r: Vec<PlayerRow>)
    ensures
        r@.map_values(|x: PlayerRow| x@) == v@.map_values(|x: PlayerRow| x@).reverse(),
{
    let ghost views = v@.map_values(|x: PlayerRow| x@);
    let n: usize = v.len();
    let mut rest = v;
    let mut out: Vec<PlayerRow> = Vec::new();
    while rest.len() > 0
        invariant
            rest@.len() + out@.len() == n,
            n == views.len(),
            rest@.map_values(|x: PlayerRow| x@) == views.take(rest@.len() as int),
            forall|j: int|
                0 <= j < out@.len() ==> (#[trigger] out@[j])@ == views[n - 1 - j],
        decreases rest.len(),
    {
        let ghost before = rest@;
        let x = rest.pop().unwrap();
        proof {
            let f = |y: PlayerRow| y@;
            assert(x@ == before.map_values(f)[before.len() - 1]);
            assert(x@ == views[before.len() - 1]);
            assert(rest@.map_values(f) =~= views.take(rest@.len() as int));
        }
        out.push(x);
    }
    proof {
        assert(out@.map_values(|x: PlayerRow| x@) =~= views.reverse());
    }
    out
}

impl PlayerTracker {
    /// Compute the listing at `now`: candidates inside the active window,
    /// filtered by the name fragment, one row per listed player, sorted by
    /// the selected key and direction. The result is pinned exactly by
    /// [`listing_spec`].
    pub fn query_rows(&self, now: i64) -> (rows: Vec<PlayerRow>)
        requires
            self.wf(),
        ensures
            rows@.map_values(|r: PlayerRow| r@) == listing_spec(
                self@,
                self.spec_filter_time_period().spec_window_start(now),
                self.spec_player_filter(),
                self.spec_sort_order(),
            ),
    {
        let start = self.filter_time_period().to_date(now);
        let filter = self.player_filter().clone();
        let sorted_by = self.sort_order();
        let players = self.players();
        let ghost pviews = players_view(players@);
        let n: usize = players.len();
        let mut unsorted: Vec<PlayerRow> = Vec::new();
        let mut i: usize = 0;
        while i < n
            invariant
                i <= n,
                n == players@.len(),
                pviews == players_view(players@),
                pviews == self@.players,
                self.wf(),
                filter@ == self.spec_player_filter(),
                start == self.spec_filter_time_period().spec_window_start(now),
                unsorted@.map_values(|r: PlayerRow| r@) == rows_of(
                    pviews.take(i as int),
                    self@,
                    start,
                    filter@,
                ),
            decreases n - i,
        {
            let p = &players[i];
            proof {
                assert(p@ == pviews[i as int]);
                assert(pviews.take(i + 1).drop_last() =~= pviews.take(i as int));
                assert(pviews.take(i + 1).last() == pviews[i as int]);
            }
            let candidate = id_in_window(self, start, p.db_id());
            if candidate && matches_filter(p, &filter) {
                assert(listed(self@, start, filter@, pviews[i as int]));
                let row = PlayerRow {
                    db_id: p.db_id(),
                    last_name: p.last_name().clone(),
                    clan: p.clan().clone(),
                    last_encounter: p.last_encounter(),
                    total_encounters: p.total_encounters(),
                    encounters_in_window: p.encounters_in_window(start),
                };
                proof {
                    assert(p@.wf());
                    assert(row@ =~= row_of(pviews[i as int], start));
                }
                unsorted.push(row);
                proof {
                    assert(unsorted@.map_values(|r: PlayerRow| r@) =~= rows_of(
                        pviews.take(i + 1),
                        self@,
                        start,
                        filter@,
                    ));
                }
            } else {
                proof {
                    assert(!listed(self@, start, filter@, pviews[i as int]));
                }
            }
            i = i + 1;
        }
        proof {
            assert(pviews.take(n as int) =~= pviews);
        }
        // sort ascending under the canonical key, then flip when descending
        let canonical = match sorted_by {
            SortedBy::Name(_) => SortedBy::Name(SortOrder::Asc),
            SortedBy::Clan(_) => SortedBy::Clan(SortOrder::Asc),
            SortedBy::LastEncountered(_) => SortedBy::LastEncountered(SortOrder::Asc),
            SortedBy::TimesEncountered(_) => SortedBy::TimesEncountered(SortOrder::Asc),
            SortedBy::TimesEncounteredInTimeRange(_) => SortedBy::TimesEncounteredInTimeRange(
                SortOrder::Asc,
            ),
        };
        assert(canonical == sorted_by.spec_with_order(SortOrder::Asc));
        let ghost uviews = unsorted@.map_values(|r: PlayerRow| r@);
        let m: usize = unsorted.len();
        let mut rest = unsorted;
        let mut sorted: Vec<PlayerRow> = Vec::new();
        let mut j: usize = 0;
        loop
            invariant
                j <= m,
                m == uviews.len(),
                rest@.map_values(|r: PlayerRow| r@) == uviews.skip(j as int),
                sorted@.map_values(|r: PlayerRow| r@) == sort_rows_asc(uviews.take(j as int), canonical),
            ensures
                j == m,
                sorted@.map_values(|r: PlayerRow| r@) == sort_rows_asc(uviews, canonical),
            decreases m - j,
        {
            if j >= m {
                proof {
                    assert(uviews.take(m as int) =~= uviews);
                }
                break ;
            }
            let ghost before = rest@;
            proof {
                let f = |r: PlayerRow| r@;
                assert(before.map_values(f).len() == m - j);
                assert(before.len() == m - j);
            }
            let x = rest.remove(0);
            proof {
                let f = |r: PlayerRow| r@;
                assert(x@ == before.map_values(f)[0]);
                assert(x@ == uviews[j as int]);
                assert forall|t: int| 0 <= t < rest@.len() implies #[trigger] rest@.map_values(f)[t]
                    == uviews.skip(j + 1)[t] by {
                    assert(rest@[t] == before[t + 1]);
                    assert(before.map_values(f)[t + 1] == uviews.skip(j as int)[t + 1]);
                }
                assert(rest@.map_values(f) =~= uviews.skip(j + 1));
                assert(uviews.take(j + 1).drop_last() =~= uviews.take(j as int));
                assert(uviews.take(j + 1).last() == uviews[j as int]);
            }
            insert_row_sorted(&mut sorted, x, canonical);
            j = j + 1;
        }
        match sorted_by.order() {
            SortOrder::Asc => sorted,
            SortOrder::Desc => reverse_rows(sorted),
        }
    }
}

} // verus!
