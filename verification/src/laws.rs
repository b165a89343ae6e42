//! What holds of every chart: the tracks fall into one run per
//! contributor, playing time is neither lost nor made, sizes add up to the
//! whole, and the order is ascending.

use vstd::prelude::*;
use vstd::seq_lib::lemma_flatten_concat;
use crate::clock::Timestamp;
use crate::color::color_of;
use crate::engine::{
    added_by, contributor_keys, durations, group_totals, group_tracks, ordered_keys,
    playlist_info, total_duration, track_info_of, track_runs, tracks_of,
};
use crate::fraction::Ratio;
use crate::info::{PlaylistInfoView, TrackInfoView, UserInfoView};
use crate::order::{
    is_stable_order, stable_order, stable_order_ascends, stable_order_exists,
    stable_order_is_arrangement,
};
use crate::playlist::{EntryView, SnapshotView};
use crate::names::unknown_label;
use crate::sums::{arranged, int_sum, sum_is_not_negative, sum_of_arranged, sum_of_joined};

verus! {

/// A number for each entry: what `w` gives for a track, and zero at a place
/// that holds none.
spec fn weights(entries: Seq<EntryView>, w: spec_fn(EntryView) -> int) -> Seq<int> {
    Seq::new(
        entries.len(),
        |i: int|
            if entries[i].is_track() {
                w(entries[i])
            } else {
                0
            },
    )
}

/// For each contributor, the sum of what `w` gives for the contributor's
/// tracks.
spec fn group_weights(
    entries: Seq<EntryView>,
    keys: Seq<Option<Seq<char>>>,
    w: spec_fn(EntryView) -> int,
) -> Seq<int> {
    Seq::new(keys.len(), |i: int| int_sum(weights(tracks_of(entries, keys[i]), w)))
}

/// A number for each track of the chart.
spec fn measures(tracks: Seq<TrackInfoView>, m: spec_fn(TrackInfoView) -> int) -> Seq<
    int,
> {
    Seq::new(tracks.len(), |i: int| m(tracks[i]))
}

/// For each run, the sum of what `m` gives for its tracks.
spec fn run_sums(runs: Seq<Seq<TrackInfoView>>, m: spec_fn(TrackInfoView) -> int) -> Seq<
    int,
> {
    Seq::new(runs.len(), |k: int| int_sum(measures(runs[k], m)))
}

/// The tracks among `entries`, in playlist order.
pub open spec fn tracks_in(entries: Seq<EntryView>) -> Seq<EntryView> {
    entries.filter(|e: EntryView| e.is_track())
}

/// The playing times of the tracks of a chart.
pub open spec fn track_durations(tracks: Seq<TrackInfoView>) -> Seq<int> {
    Seq::new(tracks.len(), |i: int| tracks[i].duration as int)
}

/// The numerators of the sizes of the tracks of a chart.
pub open spec fn track_size_parts(tracks: Seq<TrackInfoView>) -> Seq<int> {
    Seq::new(tracks.len(), |i: int| tracks[i].relative_size.num as int)
}

/// The playing times of the contributors of a chart.
pub open spec fn user_durations(users: Seq<UserInfoView>) -> Seq<int> {
    Seq::new(users.len(), |i: int| users[i].total_duration as int)
}

/// The numbers of tracks of the contributors of a chart.
pub open spec fn user_counts(users: Seq<UserInfoView>) -> Seq<int> {
    Seq::new(users.len(), |i: int| users[i].track_count as int)
}

/// The numerators of the sizes of the contributors of a chart.
pub open spec fn user_size_parts(users: Seq<UserInfoView>) -> Seq<int> {
    Seq::new(users.len(), |i: int| users[i].relative_size.num as int)
}

proof fn lemma_tracks_of_last(entries: Seq<EntryView>, key: Option<Seq<char>>)
    requires
        entries.len() > 0,
    ensures
        tracks_of(entries, key) == if entries.last().is_track_of(key) {
            tracks_of(entries.drop_last(), key).push(entries.last())
        } else {
            tracks_of(entries.drop_last(), key)
        },
{
    assert(entries =~= entries.drop_last().push(entries.last()));
    Seq::lemma_filter_push(entries.drop_last(), entries.last(), added_by(key));
}

proof fn lemma_tracks_of_are_tracks(entries: Seq<EntryView>, key: Option<Seq<char>>)
    ensures
        forall|i: int|
            0 <= i < tracks_of(entries, key).len() ==> (#[trigger] tracks_of(
                entries,
                key,
            )[i]).is_track_of(key),
{
    let mine = tracks_of(entries, key);
    assert forall|i: int| 0 <= i < mine.len() implies (#[trigger] mine[i]).is_track_of(key) by {
        Seq::lemma_filter_pred(entries, added_by(key), i);
    }
}

proof fn lemma_weights_push(s: Seq<EntryView>, e: EntryView, w: spec_fn(EntryView) -> int)
    ensures
        int_sum(weights(s.push(e), w)) == int_sum(weights(s, w)) + (if e.is_track() {
            w(e)
        } else {
            0
        }),
{
    assert(weights(s.push(e), w).drop_last() =~= weights(s, w));
}

/// No contributor occurs twice among the contributors of a playlist.
pub proof fn contributor_keys_are_distinct(entries: Seq<EntryView>)
    ensures
        contributor_keys(entries).no_duplicates(),
    decreases entries.len(),
{
    if entries.len() > 0 {
        contributor_keys_are_distinct(entries.drop_last());
    }
}

proof fn lemma_keys_grow(entries: Seq<EntryView>, key: Option<Seq<char>>)
    requires
        entries.len() > 0,
        contributor_keys(entries.drop_last()).contains(key),
    ensures
        contributor_keys(entries).contains(key),
{
    let rest = contributor_keys(entries.drop_last());
    let i = choose|i: int| 0 <= i < rest.len() && rest[i] == key;
    assert(contributor_keys(entries)[i] == key);
}

proof fn lemma_absent_key(entries: Seq<EntryView>, key: Option<Seq<char>>)
    requires
        !contributor_keys(entries).contains(key),
    ensures
        tracks_of(entries, key).len() == 0,
    decreases entries.len(),
{
    if entries.len() == 0 {
        Seq::lemma_filter_len(entries, added_by(key));
    } else {
        let rest = entries.drop_last();
        let e = entries.last();
        if contributor_keys(rest).contains(key) {
            lemma_keys_grow(entries, key);
        }
        lemma_absent_key(rest, key);
        lemma_tracks_of_last(entries, key);
        if e.is_track_of(key) {
            let ks = contributor_keys(entries);
            assert(ks[ks.len() - 1] == key);
        }
    }
}

proof fn lemma_sum_update(s: Seq<int>, q: int, v: int)
    requires
        0 <= q < s.len(),
    ensures
        int_sum(s.update(q, v)) == int_sum(s) - s[q] + v,
    decreases s.len(),
{
    if q == s.len() - 1 {
        assert(s.update(q, v).drop_last() =~= s.drop_last());
    } else {
        lemma_sum_update(s.drop_last(), q, v);
        assert(s.update(q, v).drop_last() =~= s.drop_last().update(q, v));
    }
}

/// The contributors part the tracks: what the groups weigh together is what
/// the tracks weigh together.
proof fn lemma_groups_part_the_tracks(entries: Seq<EntryView>, w: spec_fn(EntryView) -> int)
    ensures
        int_sum(group_weights(entries, contributor_keys(entries), w)) == int_sum(
            weights(entries, w),
        ),
    decreases entries.len(),
{
    let ks = contributor_keys(entries);
    let g = group_weights(entries, ks, w);
    if entries.len() == 0 {
        assert(g =~= Seq::<int>::empty());
        assert(weights(entries, w) =~= Seq::<int>::empty());
    } else {
        let rest = entries.drop_last();
        let e = entries.last();
        let ks_r = contributor_keys(rest);
        let gr = group_weights(rest, ks_r, w);
        lemma_groups_part_the_tracks(rest, w);
        assert(entries =~= rest.push(e));
        lemma_weights_push(rest, e, w);
        contributor_keys_are_distinct(rest);
        if !e.is_track() {
            assert forall|i: int| 0 <= i < ks.len() implies g[i] == gr[i] by {
                lemma_tracks_of_last(entries, ks[i]);
            }
            assert(g =~= gr);
        } else if ks_r.contains(e.added_by) {
            let q = choose|q: int| 0 <= q < ks_r.len() && ks_r[q] == e.added_by;
            assert forall|i: int| 0 <= i < ks.len() implies g[i] == gr.update(q, gr[q] + w(e))[i] by {
                lemma_tracks_of_last(entries, ks[i]);
                if i == q {
                    lemma_weights_push(tracks_of(rest, ks[i]), e, w);
                } else {
                    assert(ks_r[i] != ks_r[q]);
                }
            }
            assert(g =~= gr.update(q, gr[q] + w(e)));
            lemma_sum_update(gr, q, gr[q] + w(e));
        } else {
            lemma_absent_key(rest, e.added_by);
            assert forall|i: int| 0 <= i < ks_r.len() implies g[i] == gr[i] by {
                lemma_tracks_of_last(entries, ks[i]);
                assert(ks_r[i] != e.added_by);
            }
            lemma_tracks_of_last(entries, e.added_by);
            assert(tracks_of(rest, e.added_by) =~= Seq::<EntryView>::empty());
            lemma_weights_push(tracks_of(rest, e.added_by), e, w);
            assert(weights(Seq::<EntryView>::empty(), w) =~= Seq::<int>::empty());
            assert(g.drop_last() =~= gr);
            assert(g.last() == w(e));
        }
    }
}

/// The order of the chart names each contributor once.
proof fn lemma_order_of_groups(entries: Seq<EntryView>)
    ensures
        is_stable_order(
            group_totals(entries, contributor_keys(entries)),
            stable_order(group_totals(entries, contributor_keys(entries))),
        ),
        ordered_keys(entries).len() == contributor_keys(entries).len(),
        forall|i: int|
            0 <= i < ordered_keys(entries).len() ==> #[trigger] ordered_keys(entries)[i]
                == contributor_keys(entries)[stable_order(
                group_totals(entries, contributor_keys(entries)),
            )[i]],
{
    stable_order_exists(group_totals(entries, contributor_keys(entries)));
}

/// Putting the contributors in the order of the chart does not change what
/// the groups weigh together.
proof fn lemma_ordered_groups(entries: Seq<EntryView>, w: spec_fn(EntryView) -> int)
    ensures
        int_sum(group_weights(entries, ordered_keys(entries), w)) == int_sum(weights(entries, w)),
{
    let keys = contributor_keys(entries);
    let totals = group_totals(entries, keys);
    let order = stable_order(totals);
    lemma_order_of_groups(entries);
    stable_order_is_arrangement(totals, order);
    let plain = group_weights(entries, keys, w);
    assert(group_weights(entries, ordered_keys(entries), w) =~= arranged(plain, order));
    sum_of_arranged(plain, order);
    lemma_groups_part_the_tracks(entries, w);
}

proof fn lemma_flatten_sum(runs: Seq<Seq<TrackInfoView>>, m: spec_fn(TrackInfoView) -> int)
    ensures
        int_sum(measures(runs.flatten(), m)) == int_sum(run_sums(runs, m)),
    decreases runs.len(),
{
    if runs.len() == 0 {
        assert(runs.flatten() =~= Seq::<TrackInfoView>::empty());
        assert(measures(runs.flatten(), m) =~= Seq::<int>::empty());
        assert(run_sums(runs, m) =~= Seq::<int>::empty());
    } else {
        let rest = runs.drop_last();
        lemma_flatten_sum(rest, m);
        assert(runs =~= rest.push(runs.last()));
        rest.lemma_flatten_push(runs.last());
        assert(measures(rest.flatten() + runs.last(), m) =~= measures(rest.flatten(), m)
            + measures(runs.last(), m));
        sum_of_joined(measures(rest.flatten(), m), measures(runs.last(), m));
        assert(run_sums(runs, m).drop_last() =~= run_sums(rest, m));
    }
}

/// What a run measures together is what the contributor's tracks measure
/// together: the order within the run changes no sum.
proof fn lemma_run_sum(
    entries: Seq<EntryView>,
    key: Option<Seq<char>>,
    total: int,
    now: Timestamp,
    m: spec_fn(TrackInfoView) -> int,
)
    ensures
        int_sum(measures(group_tracks(entries, key, total, now, color_of(key)), m)) == int_sum(
            weights(
                tracks_of(entries, key),
                |e: EntryView| m(track_info_of(e, total, now, color_of(key))),
            ),
        ),
{
    let mine = tracks_of(entries, key);
    let order = stable_order(durations(mine));
    let w = |e: EntryView| m(track_info_of(e, total, now, color_of(key)));
    stable_order_exists(durations(mine));
    stable_order_is_arrangement(durations(mine), order);
    lemma_tracks_of_are_tracks(entries, key);
    let run = group_tracks(entries, key, total, now, color_of(key));
    assert(measures(run, m) =~= arranged(weights(mine, w), order)) by {
        assert forall|i: int| 0 <= i < mine.len() implies measures(run, m)[i] == arranged(
            weights(mine, w),
            order,
        )[i] by {
            assert(0 <= order[i] < mine.len());
            assert(mine[order[i]].is_track_of(key));
        }
    }
    sum_of_arranged(weights(mine, w), order);
}

proof fn lemma_flatten_all(runs: Seq<Seq<TrackInfoView>>, p: spec_fn(TrackInfoView) -> bool)
    requires
        forall|k: int, i: int|
            0 <= k < runs.len() && 0 <= i < runs[k].len() ==> p(#[trigger] runs[k][i]),
    ensures
        forall|i: int| 0 <= i < runs.flatten().len() ==> p(#[trigger] runs.flatten()[i]),
    decreases runs.len(),
{
    if runs.len() == 0 {
        assert(runs.flatten() =~= Seq::<TrackInfoView>::empty());
    } else {
        let rest = runs.drop_last();
        assert forall|k: int, i: int| 0 <= k < rest.len() && 0 <= i < rest[k].len() implies p(
            #[trigger] rest[k][i],
        ) by {
            assert(rest[k][i] == runs[k][i]);
        }
        lemma_flatten_all(rest, p);
        assert(runs =~= rest.push(runs.last()));
        rest.lemma_flatten_push(runs.last());
        assert forall|i: int| 0 <= i < runs.flatten().len() implies p(
            #[trigger] runs.flatten()[i],
        ) by {
            if i >= rest.flatten().len() {
                assert(runs.flatten()[i] == runs[runs.len() - 1][i - rest.flatten().len()]);
            } else {
                assert(runs.flatten()[i] == rest.flatten()[i]);
            }
        }
    }
}

proof fn lemma_count(entries: Seq<EntryView>)
    ensures
        int_sum(weights(entries, |e: EntryView| 1int)) == tracks_in(entries).len(),
    decreases entries.len(),
{
    let one = |e: EntryView| 1int;
    let test = |e: EntryView| e.is_track();
    if entries.len() == 0 {
        Seq::lemma_filter_len(entries, test);
        assert(weights(entries, one) =~= Seq::<int>::empty());
    } else {
        let rest = entries.drop_last();
        lemma_count(rest);
        assert(entries =~= rest.push(entries.last()));
        Seq::lemma_filter_push(rest, entries.last(), test);
        lemma_weights_push(rest, entries.last(), one);
    }
}

proof fn lemma_count_of_tracks(mine: Seq<EntryView>)
    requires
        forall|i: int| 0 <= i < mine.len() ==> (#[trigger] mine[i]).is_track(),
    ensures
        int_sum(weights(mine, |e: EntryView| 1int)) == mine.len(),
    decreases mine.len(),
{
    let one = |e: EntryView| 1int;
    if mine.len() == 0 {
        assert(weights(mine, one) =~= Seq::<int>::empty());
    } else {
        let rest = mine.drop_last();
        assert forall|i: int| 0 <= i < rest.len() implies (#[trigger] rest[i]).is_track() by {
            assert(rest[i] == mine[i]);
        }
        lemma_count_of_tracks(rest);
        assert(mine =~= rest.push(mine.last()));
        lemma_weights_push(rest, mine.last(), one);
        assert(mine[mine.len() - 1].is_track());
    }
}

proof fn lemma_ones(tracks: Seq<TrackInfoView>)
    ensures
        int_sum(measures(tracks, |t: TrackInfoView| 1int)) == tracks.len(),
    decreases tracks.len(),
{
    let one = |t: TrackInfoView| 1int;
    if tracks.len() == 0 {
        assert(measures(tracks, one) =~= Seq::<int>::empty());
    } else {
        lemma_ones(tracks.drop_last());
        assert(measures(tracks, one).drop_last() =~= measures(tracks.drop_last(), one));
    }
}

proof fn lemma_total_is_not_negative(entries: Seq<EntryView>)
    ensures
        0 <= total_duration(entries),
{
    sum_is_not_negative(durations(entries));
}

/// The tracks of the chart fall into one run per contributor, run after run
/// in the order of the contributors: the chart's tracks are the runs joined,
/// each run has as many tracks as its contributor counts and shows them in
/// the contributor's colour, the counts add up to the number of tracks of
/// the chart, and that is the number of tracks of the playlist.
pub proof fn tracks_are_partitioned(
    snapshot: SnapshotView,
    names: Map<Seq<char>, Seq<char>>,
    now: Timestamp,
)
    ensures
        ({
            let info = playlist_info(snapshot, names, now);
            let runs = track_runs(
                snapshot.entries,
                ordered_keys(snapshot.entries),
                total_duration(snapshot.entries),
                now,
            );
            &&& info.tracks == runs.flatten()
            &&& runs.len() == info.users.len()
            &&& forall|k: int|
                0 <= k < runs.len() ==> (#[trigger] runs[k]).len() == info.users[k].track_count
            &&& forall|k: int, i: int|
                0 <= k < runs.len() && 0 <= i < runs[k].len() ==> (#[trigger] runs[k][i]).color
                    == info.users[k].color
            &&& int_sum(user_counts(info.users)) == info.tracks.len()
            &&& info.tracks.len() == tracks_in(snapshot.entries).len()
        }),
{
    let entries = snapshot.entries;
    let total = total_duration(entries);
    let keys = ordered_keys(entries);
    let info = playlist_info(snapshot, names, now);
    let runs = track_runs(entries, keys, total, now);
    let one = |t: TrackInfoView| 1int;
    let one_e = |e: EntryView| 1int;
    lemma_order_of_groups(entries);
    lemma_flatten_sum(runs, one);
    lemma_ones(runs.flatten());
    assert(run_sums(runs, one) =~= user_counts(info.users)) by {
        assert forall|k: int| 0 <= k < runs.len() implies run_sums(runs, one)[k] == user_counts(
            info.users,
        )[k] by {
            lemma_ones(runs[k]);
        }
    }
    lemma_ordered_groups(entries, one_e);
    lemma_count(entries);
    assert(group_weights(entries, keys, one_e) =~= user_counts(info.users)) by {
        assert forall|k: int| 0 <= k < keys.len() implies group_weights(entries, keys, one_e)[k]
            == user_counts(info.users)[k] by {
            lemma_tracks_of_are_tracks(entries, keys[k]);
            lemma_count_of_tracks(tracks_of(entries, keys[k]));
        }
    }
}

/// Playing time is conserved: the playing times of the tracks of the chart
/// add up to the playing time of the chart, and so do those of its
/// contributors; and it is the playing time of the tracks of the playlist.
pub proof fn playing_time_is_conserved(
    snapshot: SnapshotView,
    names: Map<Seq<char>, Seq<char>>,
    now: Timestamp,
)
    ensures
        ({
            let info = playlist_info(snapshot, names, now);
            &&& info.total_duration == total_duration(snapshot.entries)
            &&& int_sum(track_durations(info.tracks)) == info.total_duration
            &&& int_sum(user_durations(info.users)) == info.total_duration
        }),
{
    let entries = snapshot.entries;
    let total = total_duration(entries);
    let keys = ordered_keys(entries);
    let info = playlist_info(snapshot, names, now);
    let runs = track_runs(entries, keys, total, now);
    let m = |t: TrackInfoView| t.duration as int;
    let w = |e: EntryView| e.duration() as int;
    lemma_total_is_not_negative(entries);
    lemma_order_of_groups(entries);
    lemma_ordered_groups(entries, w);
    assert(weights(entries, w) =~= durations(entries));
    lemma_flatten_sum(runs, m);
    assert(measures(info.tracks, m) =~= track_durations(info.tracks));
    assert(run_sums(runs, m) =~= group_weights(entries, keys, w)) by {
        assert forall|k: int| 0 <= k < keys.len() implies run_sums(runs, m)[k] == group_weights(
            entries,
            keys,
            w,
        )[k] by {
            let mine = tracks_of(entries, keys[k]);
            lemma_run_sum(entries, keys[k], total, now, m);
            assert(weights(
                mine,
                |e: EntryView| m(track_info_of(e, total, now, color_of(keys[k]))),
            ) =~= weights(mine, w));
        }
    }
    assert(user_durations(info.users) =~= group_weights(entries, keys, w)) by {
        assert forall|k: int| 0 <= k < keys.len() implies user_durations(info.users)[k]
            == group_weights(entries, keys, w)[k] by {
            let mine = tracks_of(entries, keys[k]);
            lemma_total_is_not_negative(mine);
            assert(weights(mine, w) =~= durations(mine));
        }
    }
}

/// In a playlist with playing time, the size of a track is its playing time
/// over that of the playlist, the size of a contributor is the playing time
/// of the contributor's tracks over that of the playlist, and both the sizes
/// of the tracks and the sizes of the contributors add up to one: their
/// numerators add up to the denominator that they share.
pub proof fn sizes_add_up_to_one(
    snapshot: SnapshotView,
    names: Map<Seq<char>, Seq<char>>,
    now: Timestamp,
)
    requires
        total_duration(snapshot.entries) > 0,
    ensures
        ({
            let info = playlist_info(snapshot, names, now);
            &&& forall|i: int|
                0 <= i < info.tracks.len() ==> (#[trigger] info.tracks[i]).relative_size == (Ratio {
                    num: info.tracks[i].duration,
                    den: info.total_duration,
                })
            &&& forall|k: int|
                0 <= k < info.users.len() ==> (#[trigger] info.users[k]).relative_size == (Ratio {
                    num: info.users[k].total_duration,
                    den: info.total_duration,
                })
            &&& int_sum(track_size_parts(info.tracks)) == info.total_duration
            &&& int_sum(user_size_parts(info.users)) == info.total_duration
        }),
{
    let entries = snapshot.entries;
    let total = total_duration(entries);
    let keys = ordered_keys(entries);
    let info = playlist_info(snapshot, names, now);
    let runs = track_runs(entries, keys, total, now);
    playing_time_is_conserved(snapshot, names, now);
    lemma_order_of_groups(entries);
    let p = |t: TrackInfoView| t.relative_size == (Ratio { num: t.duration, den: total as nat });
    assert forall|k: int, i: int| 0 <= k < runs.len() && 0 <= i < runs[k].len() implies p(
        #[trigger] runs[k][i],
    ) by {}
    lemma_flatten_all(runs, p);
    assert forall|i: int| 0 <= i < info.tracks.len() implies (#[trigger] info.tracks[i]).relative_size
        == (Ratio { num: info.tracks[i].duration, den: info.total_duration }) by {
        assert(p(info.tracks[i]));
    }
    assert(track_size_parts(info.tracks) =~= track_durations(info.tracks));
    assert forall|k: int| 0 <= k < info.users.len() implies (#[trigger] info.users[k]).relative_size
        == (Ratio { num: info.users[k].total_duration, den: info.total_duration }) by {
        lemma_total_is_not_negative(tracks_of(entries, keys[k]));
    }
    assert(user_size_parts(info.users) =~= user_durations(info.users));
}

/// Nothing is divided by zero: a playlist whose tracks all have the playing
/// time zero, an empty one among them, has the playing time zero, and each
/// track and each contributor of its chart has the size zero.
pub proof fn no_playing_time_gives_zero_sizes(
    snapshot: SnapshotView,
    names: Map<Seq<char>, Seq<char>>,
    now: Timestamp,
)
    requires
        forall|i: int|
            0 <= i < snapshot.entries.len() ==> (#[trigger] snapshot.entries[i]).duration() == 0,
    ensures
        ({
            let info = playlist_info(snapshot, names, now);
            &&& info.total_duration == 0
            &&& forall|i: int|
                0 <= i < info.tracks.len() ==> (#[trigger] info.tracks[i]).relative_size == (Ratio {
                    num: 0,
                    den: 1,
                })
            &&& forall|k: int|
                0 <= k < info.users.len() ==> (#[trigger] info.users[k]).relative_size == (Ratio {
                    num: 0,
                    den: 1,
                })
        }),
{
    let entries = snapshot.entries;
    let total = total_duration(entries);
    let keys = ordered_keys(entries);
    let info = playlist_info(snapshot, names, now);
    let runs = track_runs(entries, keys, total, now);
    lemma_zero_sum(durations(entries));
    let p = |t: TrackInfoView| t.relative_size == (Ratio { num: 0, den: 1 });
    assert forall|k: int, i: int| 0 <= k < runs.len() && 0 <= i < runs[k].len() implies p(
        #[trigger] runs[k][i],
    ) by {}
    lemma_flatten_all(runs, p);
    assert forall|i: int| 0 <= i < info.tracks.len() implies (#[trigger] info.tracks[i]).relative_size
        == (Ratio { num: 0, den: 1 }) by {
        assert(p(info.tracks[i]));
    }
}

proof fn lemma_zero_sum(values: Seq<int>)
    requires
        forall|i: int| 0 <= i < values.len() ==> #[trigger] values[i] == 0,
    ensures
        int_sum(values) == 0,
    decreases values.len(),
{
    if values.len() > 0 {
        let rest = values.drop_last();
        assert forall|i: int| 0 <= i < rest.len() implies #[trigger] rest[i] == 0 by {
            assert(rest[i] == values[i]);
        }
        lemma_zero_sum(rest);
    }
}

/// The chart is in ascending order: no contributor has less playing time
/// than one before, and within a run no track has less playing time than
/// one before.
pub proof fn chart_ascends(snapshot: SnapshotView, names: Map<Seq<char>, Seq<char>>, now: Timestamp)
    ensures
        ({
            let info = playlist_info(snapshot, names, now);
            let runs = track_runs(
                snapshot.entries,
                ordered_keys(snapshot.entries),
                total_duration(snapshot.entries),
                now,
            );
            &&& forall|i: int, j: int|
                0 <= i <= j < info.users.len() ==> (#[trigger] info.users[i]).total_duration <= (
                #[trigger] info.users[j]).total_duration
            &&& forall|k: int, i: int, j: int|
                0 <= k < runs.len() && 0 <= i <= j < runs[k].len() ==> (
                #[trigger] runs[k][i]).duration <= (#[trigger] runs[k][j]).duration
        }),
{
    let entries = snapshot.entries;
    let total = total_duration(entries);
    let plain = contributor_keys(entries);
    let keys = ordered_keys(entries);
    let info = playlist_info(snapshot, names, now);
    let runs = track_runs(entries, keys, total, now);
    lemma_order_of_groups(entries);
    let totals = group_totals(entries, plain);
    let order = stable_order(totals);
    assert forall|i: int, j: int| 0 <= i <= j < info.users.len() implies (
    #[trigger] info.users[i]).total_duration <= (#[trigger] info.users[j]).total_duration by {
        stable_order_ascends(totals, order, i, j);
        lemma_total_is_not_negative(tracks_of(entries, keys[i]));
        lemma_total_is_not_negative(tracks_of(entries, keys[j]));
        assert(0 <= order[i] < plain.len() && 0 <= order[j] < plain.len());
    }
    assert forall|k: int, i: int, j: int|
        0 <= k < runs.len() && 0 <= i <= j < runs[k].len() implies (#[trigger] runs[k][i]).duration
        <= (#[trigger] runs[k][j]).duration by {
        let mine = tracks_of(entries, keys[k]);
        stable_order_exists(durations(mine));
        stable_order_ascends(durations(mine), stable_order(durations(mine)), i, j);
        let o = stable_order(durations(mine));
        assert(0 <= o[i] < mine.len() && 0 <= o[j] < mine.len());
    }
}

/// The chart depends on nothing but the playlist, the names and the time at
/// which it is seen: the same three give the same chart.
pub proof fn aggregation_is_deterministic(
    first: SnapshotView,
    second: SnapshotView,
    first_names: Map<Seq<char>, Seq<char>>,
    second_names: Map<Seq<char>, Seq<char>>,
    first_now: Timestamp,
    second_now: Timestamp,
)
    requires
        first.name == second.name,
        first.entries == second.entries,
        first_names == second_names,
        first_now == second_now,
    ensures
        playlist_info(first, first_names, first_now) == playlist_info(
            second,
            second_names,
            second_now,
        ),
{
}

/// A track counts the same whoever added it, and also where nobody is known
/// to have: the playing time of a playlist depends on its tracks alone. The
/// contributor without an identifier goes by the label for the unknown.
pub proof fn unknown_contributor_counts_in_full(
    a: Seq<EntryView>,
    b: Seq<EntryView>,
    names: Map<Seq<char>, Seq<char>>,
)
    requires
        a.len() == b.len(),
        forall|i: int| 0 <= i < a.len() ==> (#[trigger] a[i]).track == b[i].track,
    ensures
        total_duration(a) == total_duration(b),
        crate::engine::display_name(names, None) == unknown_label(),
{
    assert(durations(a) =~= durations(b));
}

/// The place in the chart at which the run of contributor `k` starts: the
/// number of tracks of the contributors before.
pub open spec fn run_start(users: Seq<UserInfoView>, k: int) -> int {
    int_sum(user_counts(users).take(k))
}

/// The run of contributor `k`, cut out of the tracks of the chart by the
/// counts of the contributors.
pub open spec fn run_of(
    tracks: Seq<TrackInfoView>,
    users: Seq<UserInfoView>,
    k: int,
) -> Seq<TrackInfoView> {
    tracks.subrange(run_start(users, k), run_start(users, k) + users[k].track_count)
}

proof fn lemma_run_in_flatten(runs: Seq<Seq<TrackInfoView>>, k: int)
    requires
        0 <= k < runs.len(),
    ensures
        runs.take(k).flatten().len() + runs[k].len() <= runs.flatten().len(),
        runs.flatten().subrange(
            runs.take(k).flatten().len() as int,
            (runs.take(k).flatten().len() + runs[k].len()) as int,
        ) == runs[k],
{
    let before = runs.take(k);
    let after = runs.skip(k + 1);
    let one = seq![runs[k]];
    assert(runs =~= before + one + after);
    lemma_flatten_concat(before + one, after);
    lemma_flatten_concat(before, one);
    one.lemma_flatten_one_element();
    assert(runs.flatten() =~= before.flatten() + runs[k] + after.flatten());
    assert(runs.flatten().subrange(
        before.flatten().len() as int,
        (before.flatten().len() + runs[k].len()) as int,
    ) =~= runs[k]);
}

/// The counts of the contributors cut the tracks of the chart into the
/// runs: the run of a contributor starts where the runs of the contributors
/// before end, and it holds that contributor's tracks, in ascending order
/// of playing time and in the contributor's colour, and nothing else.
pub proof fn counts_cut_the_runs(
    snapshot: SnapshotView,
    names: Map<Seq<char>, Seq<char>>,
    now: Timestamp,
    k: int,
)
    requires
        0 <= k < playlist_info(snapshot, names, now).users.len(),
    ensures
        ({
            let info = playlist_info(snapshot, names, now);
            let key = ordered_keys(snapshot.entries)[k];
            &&& 0 <= run_start(info.users, k)
            &&& run_start(info.users, k) + info.users[k].track_count <= info.tracks.len()
            &&& run_of(info.tracks, info.users, k) == group_tracks(
                snapshot.entries,
                key,
                total_duration(snapshot.entries),
                now,
                color_of(key),
            )
            &&& info.users[k].color == color_of(key)
        }),
{
    let entries = snapshot.entries;
    let total = total_duration(entries);
    let keys = ordered_keys(entries);
    let info = playlist_info(snapshot, names, now);
    let runs = track_runs(entries, keys, total, now);
    let one = |t: TrackInfoView| 1int;
    lemma_order_of_groups(entries);
    lemma_run_in_flatten(runs, k);
    let before = runs.take(k);
    lemma_flatten_sum(before, one);
    lemma_ones(before.flatten());
    assert(run_sums(before, one) =~= user_counts(info.users).take(k)) by {
        assert forall|j: int| 0 <= j < k implies run_sums(before, one)[j] == user_counts(
            info.users,
        ).take(k)[j] by {
            lemma_ones(before[j]);
            assert(before[j] == runs[j]);
        }
    }
}

proof fn lemma_member_at_most_sum(values: Seq<int>, at: int)
    requires
        forall|i: int| 0 <= i < values.len() ==> 0 <= #[trigger] values[i],
        0 <= at < values.len(),
    ensures
        values[at] <= int_sum(values),
    decreases values.len(),
{
    let rest = values.drop_last();
    assert forall|i: int| 0 <= i < rest.len() implies 0 <= #[trigger] rest[i] by {
        assert(rest[i] == values[i]);
    }
    sum_is_not_negative(rest);
    if at < values.len() - 1 {
        lemma_member_at_most_sum(rest, at);
    }
}

/// Every size and every age factor of a chart is a fraction between zero
/// and one, with a denominator that is not zero.
pub proof fn fractions_are_proper(
    snapshot: SnapshotView,
    names: Map<Seq<char>, Seq<char>>,
    now: Timestamp,
)
    ensures
        ({
            let info = playlist_info(snapshot, names, now);
            &&& forall|i: int|
                0 <= i < info.tracks.len() ==> (#[trigger] info.tracks[i]).relative_size.is_proper()
                    && info.tracks[i].age_factor.is_proper()
            &&& forall|k: int|
                0 <= k < info.users.len() ==> (#[trigger] info.users[k]).relative_size.is_proper()
        }),
{
    let entries = snapshot.entries;
    let total = total_duration(entries);
    let keys = ordered_keys(entries);
    let info = playlist_info(snapshot, names, now);
    let runs = track_runs(entries, keys, total, now);
    let w = |e: EntryView| e.duration() as int;
    lemma_total_is_not_negative(entries);
    lemma_order_of_groups(entries);
    lemma_ordered_groups(entries, w);
    assert(weights(entries, w) =~= durations(entries));
    let p = |t: TrackInfoView| t.relative_size.is_proper() && t.age_factor.is_proper();
    assert forall|k: int, i: int| 0 <= k < runs.len() && 0 <= i < runs[k].len() implies p(
        #[trigger] runs[k][i],
    ) by {
        let mine = tracks_of(entries, keys[k]);
        let order = stable_order(durations(mine));
        stable_order_exists(durations(mine));
        assert(0 <= order[i] < mine.len());
        let e = mine[order[i]];
        assert(mine.contains(e));
        Seq::lemma_filter_contains_rev(entries, added_by(keys[k]), e);
        let at = choose|at: int| 0 <= at < entries.len() && entries[at] == e;
        assert(durations(entries)[at] == e.duration());
        lemma_member_at_most_sum(durations(entries), at);
    }
    lemma_flatten_all(runs, p);
    assert forall|i: int| 0 <= i < info.tracks.len() implies (
    #[trigger] info.tracks[i]).relative_size.is_proper() && info.tracks[i].age_factor.is_proper() by {
        assert(p(info.tracks[i]));
    }
    let groups = group_weights(entries, keys, w);
    assert forall|k: int| 0 <= k < groups.len() implies 0 <= #[trigger] groups[k] by {
        let mine = tracks_of(entries, keys[k]);
        assert(weights(mine, w) =~= durations(mine));
        lemma_total_is_not_negative(mine);
    }
    assert forall|k: int| 0 <= k < info.users.len() implies (
    #[trigger] info.users[k]).relative_size.is_proper() by {
        let mine = tracks_of(entries, keys[k]);
        assert(weights(mine, w) =~= durations(mine));
        assert(groups[k] == total_duration(mine));
        lemma_member_at_most_sum(groups, k);
    }
}

/// What makes a chart sound, said of the chart alone: the counts of the
/// contributors cut its tracks into runs that fill it from end to end; the
/// tracks of a run show the colour of the run's contributor, play for as
/// long as the contributor is said to, and ascend in playing time; the
/// contributors ascend in playing time; and tracks and contributors both
/// play for as long as the chart is said to.
pub open spec fn is_sound(info: PlaylistInfoView) -> bool {
    &&& int_sum(user_counts(info.users)) == info.tracks.len()
    &&& int_sum(track_durations(info.tracks)) == info.total_duration
    &&& int_sum(user_durations(info.users)) == info.total_duration
    &&& forall|i: int, j: int|
        0 <= i <= j < info.users.len() ==> (#[trigger] info.users[i]).total_duration <= (
        #[trigger] info.users[j]).total_duration
    &&& forall|k: int| 0 <= k < info.users.len() ==> #[trigger] run_is_sound(info, k)
}

/// What makes the run of contributor `k` sound: it lies within the chart,
/// in the contributor's colour, with the contributor's playing time, in
/// ascending order of playing time.
pub open spec fn run_is_sound(info: PlaylistInfoView, k: int) -> bool {
    let run = run_of(info.tracks, info.users, k);
    &&& 0 <= run_start(info.users, k)
    &&& run_start(info.users, k) + info.users[k].track_count <= info.tracks.len()
    &&& int_sum(track_durations(run)) == info.users[k].total_duration
    &&& forall|i: int| 0 <= i < run.len() ==> (#[trigger] run[i]).color == info.users[k].color
    &&& forall|i: int, j: int|
        0 <= i <= j < run.len() ==> (#[trigger] run[i]).duration <= (#[trigger] run[j]).duration
}

/// Every chart is sound.
pub proof fn chart_is_sound(snapshot: SnapshotView, names: Map<Seq<char>, Seq<char>>, now: Timestamp)
    ensures
        is_sound(playlist_info(snapshot, names, now)),
{
    let entries = snapshot.entries;
    let total = total_duration(entries);
    let keys = ordered_keys(entries);
    let info = playlist_info(snapshot, names, now);
    let runs = track_runs(entries, keys, total, now);
    let m = |t: TrackInfoView| t.duration as int;
    let w = |e: EntryView| e.duration() as int;
    tracks_are_partitioned(snapshot, names, now);
    playing_time_is_conserved(snapshot, names, now);
    chart_ascends(snapshot, names, now);
    assert forall|k: int| 0 <= k < info.users.len() implies #[trigger] run_is_sound(info, k) by {
        counts_cut_the_runs(snapshot, names, now, k);
        let run = run_of(info.tracks, info.users, k);
        let mine = tracks_of(entries, keys[k]);
        assert(run == runs[k]);
        lemma_run_sum(entries, keys[k], total, now, m);
        assert(weights(mine, |e: EntryView| m(track_info_of(e, total, now, color_of(keys[k]))))
            =~= weights(mine, w));
        assert(weights(mine, w) =~= durations(mine));
        assert(measures(run, m) =~= track_durations(run));
        lemma_total_is_not_negative(mine);
    }
}

/// The contributors of a playlist are exactly those who added a track of
/// it, the one without an identifier among them where a track has none.
pub proof fn contributor_keys_cover(entries: Seq<EntryView>, key: Option<Seq<char>>)
    ensures
        contributor_keys(entries).contains(key) <==> exists|i: int|
            0 <= i < entries.len() && (#[trigger] entries[i]).is_track_of(key),
    decreases entries.len(),
{
    if entries.len() > 0 {
        let rest = entries.drop_last();
        let last = entries.last();
        contributor_keys_cover(rest, key);
        let ks = contributor_keys(entries);
        let ks_r = contributor_keys(rest);
        if ks.contains(key) {
            if ks_r.contains(key) {
                let i = choose|i: int| 0 <= i < rest.len() && (#[trigger] rest[i]).is_track_of(key);
                assert(entries[i].is_track_of(key));
            } else {
                assert(entries[entries.len() - 1].is_track_of(key));
            }
        }
        if exists|i: int| 0 <= i < entries.len() && (#[trigger] entries[i]).is_track_of(key) {
            let i = choose|i: int| 0 <= i < entries.len() && (#[trigger] entries[i]).is_track_of(key);
            if i < rest.len() {
                assert(rest[i].is_track_of(key));
                lemma_keys_grow(entries, key);
            } else if ks_r.contains(key) {
                lemma_keys_grow(entries, key);
            } else {
                assert(ks[ks.len() - 1] == key);
            }
        }
    }
}

} // verus!
