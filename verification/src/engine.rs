//! From a playlist to its chart-ready description.

use vstd::prelude::*;
use crate::clock::{age_factor, age_factor_of, Timestamp};
use crate::color::{color_of, contributor_color, Color};
use crate::fraction::{Fraction, Ratio};
use crate::info::{
    track_views, user_views, PlaylistInfo, PlaylistInfoView, TrackInfo, TrackInfoView, UserInfo,
    UserInfoView,
};
use crate::laws::{chart_is_sound, is_sound};
use crate::names::{unknown_label, NameMap};
use crate::order::{key_ints, place_ints, sort_places, stable_order};
use crate::playlist::{entry_views, key_view, same_key, EntryView, PlaylistEntry, PlaylistSnapshot};
use crate::sums::int_sum;

verus! {

/// The playing times of `entries`, place by place; zero at a place that
/// holds no track.
pub open spec fn durations(entries: Seq<EntryView>) -> Seq<int> {
    Seq::new(entries.len(), |i: int| entries[i].duration() as int)
}

/// The playing time of all tracks among `entries`.
pub open spec fn total_duration(entries: Seq<EntryView>) -> int {
    int_sum(durations(entries))
}

/// The test that picks the tracks of the contributor `key`.
pub open spec fn added_by(key: Option<Seq<char>>) -> spec_fn(EntryView) -> bool {
    |e: EntryView| e.is_track_of(key)
}

/// The tracks that the contributor `key` added, in playlist order.
pub open spec fn tracks_of(entries: Seq<EntryView>, key: Option<Seq<char>>) -> Seq<EntryView> {
    entries.filter(added_by(key))
}

/// The contributors of the tracks among `entries`, each once, in the order
/// in which they first occur. The contributor without an identifier is one
/// of them where a track has none.
pub open spec fn contributor_keys(entries: Seq<EntryView>) -> Seq<Option<Seq<char>>>
    decreases entries.len(),
{
    if entries.len() == 0 {
        Seq::empty()
    } else {
        let rest = contributor_keys(entries.drop_last());
        let e = entries.last();
        if e.is_track() && !rest.contains(e.added_by) {
            rest.push(e.added_by)
        } else {
            rest
        }
    }
}

/// The views of a sequence of optional identifiers.
pub open spec fn key_views(keys: Seq<Option<String>>) -> Seq<Option<Seq<char>>> {
    Seq::new(keys.len(), |i: int| key_view(keys[i]))
}

/// The entries at the given places.
pub open spec fn picked(entries: Seq<EntryView>, places: Seq<usize>) -> Seq<EntryView> {
    Seq::new(places.len(), |i: int| entries[places[i] as int])
}

proof fn lemma_sum_step(entries: Seq<EntryView>, i: int)
    requires
        0 <= i < entries.len(),
    ensures
        total_duration(entries.take(i + 1)) == total_duration(entries.take(i)) + entries[i].duration(),
{
    assert(durations(entries.take(i + 1)).drop_last() =~= durations(entries.take(i)));
}

/// The playing time of all tracks of a playlist, in milliseconds.
pub fn sum_durations(entries: &Vec<PlaylistEntry>) -> (total: u128)
    ensures
        total == total_duration(entry_views(entries@)),
{
    let ghost views = entry_views(entries@);
    let mut total: u128 = 0;
    let mut i: usize = 0;
    assert(durations(views.take(0)) =~= Seq::<int>::empty());
    while i < entries.len()
        invariant
            views == entry_views(entries@),
            i <= entries.len(),
            total == total_duration(views.take(i as int)),
            total <= i * 0xffff_ffff_ffff_ffff,
        decreases entries.len() - i,
    {
        proof {
            lemma_sum_step(views, i as int);
        }
        total = total + entries[i].duration() as u128;
        i = i + 1;
    }
    assert(views.take(i as int) =~= views);
    total
}

/// Whether `key` is among `keys`.
fn has_key(keys: &Vec<Option<String>>, key: &Option<String>) -> (b: bool)
    ensures
        b == key_views(keys@).contains(key_view(*key)),
{
    let mut i: usize = 0;
    while i < keys.len()
        invariant
            i <= keys.len(),
            forall|j: int| 0 <= j < i ==> key_views(keys@)[j] != key_view(*key),
        decreases keys.len() - i,
    {
        if same_key(&keys[i], key) {
            assert(key_views(keys@)[i as int] == key_view(*key));
            return true;
        }
        i = i + 1;
    }
    false
}

/// The contributors of the tracks of a playlist, each once, in the order in
/// which they first occur.
pub fn group_keys(entries: &Vec<PlaylistEntry>) -> (keys: Vec<Option<String>>)
    ensures
        key_views(keys@) == contributor_keys(entry_views(entries@)),
{
    let ghost views = entry_views(entries@);
    let mut keys: Vec<Option<String>> = Vec::new();
    let mut i: usize = 0;
    assert(views.take(0) =~= Seq::<EntryView>::empty());
    assert(key_views(keys@) =~= Seq::<Option<Seq<char>>>::empty());
    while i < entries.len()
        invariant
            views == entry_views(entries@),
            i <= entries.len(),
            key_views(keys@) == contributor_keys(views.take(i as int)),
        decreases entries.len() - i,
    {
        assert(views.take(i + 1).drop_last() =~= views.take(i as int));
        assert(views.take(i + 1).last() == entries@[i as int]@);
        if entries[i].is_track() && !has_key(&keys, &entries[i].added_by) {
            let ghost before = key_views(keys@);
            let key = match &entries[i].added_by {
                Some(id) => Some(id.clone()),
                None => None,
            };
            assert(key_view(key) == views[i as int].added_by);
            keys.push(key);
            assert(key_views(keys@) =~= before.push(views[i as int].added_by));
        }
        i = i + 1;
    }
    assert(views.take(i as int) =~= views);
    keys
}

/// The places of the tracks that the contributor `key` added, ascending:
/// every such place, and no other.
pub fn places_of(entries: &Vec<PlaylistEntry>, key: &Option<String>) -> (places: Vec<usize>)
    ensures
        picked(entry_views(entries@), places@) == tracks_of(
            entry_views(entries@),
            key_view(*key),
        ),
        forall|j: int| 0 <= j < places.len() ==> #[trigger] places[j] < entries.len(),
        forall|j: int, k: int| 0 <= j < k < places.len() ==> places[j] < places[k],
        forall|i: int|
            0 <= i < entries.len() ==> ((#[trigger] entries[i])@.is_track_of(key_view(*key))
                <==> places@.contains(i as usize)),
{
    let ghost views = entry_views(entries@);
    let ghost pred = added_by(key_view(*key));
    let mut places: Vec<usize> = Vec::new();
    let mut i: usize = 0;
    proof {
        reveal(Seq::filter);
        assert(views.take(0) =~= Seq::<EntryView>::empty());
        assert(picked(views, places@) =~= views.take(0).filter(pred));
    }
    while i < entries.len()
        invariant
            views == entry_views(entries@),
            pred == added_by(key_view(*key)),
            i <= entries.len(),
            picked(views, places@) == views.take(i as int).filter(pred),
            forall|j: int| 0 <= j < places.len() ==> #[trigger] places[j] < i,
            forall|j: int, k: int| 0 <= j < k < places.len() ==> places[j] < places[k],
            forall|j: int| 0 <= j < places.len() ==> entries[#[trigger] places[j] as int]@.is_track_of(key_view(*key)),
            forall|m: int|
                0 <= m < i && (#[trigger] entries[m])@.is_track_of(key_view(*key))
                    ==> places@.contains(m as usize),
        decreases entries.len() - i,
    {
        proof {
            assert(views.take(i + 1) =~= views.take(i as int).push(views[i as int]));
            Seq::lemma_filter_push(views.take(i as int), views[i as int], pred);
        }
        if entries[i].is_track() && same_key(&entries[i].added_by, key) {
            let ghost before = picked(views, places@);
            let ghost old_places = places@;
            places.push(i);
            assert(picked(views, places@) =~= before.push(views[i as int]));
            assert forall|m: int|
                0 <= m < i + 1 && (#[trigger] entries[m])@.is_track_of(
                    key_view(*key),
                ) implies places@.contains(m as usize) by {
                if m < i {
                    let j = choose|j: int| 0 <= j < old_places.len() && old_places[j] == m as usize;
                    assert(places@[j] == m as usize);
                } else {
                    assert(places@[places.len() - 1] == i);
                }
            }
        }
        i = i + 1;
    }
    assert(views.take(i as int) =~= views);
    assert forall|m: int| 0 <= m < entries.len() && places@.contains(m as usize) implies (
    #[trigger] entries[m])@.is_track_of(key_view(*key)) by {
        let j = choose|j: int| 0 <= j < places.len() && places[j] == m as usize;
        assert(entries[places[j] as int]@.is_track_of(key_view(*key)));
    }
    places
}

/// The chart's description of the track at one entry, given the playing
/// time of the whole playlist and the colour of the contributor.
pub open spec fn track_info_of(e: EntryView, total: int, now: Timestamp, color: Color) -> TrackInfoView {
    TrackInfoView {
        name: e.name(),
        duration: e.duration(),
        relative_size: Ratio::share(e.duration() as int, total),
        color,
        age_factor: age_factor_of(now, e.added_at),
    }
}

/// The run of one contributor: the tracks that `key` added, in ascending
/// order of playing time, tracks of equal playing time in playlist order.
pub open spec fn group_tracks(
    entries: Seq<EntryView>,
    key: Option<Seq<char>>,
    total: int,
    now: Timestamp,
    color: Color,
) -> Seq<TrackInfoView> {
    let mine = tracks_of(entries, key);
    let order = stable_order(durations(mine));
    Seq::new(mine.len(), |i: int| track_info_of(mine[order[i]], total, now, color))
}

/// The name shown for the contributor `key`: the one that `names` has for
/// the identifier, and the label for the unknown where there is no
/// identifier or no name for it.
pub open spec fn display_name(names: Map<Seq<char>, Seq<char>>, key: Option<Seq<char>>) -> Seq<
    char,
> {
    match key {
        Some(id) => if names.contains_key(id) {
            names[id]
        } else {
            unknown_label()
        },
        None => unknown_label(),
    }
}

/// The chart's description of the contributor `key`.
pub open spec fn group_user(
    entries: Seq<EntryView>,
    names: Map<Seq<char>, Seq<char>>,
    key: Option<Seq<char>>,
    total: int,
    color: Color,
) -> UserInfoView {
    let mine = tracks_of(entries, key);
    UserInfoView {
        name: display_name(names, key),
        relative_size: Ratio::share(total_duration(mine), total),
        total_duration: total_duration(mine) as nat,
        track_count: mine.len(),
        color,
    }
}

/// The chart's description of the track at `entry`.
fn make_track_info(entry: &PlaylistEntry, total: u128, now: Timestamp, color: Color) -> (info:
    TrackInfo)
    ensures
        info@ == track_info_of(entry@, total as int, now, color),
{
    let name = match &entry.item {
        crate::playlist::Playable::Track(t) => t.name.clone(),
        crate::playlist::Playable::Episode => String::new(),
        crate::playlist::Playable::Unavailable => String::new(),
    };
    let duration = entry.duration();
    TrackInfo {
        name,
        duration,
        relative_size: Fraction::of(duration as u128, total),
        color,
        age_factor: age_factor(now, entry.added_at),
    }
}

/// The playing times of the entries at `places`.
fn durations_at(entries: &Vec<PlaylistEntry>, places: &Vec<usize>) -> (keys: Vec<u128>)
    requires
        forall|j: int| 0 <= j < places.len() ==> #[trigger] places[j] < entries.len(),
    ensures
        key_ints(keys@) == durations(picked(entry_views(entries@), places@)),
        forall|k: int| 0 <= k < keys.len() ==> #[trigger] keys[k] <= 0xffff_ffff_ffff_ffff,
{
    let ghost want = durations(picked(entry_views(entries@), places@));
    let mut keys: Vec<u128> = Vec::new();
    let mut j: usize = 0;
    while j < places.len()
        invariant
            want == durations(picked(entry_views(entries@), places@)),
            forall|k: int| 0 <= k < places.len() ==> #[trigger] places[k] < entries.len(),
            j <= places.len(),
            keys.len() == j,
            forall|k: int| 0 <= k < j ==> keys[k] as int == want[k],
            forall|k: int| 0 <= k < j ==> #[trigger] keys[k] <= 0xffff_ffff_ffff_ffff,
        decreases places.len() - j,
    {
        keys.push(entries[places[j]].duration() as u128);
        j = j + 1;
    }
    assert(key_ints(keys@) =~= want);
    keys
}

/// The sum of `keys`.
fn sum_of(keys: &Vec<u128>) -> (total: u128)
    requires
        forall|k: int| 0 <= k < keys.len() ==> #[trigger] keys[k] <= 0xffff_ffff_ffff_ffff,
    ensures
        total == int_sum(key_ints(keys@)),
{
    let ghost ints = key_ints(keys@);
    let mut total: u128 = 0;
    let mut i: usize = 0;
    assert(ints.take(0) =~= Seq::<int>::empty());
    while i < keys.len()
        invariant
            ints == key_ints(keys@),
            forall|k: int| 0 <= k < keys.len() ==> #[trigger] keys[k] <= 0xffff_ffff_ffff_ffff,
            i <= keys.len(),
            total == int_sum(ints.take(i as int)),
            total <= i * 0xffff_ffff_ffff_ffff,
        decreases keys.len() - i,
    {
        assert(ints.take(i + 1).drop_last() =~= ints.take(i as int));
        total = total + keys[i];
        i = i + 1;
    }
    assert(ints.take(i as int) =~= ints);
    total
}

/// The run of the contributor `key` in the chart of a playlist whose tracks
/// play for `total` milliseconds: the contributor's tracks, each in the
/// colour `color`, in ascending order of playing time; tracks of equal
/// playing time stay in playlist order.
pub fn contributor_tracks(
    entries: &Vec<PlaylistEntry>,
    key: &Option<String>,
    total: u128,
    now: Timestamp,
    color: Color,
) -> (tracks: Vec<TrackInfo>)
    ensures
        track_views(tracks@) == group_tracks(
            entry_views(entries@),
            key_view(*key),
            total as int,
            now,
            color,
        ),
{
    let ghost views = entry_views(entries@);
    let ghost mine = tracks_of(views, key_view(*key));
    let ghost want = group_tracks(views, key_view(*key), total as int, now, color);
    let places = places_of(entries, key);
    let keys = durations_at(entries, &places);
    let order = sort_places(&keys);
    let mut tracks: Vec<TrackInfo> = Vec::new();
    let mut i: usize = 0;
    while i < order.len()
        invariant
            views == entry_views(entries@),
            mine == picked(views, places@),
            mine == tracks_of(views, key_view(*key)),
            want == group_tracks(views, key_view(*key), total as int, now, color),
            forall|j: int| 0 <= j < places.len() ==> #[trigger] places[j] < entries.len(),
            order.len() == places.len(),
            forall|j: int| 0 <= j < order.len() ==> 0 <= #[trigger] place_ints(order@)[j] < places.len(),
            place_ints(order@) == stable_order(durations(mine)),
            i <= order.len(),
            tracks.len() == i,
            forall|j: int| 0 <= j < i ==> tracks[j]@ == want[j],
        decreases order.len() - i,
    {
        assert(place_ints(order@)[i as int] == order[i as int]);
        let at = places[order[i]];
        let info = make_track_info(&entries[at], total, now, color);
        assert(mine[order[i as int] as int] == views[at as int]);
        tracks.push(info);
        i = i + 1;
    }
    assert(track_views(tracks@) =~= want);
    tracks
}

/// The chart's description of the contributor `key` of a playlist whose
/// tracks play for `total` milliseconds.
pub fn contributor_summary(
    entries: &Vec<PlaylistEntry>,
    names: &NameMap,
    key: &Option<String>,
    total: u128,
    color: Color,
) -> (user: UserInfo)
    ensures
        user@ == group_user(entry_views(entries@), names@, key_view(*key), total as int, color),
{
    let places = places_of(entries, key);
    let keys = durations_at(entries, &places);
    let own = sum_of(&keys);
    let name = match key {
        Some(id) => match names.get(id) {
            Some(n) => n.clone(),
            None => "Unknown".to_owned(),
        },
        None => "Unknown".to_owned(),
    };
    UserInfo {
        name,
        relative_size: Fraction::of(own, total),
        total_duration: own,
        track_count: places.len() as u64,
        color,
    }
}

/// The playing time of each contributor's tracks, contributor by
/// contributor.
pub open spec fn group_totals(entries: Seq<EntryView>, keys: Seq<Option<Seq<char>>>) -> Seq<int> {
    Seq::new(keys.len(), |i: int| total_duration(tracks_of(entries, keys[i])))
}

/// The contributors in the order of the chart: ascending playing time,
/// contributors of equal playing time in the order in which they first
/// occur in the playlist.
pub open spec fn ordered_keys(entries: Seq<EntryView>) -> Seq<Option<Seq<char>>> {
    let keys = contributor_keys(entries);
    let order = stable_order(group_totals(entries, keys));
    Seq::new(keys.len(), |i: int| keys[order[i]])
}

/// The runs of the contributors `keys`, one after the other, each in the
/// contributor's own colour.
pub open spec fn track_runs(
    entries: Seq<EntryView>,
    keys: Seq<Option<Seq<char>>>,
    total: int,
    now: Timestamp,
) -> Seq<Seq<TrackInfoView>> {
    Seq::new(
        keys.len(),
        |i: int| group_tracks(entries, keys[i], total, now, color_of(keys[i])),
    )
}

/// The descriptions of the contributors `keys`, one after the other.
pub open spec fn user_row(
    entries: Seq<EntryView>,
    names: Map<Seq<char>, Seq<char>>,
    keys: Seq<Option<Seq<char>>>,
    total: int,
) -> Seq<UserInfoView> {
    Seq::new(
        keys.len(),
        |i: int| group_user(entries, names, keys[i], total, color_of(keys[i])),
    )
}

/// The chart-ready description of a playlist, seen at `now`, with the
/// display names `names`.
pub open spec fn playlist_info(
    snapshot: crate::playlist::SnapshotView,
    names: Map<Seq<char>, Seq<char>>,
    now: Timestamp,
) -> PlaylistInfoView {
    let total = total_duration(snapshot.entries);
    let keys = ordered_keys(snapshot.entries);
    PlaylistInfoView {
        name: snapshot.name,
        total_duration: total as nat,
        tracks: track_runs(snapshot.entries, keys, total, now).flatten(),
        users: user_row(snapshot.entries, names, keys, total),
    }
}

/// The playing time of each contributor's tracks, contributor by
/// contributor, in milliseconds.
fn totals_of(entries: &Vec<PlaylistEntry>, keys: &Vec<Option<String>>) -> (totals: Vec<u128>)
    ensures
        key_ints(totals@) == group_totals(entry_views(entries@), key_views(keys@)),
{
    let ghost want = group_totals(entry_views(entries@), key_views(keys@));
    let mut totals: Vec<u128> = Vec::new();
    let mut i: usize = 0;
    while i < keys.len()
        invariant
            want == group_totals(entry_views(entries@), key_views(keys@)),
            i <= keys.len(),
            totals.len() == i,
            forall|k: int| 0 <= k < i ==> totals[k] as int == want[k],
        decreases keys.len() - i,
    {
        let places = places_of(entries, &keys[i]);
        let durs = durations_at(entries, &places);
        let own = sum_of(&durs);
        assert(key_views(keys@)[i as int] == key_view(keys@[i as int]));
        totals.push(own);
        i = i + 1;
    }
    assert(key_ints(totals@) =~= want);
    totals
}

/// Moves the tracks of `run` to the end of `tracks`.
fn append_run(tracks: &mut Vec<TrackInfo>, run: Vec<TrackInfo>)
    ensures
        track_views(final(tracks)@) == track_views(old(tracks)@) + track_views(run@),
{
    let ghost before = tracks@;
    let mut run = run;
    let ghost moved = run@;
    tracks.append(&mut run);
    assert(tracks@ == before + moved);
    assert(track_views(tracks@) =~= track_views(before) + track_views(moved));
}

/// The chart-ready description of a playlist, seen at `now`, with the
/// display names `names`.
///
/// Entries that hold no track are passed over. Tracks are grouped by
/// contributor; contributors stand in ascending order of playing time and
/// each contributor's tracks in ascending order of playing time, and where
/// playing times are equal the order of the playlist decides. A playlist
/// without playing time gives every track and contributor the size zero.
/// There is no input on which this fails.
pub fn aggregate(snapshot: &PlaylistSnapshot, names: &NameMap, now: Timestamp) -> (info:
    PlaylistInfo)
    ensures
        info@ == playlist_info(snapshot@, names@, now),
        is_sound(info@),
{
    let entries = &snapshot.entries;
    let ghost views = entry_views(entries@);
    let total = sum_durations(entries);
    let keys = group_keys(entries);
    let totals = totals_of(entries, &keys);
    let order = sort_places(&totals);
    let ghost sorted = ordered_keys(views);
    let mut tracks: Vec<TrackInfo> = Vec::new();
    let mut users: Vec<UserInfo> = Vec::new();
    let mut i: usize = 0;
    proof {
        assert(sorted.take(0) =~= Seq::<Option<Seq<char>>>::empty());
        assert(track_runs(views, sorted.take(0), total as int, now) =~= Seq::<
            Seq<TrackInfoView>,
        >::empty());
        assert(track_views(tracks@) =~= track_runs(views, sorted.take(0), total as int, now).flatten());
    }
    while i < order.len()
        invariant
            views == entry_views(entries@),
            sorted == ordered_keys(views),
            key_views(keys@) == contributor_keys(views),
            order.len() == keys.len(),
            sorted.len() == keys.len(),
            forall|j: int| 0 <= j < order.len() ==> 0 <= #[trigger] place_ints(order@)[j] < keys.len(),
            forall|j: int| 0 <= j < order.len() ==> sorted[j] == key_view(keys@[order@[j] as int]),
            i <= order.len(),
            users.len() == i,
            forall|j: int|
                0 <= j < i ==> users[j]@ == user_row(views, names@, sorted, total as int)[j],
            track_views(tracks@) == track_runs(views, sorted.take(i as int), total as int, now).flatten(),
        decreases order.len() - i,
    {
        assert(place_ints(order@)[i as int] == order[i as int]);
        let key = &keys[order[i]];
        let color = contributor_color(key);
        let run = contributor_tracks(entries, key, total, now, color);
        let user = contributor_summary(entries, names, key, total, color);
        proof {
            let done = track_runs(views, sorted.take(i as int), total as int, now);
            let next = track_runs(views, sorted.take(i + 1), total as int, now);
            assert(next =~= done.push(track_views(run@)));
            done.lemma_flatten_push(track_views(run@));
        }
        append_run(&mut tracks, run);
        users.push(user);
        i = i + 1;
    }
    proof {
        assert(sorted.take(i as int) =~= sorted);
        assert(user_views(users@) =~= user_row(views, names@, sorted, total as int));
        chart_is_sound(snapshot@, names@, now);
    }
    PlaylistInfo { name: snapshot.name.clone(), total_duration: total, tracks, users }
}

} // verus!
