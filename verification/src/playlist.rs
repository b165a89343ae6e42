//! A playlist as the music service hands it over.

use vstd::prelude::*;
use crate::clock::Timestamp;

verus! {

/// A track: its name and its playing time in whole milliseconds.
#[derive(Clone, Debug, PartialEq, Eq)]
pub struct Track {
    pub name: String,
    pub duration: u64,
}

/// What a `Track` holds, as mathematical values.
pub struct TrackView {
    pub name: Seq<char>,
    pub duration: nat,
}

impl View for Track {
    type V = TrackView;

    open spec fn view(&self) -> TrackView {
        TrackView { name: self.name@, duration: self.duration as nat }
    }
}

impl Track {
    /// A track of `millis` milliseconds, or nothing where `millis` is
    /// negative: a playing time is never negative.
    pub fn new(name: String, millis: i64) -> (t: Option<Track>)
        ensures
            millis < 0 <==> t is None,
            t matches Some(track) ==> track@ == (TrackView {
                name: name@,
                duration: millis as nat,
            }),
    {
        if millis < 0 {
            None
        } else {
            Some(Track { name, duration: millis as u64 })
        }
    }
}

/// What stands at one place of a playlist. Only a track counts; an episode
/// and a place whose item is gone or unreadable are passed over.
#[derive(Clone, Debug, PartialEq, Eq)]
pub enum Playable {
    Track(Track),
    Episode,
    Unavailable,
}

impl View for Playable {
    type V = Option<TrackView>;

    open spec fn view(&self) -> Option<TrackView> {
        match self {
            Playable::Track(t) => Some(t@),
            Playable::Episode => None,
            Playable::Unavailable => None,
        }
    }
}

impl Playable {
    /// The item for a track of `millis` milliseconds: the track, or an
    /// unavailable item where `millis` is negative and so no playing time.
    pub fn from_track(name: String, millis: i64) -> (item: Playable)
        ensures
            item@ == if millis < 0 {
                None::<TrackView>
            } else {
                Some(TrackView { name: name@, duration: millis as nat })
            },
            millis < 0 ==> item == Playable::Unavailable,
    {
        match Track::new(name, millis) {
            Some(track) => Playable::Track(track),
            None => Playable::Unavailable,
        }
    }
}

/// The view of an optional identifier.
pub open spec fn key_view(key: Option<String>) -> Option<Seq<char>> {
    match key {
        Some(id) => Some(id@),
        None => None,
    }
}

/// One place of a playlist: the item, when it was added and by whom.
#[derive(Clone, Debug, PartialEq, Eq)]
pub struct PlaylistEntry {
    pub added_at: Option<Timestamp>,
    pub added_by: Option<String>,
    pub item: Playable,
}

/// What a `PlaylistEntry` holds, as mathematical values. `track` is the
/// track at that place, if there is one.
pub struct EntryView {
    pub added_at: Option<Timestamp>,
    pub added_by: Option<Seq<char>>,
    pub track: Option<TrackView>,
}

impl View for PlaylistEntry {
    type V = EntryView;

    open spec fn view(&self) -> EntryView {
        EntryView {
            added_at: self.added_at,
            added_by: key_view(self.added_by),
            track: self.item@,
        }
    }
}

/// The views of a sequence of entries.
pub open spec fn entry_views(entries: Seq<PlaylistEntry>) -> Seq<EntryView> {
    Seq::new(entries.len(), |i: int| entries[i]@)
}

/// A playlist: its name and its entries in playlist order.
#[derive(Clone, Debug, PartialEq, Eq)]
pub struct PlaylistSnapshot {
    pub name: String,
    pub entries: Vec<PlaylistEntry>,
}

/// What a `PlaylistSnapshot` holds, as mathematical values.
pub struct SnapshotView {
    pub name: Seq<char>,
    pub entries: Seq<EntryView>,
}

impl View for PlaylistSnapshot {
    type V = SnapshotView;

    open spec fn view(&self) -> SnapshotView {
        SnapshotView { name: self.name@, entries: entry_views(self.entries@) }
    }
}

impl EntryView {
    /// The entry holds a track.
    pub open spec fn is_track(self) -> bool {
        self.track is Some
    }

    /// The playing time of the entry's track; zero where it holds none.
    pub open spec fn duration(self) -> nat {
        match self.track {
            Some(t) => t.duration,
            None => 0,
        }
    }

    /// The name of the entry's track; empty where it holds none.
    pub open spec fn name(self) -> Seq<char> {
        match self.track {
            Some(t) => t.name,
            None => Seq::empty(),
        }
    }

    /// The entry holds a track that the contributor `key` added.
    pub open spec fn is_track_of(self, key: Option<Seq<char>>) -> bool {
        self.track is Some && self.added_by == key
    }
}

impl PlaylistEntry {
    /// Whether the entry holds a track.
    pub fn is_track(&self) -> (b: bool)
        ensures
            b == self@.is_track(),
    {
        match &self.item {
            Playable::Track(_) => true,
            Playable::Episode => false,
            Playable::Unavailable => false,
        }
    }

    /// The playing time of the entry's track; zero where it holds none.
    pub fn duration(&self) -> (d: u64)
        ensures
            d == self@.duration(),
    {
        match &self.item {
            Playable::Track(t) => t.duration,
            Playable::Episode => 0,
            Playable::Unavailable => 0,
        }
    }
}

/// Whether two optional identifiers are the same.
pub fn same_key(a: &Option<String>, b: &Option<String>) -> (same: bool)
    ensures
        same == (key_view(*a) == key_view(*b)),
{
    match a {
        Some(x) => match b {
            Some(y) => *x == *y,
            None => false,
        },
        None => match b {
            Some(_) => false,
            None => true,
        },
    }
}

} // verus!
