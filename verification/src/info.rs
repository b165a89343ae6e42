//! The chart-ready description of a playlist.

use vstd::prelude::*;
use crate::color::Color;
use crate::fraction::{Fraction, Ratio};

verus! {

/// One track of the chart.
#[derive(Clone, Debug, PartialEq, Eq)]
pub struct TrackInfo {
    pub name: String,
    /// Playing time in milliseconds.
    pub duration: u64,
    /// The track's share of the playing time of the whole playlist.
    pub relative_size: Fraction,
    /// The colour of the contributor who added the track.
    pub color: Color,
    /// How old the track is, from zero for a new one to one for a track at
    /// or past the staleness horizon.
    pub age_factor: Fraction,
}

/// What a `TrackInfo` holds, as mathematical values.
pub struct TrackInfoView {
    pub name: Seq<char>,
    pub duration: nat,
    pub relative_size: Ratio,
    pub color: Color,
    pub age_factor: Ratio,
}

impl View for TrackInfo {
    type V = TrackInfoView;

    open spec fn view(&self) -> TrackInfoView {
        TrackInfoView {
            name: self.name@,
            duration: self.duration as nat,
            relative_size: self.relative_size@,
            color: self.color,
            age_factor: self.age_factor@,
        }
    }
}

impl TrackInfoView {
    /// The track is stale: its age factor is above 99 hundredths.
    pub open spec fn is_stale(self) -> bool {
        self.age_factor.above_percent(99)
    }
}

impl TrackInfo {
    /// Whether the track is stale. Nothing stores this: it is read off the
    /// age factor each time.
    pub fn is_stale(&self) -> (stale: bool)
        ensures
            stale == self@.is_stale(),
    {
        self.age_factor.exceeds_99_percent()
    }
}

/// One contributor of the chart.
#[derive(Clone, Debug, PartialEq, Eq)]
pub struct UserInfo {
    pub name: String,
    /// The contributor's share of the playing time of the whole playlist.
    pub relative_size: Fraction,
    /// The playing time of the contributor's tracks, in milliseconds.
    pub total_duration: u128,
    pub track_count: u64,
    pub color: Color,
}

/// What a `UserInfo` holds, as mathematical values.
pub struct UserInfoView {
    pub name: Seq<char>,
    pub relative_size: Ratio,
    pub total_duration: nat,
    pub track_count: nat,
    pub color: Color,
}

impl View for UserInfo {
    type V = UserInfoView;

    open spec fn view(&self) -> UserInfoView {
        UserInfoView {
            name: self.name@,
            relative_size: self.relative_size@,
            total_duration: self.total_duration as nat,
            track_count: self.track_count as nat,
            color: self.color,
        }
    }
}

/// A playlist ready for the chart: the contributors in ascending order of
/// playing time, and the tracks in one run per contributor, the runs in the
/// order of the contributors.
#[derive(Clone, Debug, PartialEq, Eq)]
pub struct PlaylistInfo {
    pub name: String,
    /// The playing time of all tracks, in milliseconds.
    pub total_duration: u128,
    pub tracks: Vec<TrackInfo>,
    pub users: Vec<UserInfo>,
}

/// What a `PlaylistInfo` holds, as mathematical values.
pub struct PlaylistInfoView {
    pub name: Seq<char>,
    pub total_duration: nat,
    pub tracks: Seq<TrackInfoView>,
    pub users: Seq<UserInfoView>,
}

/// The views of a sequence of tracks.
pub open spec fn track_views(tracks: Seq<TrackInfo>) -> Seq<TrackInfoView> {
    Seq::new(tracks.len(), |i: int| tracks[i]@)
}

/// The views of a sequence of contributors.
pub open spec fn user_views(users: Seq<UserInfo>) -> Seq<UserInfoView> {
    Seq::new(users.len(), |i: int| users[i]@)
}

impl View for PlaylistInfo {
    type V = PlaylistInfoView;

    open spec fn view(&self) -> PlaylistInfoView {
        PlaylistInfoView {
            name: self.name@,
            total_duration: self.total_duration as nat,
            tracks: track_views(self.tracks@),
            users: user_views(self.users@),
        }
    }
}

} // verus!
