use collab_playlist::clock::Timestamp;
use collab_playlist::color::{contributor_color, Color};
use collab_playlist::engine::{
    aggregate, contributor_summary, contributor_tracks, group_keys, places_of, sum_durations,
};
use collab_playlist::fraction::Fraction;
use collab_playlist::info::{PlaylistInfo, TrackInfo};
use collab_playlist::names::NameMap;
use collab_playlist::playlist::{Playable, PlaylistEntry, PlaylistSnapshot, Track};

const DAY: i64 = 86_400;

fn now() -> Timestamp {
    Timestamp { secs: 1_000 * DAY, nanos: 0 }
}

fn days_ago(days: i64) -> Option<Timestamp> {
    Some(Timestamp { secs: (1_000 - days) * DAY, nanos: 0 })
}

fn track(name: &str, seconds: u64, by: Option<&str>, added_at: Option<Timestamp>) -> PlaylistEntry {
    PlaylistEntry {
        added_at,
        added_by: by.map(|id| id.to_string()),
        item: Playable::Track(Track { name: name.to_string(), duration: seconds * 1_000 }),
    }
}

fn playlist(entries: Vec<PlaylistEntry>) -> PlaylistSnapshot {
    PlaylistSnapshot { name: "Road trip".to_string(), entries }
}

fn names() -> NameMap {
    let mut names = NameMap::new();
    names.insert("ann".to_string(), "Ann".to_string());
    names.insert("bob".to_string(), "Bob".to_string());
    names.insert("cy".to_string(), "Cy".to_string());
    names
}

fn as_float(f: &Fraction) -> f64 {
    f.num as f64 / f.den as f64
}

fn seconds_of(tracks: &[TrackInfo]) -> Vec<u64> {
    tracks.iter().map(|t| t.duration / 1_000).collect()
}

fn three_contributors() -> PlaylistSnapshot {
    playlist(vec![
        track("a1", 50, Some("ann"), days_ago(1)),
        track("b1", 100, Some("bob"), days_ago(2)),
        track("a2", 10, Some("ann"), days_ago(3)),
        track("c1", 120, Some("cy"), days_ago(4)),
        track("a3", 240, Some("ann"), days_ago(5)),
        track("c2", 80, Some("cy"), days_ago(6)),
    ])
}

fn check_partition(info: &PlaylistInfo) {
    let counted: u64 = info.users.iter().map(|u| u.track_count).sum();
    assert_eq!(counted, info.tracks.len() as u64);
    let mut rebuilt: Vec<TrackInfo> = Vec::new();
    let mut start = 0usize;
    for user in &info.users {
        let end = start + user.track_count as usize;
        let run = &info.tracks[start..end];
        for t in run {
            assert_eq!(t.color, user.color);
        }
        let run_time: u128 = run.iter().map(|t| t.duration as u128).sum();
        assert_eq!(run_time, user.total_duration);
        rebuilt.extend_from_slice(run);
        start = end;
    }
    assert_eq!(rebuilt, info.tracks);
}

#[test]
fn contributors_and_tracks_stand_in_ascending_order() {
    let info = aggregate(&three_contributors(), &names(), now());
    let totals: Vec<u128> = info.users.iter().map(|u| u.total_duration / 1_000).collect();
    assert_eq!(totals, vec![100, 200, 300]);
    let shown: Vec<&str> = info.users.iter().map(|u| u.name.as_str()).collect();
    assert_eq!(shown, vec!["Bob", "Cy", "Ann"]);
    assert_eq!(seconds_of(&info.tracks), vec![100, 80, 120, 10, 50, 240]);
    let track_names: Vec<&str> = info.tracks.iter().map(|t| t.name.as_str()).collect();
    assert_eq!(track_names, vec!["b1", "c2", "c1", "a2", "a1", "a3"]);
}

#[test]
fn tracks_of_one_contributor_ascend() {
    let list = playlist(vec![
        track("x", 50, Some("ann"), None),
        track("y", 10, Some("ann"), None),
        track("z", 30, Some("ann"), None),
    ]);
    let info = aggregate(&list, &names(), now());
    assert_eq!(seconds_of(&info.tracks), vec![10, 30, 50]);
    assert_eq!(info.users.len(), 1);
    assert_eq!(info.users[0].track_count, 3);
}

#[test]
fn contributor_totals_300_100_200_come_out_ascending() {
    let list = playlist(vec![
        track("a", 300, Some("ann"), None),
        track("b", 100, Some("bob"), None),
        track("c", 200, Some("cy"), None),
    ]);
    let info = aggregate(&list, &names(), now());
    let totals: Vec<u128> = info.users.iter().map(|u| u.total_duration).collect();
    assert_eq!(totals, vec![100_000, 200_000, 300_000]);
}

#[test]
fn chart_is_partitioned_into_runs() {
    let info = aggregate(&three_contributors(), &names(), now());
    assert_eq!(info.tracks.len(), 6);
    check_partition(&info);
}

#[test]
fn playing_time_is_conserved() {
    let info = aggregate(&three_contributors(), &names(), now());
    let of_tracks: u128 = info.tracks.iter().map(|t| t.duration as u128).sum();
    let of_users: u128 = info.users.iter().map(|u| u.total_duration).sum();
    assert_eq!(info.total_duration, 600_000);
    assert_eq!(of_tracks, info.total_duration);
    assert_eq!(of_users, info.total_duration);
}

#[test]
fn relative_sizes_are_exact_and_add_up_to_one() {
    let info = aggregate(&three_contributors(), &names(), now());
    for t in &info.tracks {
        assert_eq!(t.relative_size, Fraction { num: t.duration as u128, den: 600_000 });
    }
    for u in &info.users {
        assert_eq!(u.relative_size, Fraction { num: u.total_duration, den: 600_000 });
    }
    assert_eq!(info.users[0].relative_size, Fraction { num: 100_000, den: 600_000 });
    assert_eq!(info.tracks[3].relative_size, Fraction { num: 10_000, den: 600_000 });
    let track_sum: f64 = info.tracks.iter().map(|t| as_float(&t.relative_size)).sum();
    let user_sum: f64 = info.users.iter().map(|u| as_float(&u.relative_size)).sum();
    assert!((track_sum - 1.0).abs() <= 1e-9);
    assert!((user_sum - 1.0).abs() <= 1e-9);
    let nums: u128 = info.tracks.iter().map(|t| t.relative_size.num).sum();
    assert_eq!(nums, 600_000);
}

#[test]
fn zero_durations_give_zero_sizes() {
    let list = playlist(vec![
        track("a", 0, Some("ann"), days_ago(1)),
        track("b", 0, Some("bob"), days_ago(2)),
        track("c", 0, None, None),
    ]);
    let info = aggregate(&list, &names(), now());
    assert_eq!(info.total_duration, 0);
    assert_eq!(info.tracks.len(), 3);
    for t in &info.tracks {
        assert_eq!(t.relative_size, Fraction { num: 0, den: 1 });
        assert_eq!(as_float(&t.relative_size), 0.0);
        assert!(!as_float(&t.relative_size).is_nan());
    }
    for u in &info.users {
        assert_eq!(u.relative_size, Fraction { num: 0, den: 1 });
        assert_eq!(u.total_duration, 0);
    }
    check_partition(&info);
}

#[test]
fn empty_playlist_gives_empty_chart() {
    let info = aggregate(&playlist(vec![]), &names(), now());
    assert_eq!(info.name, "Road trip");
    assert_eq!(info.total_duration, 0);
    assert!(info.tracks.is_empty());
    assert!(info.users.is_empty());
}

#[test]
fn same_input_gives_same_chart() {
    let first = aggregate(&three_contributors(), &names(), now());
    let second = aggregate(&three_contributors(), &names(), now());
    assert_eq!(first, second);
}

#[test]
fn color_depends_on_identifier_alone() {
    let first = aggregate(&three_contributors(), &names(), now());
    let other = playlist(vec![
        track("only", 7, Some("ann"), None),
        track("nobody", 9, None, None),
    ]);
    let second = aggregate(&other, &NameMap::new(), Timestamp { secs: 5, nanos: 5 });
    let ann_first = first.users.iter().find(|u| u.name == "Ann").unwrap().color;
    let ann_second = second.users.iter().find(|u| u.total_duration == 7_000).unwrap().color;
    assert_eq!(ann_first, ann_second);
    assert_eq!(ann_first, contributor_color(&Some("ann".to_string())));
    let unknown = second.users.iter().find(|u| u.total_duration == 9_000).unwrap().color;
    assert_eq!(unknown, contributor_color(&None));
}

#[test]
fn color_is_the_one_random_color_draws_for_the_seed() {
    let drawn = random_color::RandomColor::new().seed("ann").to_rgb_array();
    let color = contributor_color(&Some("ann".to_string()));
    assert_eq!(color, Color { r: drawn[0], g: drawn[1], b: drawn[2] });
    let drawn_empty = random_color::RandomColor::new().seed("").to_rgb_array();
    let unknown = contributor_color(&None);
    assert_eq!(unknown, Color { r: drawn_empty[0], g: drawn_empty[1], b: drawn_empty[2] });
    let other = random_color::RandomColor::new().seed("bob").to_rgb_array();
    assert_eq!(
        contributor_color(&Some("bob".to_string())),
        Color { r: other[0], g: other[1], b: other[2] }
    );
}

#[test]
fn track_added_200_days_ago_is_stale() {
    let list = playlist(vec![
        track("old", 10, Some("ann"), days_ago(200)),
        track("half", 20, Some("ann"), days_ago(100)),
    ]);
    let info = aggregate(&list, &names(), now());
    let old = &info.tracks[0];
    assert_eq!(old.age_factor, Fraction { num: 200, den: 200 });
    assert_eq!(as_float(&old.age_factor), 1.0);
    assert!(as_float(&old.age_factor) > 0.99);
    assert!(old.is_stale());
    let half = &info.tracks[1];
    assert_eq!(half.age_factor, Fraction { num: 100, den: 200 });
    assert_eq!(as_float(&half.age_factor), 0.5);
    assert!(!half.is_stale());
}

#[test]
fn age_is_clamped_and_missing_time_counts_as_new() {
    let list = playlist(vec![
        track("ancient", 1, Some("ann"), days_ago(900)),
        track("future", 2, Some("ann"), days_ago(-30)),
        track("undated", 3, Some("ann"), None),
        track("edge", 4, Some("ann"), days_ago(199)),
        track("below", 5, Some("ann"), days_ago(198)),
    ]);
    let info = aggregate(&list, &names(), now());
    let ages: Vec<u128> = info.tracks.iter().map(|t| t.age_factor.num).collect();
    assert_eq!(ages, vec![200, 0, 0, 199, 198]);
    let stale: Vec<bool> = info.tracks.iter().map(|t| t.is_stale()).collect();
    assert_eq!(stale, vec![true, false, false, true, false]);
    for t in &info.tracks {
        assert_eq!(t.age_factor.den, 200);
        assert_eq!(t.is_stale(), as_float(&t.age_factor) > 0.99);
    }
}

#[test]
fn track_without_contributor_goes_to_the_unknown() {
    let list = playlist(vec![
        track("a", 100, Some("ann"), None),
        track("u1", 30, None, None),
        track("u2", 20, None, None),
    ]);
    let info = aggregate(&list, &names(), now());
    assert_eq!(info.total_duration, 150_000);
    assert_eq!(info.users.len(), 2);
    let unknown = &info.users[0];
    assert_eq!(unknown.name, "Unknown");
    assert_eq!(unknown.total_duration, 50_000);
    assert_eq!(unknown.track_count, 2);
    assert_eq!(unknown.relative_size, Fraction { num: 50_000, den: 150_000 });
    assert_eq!(unknown.color, contributor_color(&None));
    assert_eq!(seconds_of(&info.tracks), vec![20, 30, 100]);
    assert_eq!(info.tracks[0].color, unknown.color);
    let identified = playlist(vec![
        track("a", 100, Some("ann"), None),
        track("u1", 30, Some("bob"), None),
        track("u2", 20, Some("bob"), None),
    ]);
    let same_totals = aggregate(&identified, &names(), now());
    assert_eq!(same_totals.total_duration, info.total_duration);
    assert_eq!(same_totals.users[0].total_duration, unknown.total_duration);
    assert_eq!(same_totals.users[0].relative_size, unknown.relative_size);
}

#[test]
fn contributor_without_a_name_is_shown_as_unknown() {
    let list = playlist(vec![track("a", 100, Some("zed"), None)]);
    let info = aggregate(&list, &names(), now());
    assert_eq!(info.users[0].name, "Unknown");
    assert_eq!(info.users[0].color, contributor_color(&Some("zed".to_string())));
}

#[test]
fn entries_without_a_track_are_passed_over() {
    let list = playlist(vec![
        track("a", 100, Some("ann"), None),
        PlaylistEntry { added_at: days_ago(3), added_by: Some("bob".to_string()), item: Playable::Episode },
        PlaylistEntry { added_at: None, added_by: Some("cy".to_string()), item: Playable::Unavailable },
        PlaylistEntry { added_at: None, added_by: None, item: Playable::Unavailable },
        track("b", 50, Some("ann"), None),
    ]);
    let info = aggregate(&list, &names(), now());
    assert_eq!(info.total_duration, 150_000);
    assert_eq!(info.tracks.len(), 2);
    assert_eq!(info.users.len(), 1);
    assert_eq!(info.users[0].name, "Ann");
    assert_eq!(info.users[0].track_count, 2);
    check_partition(&info);
}

#[test]
fn ties_keep_playlist_order() {
    let list = playlist(vec![
        track("c1", 60, Some("cy"), None),
        track("a1", 30, Some("ann"), None),
        track("b1", 60, Some("bob"), None),
        track("a2", 30, Some("ann"), None),
        track("b2", 60, Some("bob"), None),
        track("c2", 60, Some("cy"), None),
        track("a3", 60, Some("ann"), None),
    ]);
    let info = aggregate(&list, &names(), now());
    let shown: Vec<&str> = info.users.iter().map(|u| u.name.as_str()).collect();
    assert_eq!(shown, vec!["Cy", "Ann", "Bob"]);
    let track_names: Vec<&str> = info.tracks.iter().map(|t| t.name.as_str()).collect();
    assert_eq!(track_names, vec!["c1", "c2", "a1", "a2", "a3", "b1", "b2"]);
}

#[test]
fn steps_of_the_engine_agree_with_the_whole() {
    let list = three_contributors();
    assert_eq!(sum_durations(&list.entries), 600_000);
    let keys = group_keys(&list.entries);
    assert_eq!(
        keys,
        vec![Some("ann".to_string()), Some("bob".to_string()), Some("cy".to_string())]
    );
    assert_eq!(places_of(&list.entries, &Some("ann".to_string())), vec![0, 2, 4]);
    assert_eq!(places_of(&list.entries, &None), Vec::<usize>::new());
    let red = Color { r: 200, g: 10, b: 10 };
    let run = contributor_tracks(&list.entries, &Some("cy".to_string()), 600_000, now(), red);
    assert_eq!(
        run,
        vec![
            TrackInfo {
                name: "c2".to_string(),
                duration: 80_000,
                relative_size: Fraction { num: 80_000, den: 600_000 },
                color: red,
                age_factor: Fraction { num: 6, den: 200 },
            },
            TrackInfo {
                name: "c1".to_string(),
                duration: 120_000,
                relative_size: Fraction { num: 120_000, den: 600_000 },
                color: red,
                age_factor: Fraction { num: 4, den: 200 },
            },
        ]
    );
    let user = contributor_summary(&list.entries, &names(), &Some("cy".to_string()), 600_000, red);
    assert_eq!(user.name, "Cy");
    assert_eq!(user.total_duration, 200_000);
    assert_eq!(user.track_count, 2);
    assert_eq!(user.relative_size, Fraction { num: 200_000, den: 600_000 });
    assert_eq!(user.color, red);
}

#[test]
fn very_long_tracks_do_not_overflow() {
    let list = playlist(vec![
        PlaylistEntry {
            added_at: None,
            added_by: Some("ann".to_string()),
            item: Playable::Track(Track { name: "x".to_string(), duration: u64::MAX }),
        },
        PlaylistEntry {
            added_at: None,
            added_by: Some("ann".to_string()),
            item: Playable::Track(Track { name: "y".to_string(), duration: u64::MAX }),
        },
    ]);
    let info = aggregate(&list, &names(), now());
    assert_eq!(info.total_duration, 2 * (u64::MAX as u128));
    assert_eq!(info.users[0].total_duration, info.total_duration);
    assert_eq!(info.users[0].relative_size.num, info.users[0].relative_size.den);
}

fn next(state: &mut u64) -> u64 {
    *state = state.wrapping_mul(6_364_136_223_846_793_005).wrapping_add(1_442_695_040_888_963_407);
    *state >> 33
}

#[test]
fn chart_agrees_with_a_plain_reckoning() {
    let ids = ["ann", "bob", "cy", "dee", "eve"];
    let mut state = 7u64;
    let mut entries = Vec::new();
    for n in 0..300u64 {
        let by = match next(&mut state) % 6 {
            5 => None,
            k => Some(ids[k as usize]),
        };
        let added_at = match next(&mut state) % 4 {
            0 => None,
            _ => days_ago((next(&mut state) % 400) as i64 - 20),
        };
        let mut e = track(&format!("t{n}"), next(&mut state) % 40, by, added_at);
        match next(&mut state) % 10 {
            0 => e.item = Playable::Episode,
            1 => e.item = Playable::Unavailable,
            _ => {}
        }
        entries.push(e);
    }
    let list = playlist(entries.clone());
    let info = aggregate(&list, &names(), now());

    let included: Vec<&PlaylistEntry> =
        entries.iter().filter(|e| matches!(e.item, Playable::Track(_))).collect();
    let millis = |e: &PlaylistEntry| match &e.item {
        Playable::Track(t) => t.duration as u128,
        _ => 0,
    };
    let total: u128 = included.iter().map(|e| millis(e)).sum();
    let mut keys: Vec<Option<String>> = Vec::new();
    for e in &included {
        if !keys.contains(&e.added_by) {
            keys.push(e.added_by.clone());
        }
    }
    let mut groups: Vec<(Option<String>, Vec<&PlaylistEntry>)> = keys
        .into_iter()
        .map(|k| {
            let mut mine: Vec<&PlaylistEntry> =
                included.iter().filter(|e| e.added_by == k).cloned().collect();
            mine.sort_by_key(|e| millis(e));
            (k, mine)
        })
        .collect();
    groups.sort_by_key(|(_, mine)| mine.iter().map(|e| millis(e)).sum::<u128>());

    assert_eq!(info.total_duration, total);
    assert_eq!(info.users.len(), groups.len());
    assert_eq!(info.tracks.len(), included.len());
    let mut at = 0usize;
    for (user, (key, mine)) in info.users.iter().zip(groups.iter()) {
        let own: u128 = mine.iter().map(|e| millis(e)).sum();
        let shown = match key.as_deref() {
            Some("ann") => "Ann",
            Some("bob") => "Bob",
            Some("cy") => "Cy",
            _ => "Unknown",
        };
        assert_eq!(user.name, shown);
        assert_eq!(user.total_duration, own);
        assert_eq!(user.track_count, mine.len() as u64);
        assert_eq!(user.relative_size, Fraction::of(own, total));
        assert_eq!(user.color, contributor_color(key));
        for e in mine {
            let t = &info.tracks[at];
            let name = match &e.item {
                Playable::Track(t) => t.name.clone(),
                _ => unreachable!(),
            };
            assert_eq!(t.name, name);
            assert_eq!(t.duration as u128, millis(e));
            assert_eq!(t.relative_size, Fraction::of(millis(e), total));
            assert_eq!(t.color, user.color);
            let days = match e.added_at {
                Some(then) => ((now().secs - then.secs) / DAY).clamp(0, 200) as u128,
                None => 0,
            };
            assert_eq!(t.age_factor, Fraction { num: days, den: 200 });
            at += 1;
        }
    }
    check_partition(&info);
}
