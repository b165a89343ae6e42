use collab_playlist::clock::Timestamp;
use collab_playlist::engine::aggregate;
use collab_playlist::names::{
    distinct_contributors, name_map_of, resolve_name, LookupOutcome, NameMap,
};
use collab_playlist::playlist::{Playable, PlaylistEntry, PlaylistSnapshot, Track};

fn entry(by: Option<&str>, item: Playable) -> PlaylistEntry {
    PlaylistEntry { added_at: None, added_by: by.map(|id| id.to_string()), item }
}

fn song(name: &str, millis: u64) -> Playable {
    Playable::Track(Track { name: name.to_string(), duration: millis })
}

fn found(name: Option<&str>) -> LookupOutcome {
    LookupOutcome::Found { display_name: name.map(|n| n.to_string()) }
}

#[test]
fn display_name_is_used_where_there_is_one() {
    assert_eq!(resolve_name(&"u1".to_string(), &found(Some("Ann"))), "Ann");
}

#[test]
fn identifier_stands_in_for_a_missing_or_empty_name() {
    assert_eq!(resolve_name(&"u1".to_string(), &found(None)), "u1");
    assert_eq!(resolve_name(&"u1".to_string(), &found(Some(""))), "u1");
}

#[test]
fn failed_lookup_gets_the_fallback_name() {
    assert_eq!(resolve_name(&"u1".to_string(), &LookupOutcome::Failed), "Failed to get user");
}

#[test]
fn name_map_starts_empty_and_keeps_the_latest_name() {
    let mut names = NameMap::new();
    assert_eq!(names.get(&"u1".to_string()), None);
    assert!(!names.contains(&"u1".to_string()));
    names.insert("u1".to_string(), "Ann".to_string());
    names.insert("u2".to_string(), "Bob".to_string());
    assert_eq!(names.get(&"u1".to_string()), Some(&"Ann".to_string()));
    assert_eq!(names.get(&"u2".to_string()), Some(&"Bob".to_string()));
    names.insert("u1".to_string(), "Anna".to_string());
    assert_eq!(names.get(&"u1".to_string()), Some(&"Anna".to_string()));
    assert!(names.contains(&"u2".to_string()));
    assert!(!names.contains(&"u3".to_string()));
}

#[test]
fn name_map_covers_exactly_what_was_looked_up() {
    let lookups = vec![
        ("u1".to_string(), found(Some("Ann"))),
        ("u2".to_string(), found(None)),
        ("u3".to_string(), LookupOutcome::Failed),
    ];
    let names = name_map_of(&lookups);
    assert_eq!(names.get(&"u1".to_string()), Some(&"Ann".to_string()));
    assert_eq!(names.get(&"u2".to_string()), Some(&"u2".to_string()));
    assert_eq!(names.get(&"u3".to_string()), Some(&"Failed to get user".to_string()));
    assert_eq!(names.get(&"u4".to_string()), None);
    assert_eq!(name_map_of(&vec![]).get(&"u1".to_string()), None);
}

#[test]
fn one_failed_lookup_leaves_the_others_alone() {
    let list = PlaylistSnapshot {
        name: "Mix".to_string(),
        entries: vec![
            entry(Some("u1"), song("a", 3_000)),
            entry(Some("u2"), song("b", 1_000)),
            entry(Some("u3"), song("c", 2_000)),
        ],
    };
    let ids = distinct_contributors(&list);
    assert_eq!(ids, vec!["u1".to_string(), "u2".to_string(), "u3".to_string()]);
    let lookups = vec![
        (ids[0].clone(), found(Some("Ann"))),
        (ids[1].clone(), LookupOutcome::Failed),
        (ids[2].clone(), found(Some("Cy"))),
    ];
    let names = name_map_of(&lookups);
    let info = aggregate(&list, &names, Timestamp { secs: 0, nanos: 0 });
    let shown: Vec<&str> = info.users.iter().map(|u| u.name.as_str()).collect();
    assert_eq!(shown, vec!["Failed to get user", "Cy", "Ann"]);
    assert_eq!(info.total_duration, 6_000);
    assert_eq!(info.tracks.len(), 3);
}

#[test]
fn contributors_are_listed_once_in_order_of_first_occurrence() {
    let list = PlaylistSnapshot {
        name: "Mix".to_string(),
        entries: vec![
            entry(Some("u2"), song("a", 1)),
            entry(None, song("b", 1)),
            entry(Some("u1"), Playable::Episode),
            entry(Some("u2"), song("c", 1)),
            entry(Some("u3"), Playable::Unavailable),
            entry(Some("u1"), song("d", 1)),
        ],
    };
    assert_eq!(
        distinct_contributors(&list),
        vec!["u2".to_string(), "u1".to_string(), "u3".to_string()]
    );
    let empty = PlaylistSnapshot { name: "None".to_string(), entries: vec![] };
    assert_eq!(distinct_contributors(&empty), Vec::<String>::new());
}
