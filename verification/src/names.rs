//! Display names of contributors.
//!
//! The caller looks every contributor up, one lookup per identifier, and
//! hands over what came back. A lookup that failed costs that contributor
//! its name and nothing else.

use vstd::prelude::*;
use crate::playlist::{EntryView, PlaylistSnapshot};

verus! {

/// The name shown for a contributor without an identifier, or with one that
/// has no entry in the name map.
pub open spec fn unknown_label() -> Seq<char> {
    "Unknown"@
}

/// The name shown for a contributor whose lookup failed.
pub open spec fn lookup_failed_label() -> Seq<char> {
    "Failed to get user"@
}

/// What the lookup of one contributor gave.
#[derive(Clone, Debug, PartialEq, Eq)]
pub enum LookupOutcome {
    /// The contributor exists; a display name may be missing.
    Found { display_name: Option<String> },
    /// The lookup failed, for whatever reason.
    Failed,
}

/// The name under which a contributor goes: the display name that the
/// lookup gave; the identifier itself where it gave none or an empty one;
/// the label for failed lookups where it failed.
pub open spec fn resolved_name(id: Seq<char>, outcome: LookupOutcome) -> Seq<char> {
    match outcome {
        LookupOutcome::Found { display_name: Some(name) } => if name@.len() > 0 {
            name@
        } else {
            id
        },
        LookupOutcome::Found { display_name: None } => id,
        LookupOutcome::Failed => lookup_failed_label(),
    }
}

/// The name under which the contributor `id` goes, given its lookup.
pub fn resolve_name(id: &String, outcome: &LookupOutcome) -> (name: String)
    ensures
        name@ == resolved_name(id@, *outcome),
{
    match outcome {
        LookupOutcome::Found { display_name: Some(name) } => {
            if name.as_str().is_empty() {
                id.clone()
            } else {
                name.clone()
            }
        },
        LookupOutcome::Found { display_name: None } => id.clone(),
        LookupOutcome::Failed => "Failed to get user".to_owned(),
    }
}

/// The map that a list of pairs stands for; of two pairs with the same
/// identifier the later one counts.
pub open spec fn pairs_map(pairs: Seq<(String, String)>) -> Map<Seq<char>, Seq<char>>
    decreases pairs.len(),
{
    if pairs.len() == 0 {
        Map::empty()
    } else {
        pairs_map(pairs.drop_last()).insert(pairs.last().0@, pairs.last().1@)
    }
}

/// Display names by contributor identifier.
#[derive(Clone, Debug, PartialEq, Eq)]
pub struct NameMap {
    pairs: Vec<(String, String)>,
}

impl View for NameMap {
    type V = Map<Seq<char>, Seq<char>>;

    closed spec fn view(&self) -> Map<Seq<char>, Seq<char>> {
        pairs_map(self.pairs@)
    }
}

impl NameMap {
    /// A map without names.
    pub fn new() -> (names: NameMap)
        ensures
            names@ == Map::<Seq<char>, Seq<char>>::empty(),
    {
        NameMap { pairs: Vec::new() }
    }

    /// Gives `id` the name `name`, in place of any name it had.
    pub fn insert(&mut self, id: String, name: String)
        ensures
            final(self)@ == old(self)@.insert(id@, name@),
    {
        let ghost before = self.pairs@;
        self.pairs.push((id, name));
        assert(self.pairs@.drop_last() =~= before);
    }

    /// The name of `id`, if it has one.
    pub fn get(&self, id: &String) -> (name: Option<&String>)
        ensures
            name is Some <==> self@.contains_key(id@),
            name matches Some(n) ==> n@ == self@[id@],
    {
        let mut found: Option<&String> = None;
        let mut i: usize = 0;
        assert(self.pairs@.take(0) =~= Seq::<(String, String)>::empty());
        while i < self.pairs.len()
            invariant
                i <= self.pairs.len(),
                found is Some <==> pairs_map(self.pairs@.take(i as int)).contains_key(id@),
                found matches Some(n) ==> n@ == pairs_map(self.pairs@.take(i as int))[id@],
            decreases self.pairs.len() - i,
        {
            assert(self.pairs@.take(i + 1).drop_last() =~= self.pairs@.take(i as int));
            if self.pairs[i].0 == *id {
                found = Some(&self.pairs[i].1);
            }
            i = i + 1;
        }
        assert(self.pairs@.take(i as int) =~= self.pairs@);
        found
    }

    /// Whether `id` has a name.
    pub fn contains(&self, id: &String) -> (b: bool)
        ensures
            b == self@.contains_key(id@),
    {
        self.get(id).is_some()
    }
}

/// The name map that a list of lookups stands for: each identifier with its
/// resolved name; of two lookups of one identifier the later one counts.
pub open spec fn resolved_names(lookups: Seq<(String, LookupOutcome)>) -> Map<
    Seq<char>,
    Seq<char>,
>
    decreases lookups.len(),
{
    if lookups.len() == 0 {
        Map::empty()
    } else {
        resolved_names(lookups.drop_last()).insert(
            lookups.last().0@,
            resolved_name(lookups.last().0@, lookups.last().1),
        )
    }
}

/// The name map of a round of lookups. It names exactly the identifiers
/// that were looked up, and there is no input on which it fails.
pub fn name_map_of(lookups: &Vec<(String, LookupOutcome)>) -> (names: NameMap)
    ensures
        names@ == resolved_names(lookups@),
{
    let mut names = NameMap::new();
    let mut i: usize = 0;
    assert(lookups@.take(0) =~= Seq::<(String, LookupOutcome)>::empty());
    while i < lookups.len()
        invariant
            i <= lookups.len(),
            names@ == resolved_names(lookups@.take(i as int)),
        decreases lookups.len() - i,
    {
        assert(lookups@.take(i + 1).drop_last() =~= lookups@.take(i as int));
        let name = resolve_name(&lookups[i].0, &lookups[i].1);
        names.insert(lookups[i].0.clone(), name);
        i = i + 1;
    }
    assert(lookups@.take(i as int) =~= lookups@);
    names
}

/// The name map covers exactly the identifiers that were looked up.
pub proof fn resolved_names_cover(lookups: Seq<(String, LookupOutcome)>, id: Seq<char>)
    ensures
        resolved_names(lookups).contains_key(id) <==> exists|i: int|
            0 <= i < lookups.len() && (#[trigger] lookups[i]).0@ == id,
    decreases lookups.len(),
{
    if lookups.len() > 0 {
        let rest = lookups.drop_last();
        resolved_names_cover(rest, id);
        if resolved_names(lookups).contains_key(id) {
            if lookups.last().0@ == id {
                assert(lookups[lookups.len() - 1].0@ == id);
            } else {
                let i = choose|i: int| 0 <= i < rest.len() && (#[trigger] rest[i]).0@ == id;
                assert(lookups[i].0@ == id);
            }
        }
        if exists|i: int| 0 <= i < lookups.len() && (#[trigger] lookups[i]).0@ == id {
            let i = choose|i: int| 0 <= i < lookups.len() && (#[trigger] lookups[i]).0@ == id;
            if i < rest.len() {
                assert(rest[i].0@ == id);
            }
        }
    }
}

/// A failed lookup stays with its own contributor: where every identifier
/// was looked up once, the name of each is what its own lookup resolves to,
/// whatever the other lookups gave.
pub proof fn lookups_are_independent(lookups: Seq<(String, LookupOutcome)>, i: int)
    requires
        0 <= i < lookups.len(),
        forall|a: int, b: int|
            0 <= a < b < lookups.len() ==> (#[trigger] lookups[a]).0@ != (#[trigger] lookups[b]).0@,
    ensures
        resolved_names(lookups).contains_key(lookups[i].0@),
        resolved_names(lookups)[lookups[i].0@] == resolved_name(lookups[i].0@, lookups[i].1),
    decreases lookups.len(),
{
    if i < lookups.len() - 1 {
        let rest = lookups.drop_last();
        assert forall|a: int, b: int| 0 <= a < b < rest.len() implies (#[trigger] rest[a]).0@ != (
        #[trigger] rest[b]).0@ by {
            assert(lookups[a].0@ != lookups[b].0@);
        }
        lookups_are_independent(rest, i);
        assert(lookups[i].0@ != lookups[lookups.len() - 1].0@);
    }
}

/// The identifiers of the contributors of a playlist, each once, in the
/// order in which they first occur. Entries without a contributor add
/// nothing.
pub open spec fn contributor_ids(entries: Seq<EntryView>) -> Seq<Seq<char>>
    decreases entries.len(),
{
    if entries.len() == 0 {
        Seq::empty()
    } else {
        let rest = contributor_ids(entries.drop_last());
        match entries.last().added_by {
            Some(id) => if rest.contains(id) {
                rest
            } else {
                rest.push(id)
            },
            None => rest,
        }
    }
}

/// The views of a sequence of strings.
pub open spec fn string_views(strings: Seq<String>) -> Seq<Seq<char>> {
    Seq::new(strings.len(), |i: int| strings[i]@)
}

/// No identifier occurs twice among the contributors of a playlist.
pub proof fn contributor_ids_are_distinct(entries: Seq<EntryView>)
    ensures
        contributor_ids(entries).no_duplicates(),
    decreases entries.len(),
{
    if entries.len() > 0 {
        contributor_ids_are_distinct(entries.drop_last());
    }
}

/// The contributors of a playlist are exactly the identifiers that its
/// entries carry.
pub proof fn contributor_ids_cover(entries: Seq<EntryView>, id: Seq<char>)
    ensures
        contributor_ids(entries).contains(id) <==> exists|i: int|
            0 <= i < entries.len() && (#[trigger] entries[i]).added_by == Some(id),
    decreases entries.len(),
{
    if entries.len() > 0 {
        let rest = entries.drop_last();
        let last = entries.last();
        contributor_ids_cover(rest, id);
        let ids = contributor_ids(entries);
        let rest_ids = contributor_ids(rest);
        if ids.contains(id) {
            if rest_ids.contains(id) {
                let i = choose|i: int| 0 <= i < rest.len() && (#[trigger] rest[i]).added_by == Some(id);
                assert(entries[i].added_by == Some(id));
            } else {
                assert(last.added_by == Some(id));
                assert(entries[entries.len() - 1].added_by == Some(id));
            }
        }
        if exists|i: int| 0 <= i < entries.len() && (#[trigger] entries[i]).added_by == Some(id) {
            let i = choose|i: int| 0 <= i < entries.len() && (#[trigger] entries[i]).added_by == Some(id);
            if i < rest.len() {
                assert(rest[i].added_by == Some(id));
                assert(rest_ids.contains(id));
                if ids != rest_ids {
                    let k = choose|k: int| 0 <= k < rest_ids.len() && rest_ids[k] == id;
                    assert(ids[k] == id);
                }
            } else {
                if !rest_ids.contains(id) {
                    assert(ids[ids.len() - 1] == id);
                }
            }
        }
    }
}

/// The identifiers to look up for a playlist: every contributor once, in
/// the order of first occurrence.
pub fn distinct_contributors(snapshot: &PlaylistSnapshot) -> (ids: Vec<String>)
    ensures
        string_views(ids@) == contributor_ids(snapshot@.entries),
        string_views(ids@).no_duplicates(),
{
    let ghost views = snapshot@.entries;
    let mut ids: Vec<String> = Vec::new();
    let mut i: usize = 0;
    assert(views.take(0) =~= Seq::<EntryView>::empty());
    assert(string_views(ids@) =~= Seq::<Seq<char>>::empty());
    while i < snapshot.entries.len()
        invariant
            views == snapshot@.entries,
            i <= snapshot.entries.len(),
            string_views(ids@) == contributor_ids(views.take(i as int)),
        decreases snapshot.entries.len() - i,
    {
        assert(views.take(i + 1).drop_last() =~= views.take(i as int));
        assert(views.take(i + 1).last() == snapshot.entries@[i as int]@);
        match &snapshot.entries[i].added_by {
            Some(id) => {
                if !holds(&ids, id) {
                    let ghost before = string_views(ids@);
                    ids.push(id.clone());
                    assert(string_views(ids@) =~= before.push(id@));
                }
            },
            None => {},
        }
        i = i + 1;
    }
    assert(views.take(i as int) =~= views);
    proof {
        contributor_ids_are_distinct(views);
    }
    ids
}

/// Whether `id` is among `ids`.
fn holds(ids: &Vec<String>, id: &String) -> (b: bool)
    ensures
        b == string_views(ids@).contains(id@),
{
    let mut i: usize = 0;
    while i < ids.len()
        invariant
            i <= ids.len(),
            forall|j: int| 0 <= j < i ==> string_views(ids@)[j] != id@,
        decreases ids.len() - i,
    {
        if ids[i] == *id {
            assert(string_views(ids@)[i as int] == id@);
            return true;
        }
        i = i + 1;
    }
    false
}

} // verus!
