//! Directory listings as plain values, and what the cleaner picks from them.
//!
//! A location is a value of any type `P`: the library hands locations on and
//! never looks inside one.

use vstd::prelude::*;
use crate::names::{is_artifact_name, is_mirror_name, names_artifact, names_mirror};

verus! {

/// One entry of a directory, as whoever listed the directory saw it.
#[derive(Debug, PartialEq, Eq)]
pub struct Entry<P> {
    /// The entry's file name, where that name is valid text.
    pub name: Option<String>,
    /// Where the entry lies.
    pub path: P,
    /// Whether the platform says that the entry is a file, and so neither a
    /// directory nor anything else that merely has a name.
    pub is_file: bool,
}

/// What came back from listing a directory: `None` where the directory could
/// not be listed; inside, one slot for each entry in the order the platform
/// gave them, `None` where that entry could not be read.
pub type Listing<P> = Option<Vec<Option<Entry<P>>>>;

/// Whether a listing's slot holds a readable entry named like a registry
/// mirror directory. A slot is `None` where the entry could not be read.
pub open spec fn holds_mirror<P>(slot: Option<Entry<P>>) -> bool {
    slot matches Some(entry) && entry.name matches Some(name) && is_mirror_name(name@)
}

/// Whether a listing's slot holds a profiling artifact: a readable entry
/// that is a file and is named like one. A directory with such a name is
/// none.
pub open spec fn holds_artifact<P>(slot: Option<Entry<P>>) -> bool {
    &&& slot matches Some(entry)
    &&& entry.is_file
    &&& entry.name matches Some(name)
    &&& is_artifact_name(name@)
}

/// The location in a slot that holds an entry.
pub open spec fn slot_path<P>(slot: Option<Entry<P>>) -> P {
    slot->0.path
}

/// The mirror directories among `entries`, in listing order.
pub open spec fn mirror_paths<P>(entries: Seq<Option<Entry<P>>>) -> Seq<P> {
    entries.filter(|slot: Option<Entry<P>>| holds_mirror(slot)).map_values(
        |slot: Option<Entry<P>>| slot_path(slot),
    )
}

/// The profiling artifacts among `entries`, in listing order.
pub open spec fn artifact_paths<P>(entries: Seq<Option<Entry<P>>>) -> Seq<P> {
    entries.filter(|slot: Option<Entry<P>>| holds_artifact(slot)).map_values(
        |slot: Option<Entry<P>>| slot_path(slot),
    )
}

/// The entries of a listing; none where the directory could not be listed.
pub open spec fn entries_of<P>(listing: Listing<P>) -> Seq<Option<Entry<P>>> {
    match listing {
        Some(entries) => entries@,
        None => Seq::empty(),
    }
}

/// The mirror directory among `entries`: the first entry, in listing order,
/// named like one.
pub open spec fn first_mirror<P>(entries: Seq<Option<Entry<P>>>) -> Option<P> {
    let hits = mirror_paths(entries);
    if hits.len() == 0 {
        None
    } else {
        Some(hits[0])
    }
}

/// The locations of all readable entries among `entries`, in listing order.
pub open spec fn entry_paths<P>(entries: Seq<Option<Entry<P>>>) -> Seq<P> {
    entries.filter(|slot: Option<Entry<P>>| slot is Some).map_values(
        |slot: Option<Entry<P>>| slot_path(slot),
    )
}

/// The profiling artifacts that the entries of a mirror directory's folders
/// yield together: those of the first folder, then those of the second, and
/// so on.
pub open spec fn artifacts_under<P>(folders: Seq<Seq<Option<Entry<P>>>>) -> Seq<P> {
    folders.map_values(|entries: Seq<Option<Entry<P>>>| artifact_paths(entries)).flatten()
}

/// The entries of each listing in turn.
pub open spec fn entries_of_each<P>(listings: Seq<Listing<P>>) -> Seq<Seq<Option<Entry<P>>>> {
    listings.map_values(|listing: Listing<P>| entries_of(listing))
}

/// Extending a sequence of slots by one extends its artifacts by that slot's
/// location if the slot holds an artifact, and by nothing otherwise.
pub proof fn lemma_artifact_paths_push<P>(entries: Seq<Option<Entry<P>>>, slot: Option<Entry<P>>)
    ensures
        artifact_paths(entries.push(slot)) == if holds_artifact(slot) {
            artifact_paths(entries).push(slot_path(slot))
        } else {
            artifact_paths(entries)
        },
{
    let pred = |slot: Option<Entry<P>>| holds_artifact(slot);
    let longer = entries.push(slot);
    entries.lemma_filter_push(slot, pred);
    if holds_artifact(slot) {
        assert(artifact_paths(longer) =~= artifact_paths(entries).push(slot_path(slot)));
    }
}

/// Extending a sequence of slots by one extends its mirror directories by
/// that slot's location if the slot holds one, and by nothing otherwise.
pub proof fn lemma_mirror_paths_push<P>(entries: Seq<Option<Entry<P>>>, slot: Option<Entry<P>>)
    ensures
        mirror_paths(entries.push(slot)) == if holds_mirror(slot) {
            mirror_paths(entries).push(slot_path(slot))
        } else {
            mirror_paths(entries)
        },
{
    let pred = |slot: Option<Entry<P>>| holds_mirror(slot);
    let longer = entries.push(slot);
    entries.lemma_filter_push(slot, pred);
    if holds_mirror(slot) {
        assert(mirror_paths(longer) =~= mirror_paths(entries).push(slot_path(slot)));
    }
}

/// Extending a sequence of slots by one extends its readable locations by
/// that slot's location if the slot holds an entry.
pub proof fn lemma_entry_paths_push<P>(entries: Seq<Option<Entry<P>>>, slot: Option<Entry<P>>)
    ensures
        entry_paths(entries.push(slot)) == if slot is Some {
            entry_paths(entries).push(slot_path(slot))
        } else {
            entry_paths(entries)
        },
{
    let pred = |slot: Option<Entry<P>>| slot is Some;
    let longer = entries.push(slot);
    entries.lemma_filter_push(slot, pred);
    if slot is Some {
        assert(entry_paths(longer) =~= entry_paths(entries).push(slot_path(slot)));
    }
}

/// The first slot that holds a mirror directory gives the first of the
/// mirror directories.
pub proof fn lemma_first_mirror<P>(entries: Seq<Option<Entry<P>>>, at: int)
    requires
        0 <= at < entries.len(),
        holds_mirror(entries[at]),
        mirror_paths(entries.take(at)).len() == 0,
    ensures
        mirror_paths(entries).len() > 0,
        mirror_paths(entries)[0] == slot_path(entries[at]),
{
    let pred = |slot: Option<Entry<P>>| holds_mirror(slot);
    let head = entries.take(at).push(entries[at]);
    let rest = entries.skip(at + 1);
    assert(entries =~= head + rest);
    entries.take(at).lemma_filter_push(entries[at], pred);
    assert(entries.take(at).filter(pred).len() == mirror_paths(entries.take(at)).len());
    Seq::filter_distributes_over_add(head, rest, pred);
    assert(head.filter(pred) =~= seq![entries[at]]);
    assert(entries.filter(pred)[0] == entries[at]);
}

/// Adding one more folder's entries adds that folder's artifacts at the end.
pub proof fn lemma_artifacts_under_push<P>(
    folders: Seq<Seq<Option<Entry<P>>>>,
    entries: Seq<Option<Entry<P>>>,
)
    ensures
        artifacts_under(folders.push(entries)) == artifacts_under(folders) + artifact_paths(
            entries,
        ),
{
    let each = |entries: Seq<Option<Entry<P>>>| artifact_paths(entries);
    let before = folders.map_values(each);
    let after = folders.push(entries).map_values(each);
    assert(after =~= before.push(artifact_paths(entries)));
    after.lemma_flatten_and_flatten_alt_are_equivalent();
    before.lemma_flatten_and_flatten_alt_are_equivalent();
    assert(after.drop_last() =~= before);
}

/// An artifact in any of the folders is among the artifacts of them all.
pub proof fn lemma_artifact_is_found<P>(folders: Seq<Seq<Option<Entry<P>>>>, folder: int, at: int)
    requires
        0 <= folder < folders.len(),
        0 <= at < folders[folder].len(),
        holds_artifact(folders[folder][at]),
    ensures
        artifacts_under(folders).contains(slot_path(folders[folder][at])),
    decreases folders.len(),
{
    let front = folders.drop_last();
    let last = folders.last();
    let slot = folders[folder][at];
    assert(folders =~= front.push(last));
    lemma_artifacts_under_push(front, last);
    if folder == folders.len() - 1 {
        let test = |slot: Option<Entry<P>>| holds_artifact(slot);
        last.lemma_filter_contains(test, at);
        let picked = last.filter(test);
        let i = choose|i: int| 0 <= i < picked.len() && picked[i] == slot;
        assert(artifact_paths(last)[i] == slot_path(slot));
        assert(artifacts_under(folders)[artifacts_under(front).len() + i] == slot_path(slot));
    } else {
        lemma_artifact_is_found(front, folder, at);
        let i = choose|i: int|
            0 <= i < artifacts_under(front).len() && artifacts_under(front)[i] == slot_path(slot);
        assert(artifacts_under(folders)[i] == slot_path(slot));
    }
}

/// Each of the artifacts of the folders is an artifact in one of them: the
/// lemma gives the folder and the place in it.
pub proof fn lemma_found_is_artifact<P>(
    folders: Seq<Seq<Option<Entry<P>>>>,
    i: int,
) -> (place: (int, int))
    requires
        0 <= i < artifacts_under(folders).len(),
    ensures
        0 <= place.0 < folders.len(),
        0 <= place.1 < folders[place.0].len(),
        holds_artifact(folders[place.0][place.1]),
        slot_path(folders[place.0][place.1]) == artifacts_under(folders)[i],
    decreases folders.len(),
{
    if folders.len() == 0 {
        assert(folders.map_values(|entries: Seq<Option<Entry<P>>>| artifact_paths(entries))
            =~= Seq::<Seq<P>>::empty());
        (0, 0)
    } else {
        let front = folders.drop_last();
        let last = folders.last();
        assert(folders =~= front.push(last));
        lemma_artifacts_under_push(front, last);
        if i < artifacts_under(front).len() {
            lemma_found_is_artifact(front, i)
        } else {
            let test = |slot: Option<Entry<P>>| holds_artifact(slot);
            let picked = last.filter(test);
            let j = i - artifacts_under(front).len();
            assert(artifact_paths(last)[j] == slot_path(picked[j]));
            last.lemma_filter_pred(test, j);
            assert(picked.contains(picked[j]));
            last.lemma_filter_contains_rev(test, picked[j]);
            let at = choose|at: int| 0 <= at < last.len() && last[at] == picked[j];
            (folders.len() - 1, at)
        }
    }
}

/// Folders that hold no artifact each hold none together.
pub proof fn lemma_no_artifacts_under<P>(folders: Seq<Seq<Option<Entry<P>>>>)
    requires
        forall|folder: int|
            0 <= folder < folders.len() ==> artifact_paths(#[trigger] folders[folder]).len() == 0,
    ensures
        artifacts_under(folders) == Seq::<P>::empty(),
    decreases folders.len(),
{
    if folders.len() == 0 {
        assert(folders.map_values(|entries: Seq<Option<Entry<P>>>| artifact_paths(entries))
            =~= Seq::<Seq<P>>::empty());
    } else {
        let front = folders.drop_last();
        assert(folders =~= front.push(folders.last()));
        assert forall|folder: int| 0 <= folder < front.len() implies artifact_paths(
            #[trigger] front[folder],
        ).len() == 0 by {
            assert(front[folder] == folders[folder]);
        }
        lemma_no_artifacts_under(front);
        lemma_artifacts_under_push(front, folders.last());
        assert(artifacts_under(folders) =~= Seq::<P>::empty());
    }
}

/// Finds the registry mirror directory in a listing of the registry sources:
/// the location of the first readable entry, in listing order, whose name
/// starts with the mirror prefix. There is none where the directory could not
/// be listed or no entry is named so.
pub fn get_index_crates_io<P>(listing: Listing<P>) -> (found: Option<P>)
    ensures
        found == first_mirror(entries_of(listing)),
{
    match listing {
        None => {
            assert(mirror_paths(Seq::<Option<Entry<P>>>::empty()) =~= Seq::<P>::empty());
            None
        },
        Some(entries) => {
            let ghost all = entries@;
            assert(mirror_paths(all.take(0)) =~= Seq::<P>::empty());
            for slot in it: entries.into_iter()
                invariant
                    it.seq() == all,
                    entries_of(listing) == all,
                    mirror_paths(all.take(it.index() as int)).len() == 0,
            {
                proof {
                    lemma_mirror_paths_push(all.take(it.index() as int), slot);
                    assert(all.take(it.index() + 1) =~= all.take(it.index() as int).push(slot));
                }
                if let Some(entry) = slot {
                    if let Some(name) = entry.name {
                        if names_mirror(name.as_str()) {
                            proof {
                                lemma_first_mirror(all, it.index() as int);
                            }
                            return Some(entry.path);
                        }
                    }
                }
            }
            assert(all.take(all.len() as int) =~= all);
            None
        },
    }
}

/// Picks the folders to visit out of a listing of the mirror directory: the
/// location of every readable entry, in listing order. A directory that could
/// not be listed yields none.
pub fn collect_folders<P>(listing: Listing<P>) -> (folders: Vec<P>)
    ensures
        folders@ == entry_paths(entries_of(listing)),
{
    let mut folders: Vec<P> = Vec::new();
    match listing {
        None => {
            assert(entry_paths(Seq::<Option<Entry<P>>>::empty()) =~= Seq::<P>::empty());
        },
        Some(entries) => {
            let ghost all = entries@;
            assert(entry_paths(all.take(0)) =~= Seq::<P>::empty());
            for slot in it: entries.into_iter()
                invariant
                    it.seq() == all,
                    folders@ == entry_paths(all.take(it.index() as int)),
            {
                proof {
                    lemma_entry_paths_push(all.take(it.index() as int), slot);
                    assert(all.take(it.index() + 1) =~= all.take(it.index() as int).push(slot));
                }
                if let Some(entry) = slot {
                    folders.push(entry.path);
                }
            }
            assert(all.take(all.len() as int) =~= all);
        },
    }
    folders
}

/// Picks the profiling artifacts out of one folder's listing: the location
/// of every readable entry that is a file and whose name ends in the
/// artifact suffix, in listing order. A folder that could not be listed
/// yields none.
pub fn collect_mm_profdata<P>(listing: Listing<P>) -> (files: Vec<P>)
    ensures
        files@ == artifact_paths(entries_of(listing)),
{
    let mut files: Vec<P> = Vec::new();
    match listing {
        None => {
            assert(artifact_paths(Seq::<Option<Entry<P>>>::empty()) =~= Seq::<P>::empty());
        },
        Some(entries) => {
            let ghost all = entries@;
            assert(artifact_paths(all.take(0)) =~= Seq::<P>::empty());
            for slot in it: entries.into_iter()
                invariant
                    it.seq() == all,
                    files@ == artifact_paths(all.take(it.index() as int)),
            {
                proof {
                    lemma_artifact_paths_push(all.take(it.index() as int), slot);
                    assert(all.take(it.index() + 1) =~= all.take(it.index() as int).push(slot));
                }
                if let Some(entry) = slot {
                    if entry.is_file {
                        if let Some(name) = entry.name {
                            if names_artifact(name.as_str()) {
                                files.push(entry.path);
                            }
                        }
                    }
                }
            }
            assert(all.take(all.len() as int) =~= all);
        },
    }
    files
}

/// Gathers the profiling artifacts of a mirror directory from the listings of
/// its folders, one listing for each folder in the order the folders were
/// found: the artifacts of the first folder, then those of the second, and so
/// on. Folders that could not be listed contribute nothing.
pub fn collect_crates_folder<P>(folders: Vec<Listing<P>>) -> (files: Vec<P>)
    ensures
        files@ == artifacts_under(entries_of_each(folders@)),
{
    let mut files: Vec<P> = Vec::new();
    let ghost all = folders@;
    assert(entries_of_each(all.take(0)) =~= Seq::empty());
    assert(Seq::<Seq<Option<Entry<P>>>>::empty().map_values(
        |entries: Seq<Option<Entry<P>>>| artifact_paths(entries),
    ) =~= Seq::<Seq<P>>::empty());
    for listing in it: folders.into_iter()
        invariant
            it.seq() == all,
            files@ == artifacts_under(entries_of_each(all.take(it.index() as int))),
    {
        proof {
            let seen = all.take(it.index() as int);
            lemma_artifacts_under_push(entries_of_each(seen), entries_of(listing));
            assert(all.take(it.index() + 1) =~= seen.push(listing));
            assert(entries_of_each(seen.push(listing)) =~= entries_of_each(seen).push(
                entries_of(listing),
            ));
        }
        let mut found = collect_mm_profdata(listing);
        files.append(&mut found);
    }
    assert(all.take(all.len() as int) =~= all);
    files
}

} // verus!
