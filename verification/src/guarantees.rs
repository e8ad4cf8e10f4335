//! What a whole run of the cleaner does to a disk, proved of every disk.

use vstd::prelude::*;
use crate::disk::{
    deleted, lemma_filter_keeps_all, lemma_filter_keeps_none, lemma_filter_twice, lemma_swept,
    run, Disk, Outcome,
};
use crate::listing::{
    artifact_paths, artifacts_under, entry_paths, first_mirror, holds_artifact,
    lemma_artifact_is_found, lemma_found_is_artifact, lemma_no_artifacts_under, mirror_paths,
    slot_path, Entry,
};
use crate::stage::{Notice, Request, Stage};

verus! {

/// The requests to list each of `folders`, in order.
pub open spec fn lists<P>(folders: Seq<P>) -> Seq<Request<P>> {
    folders.map_values(|folder: P| Request::List(folder))
}

/// The requests to delete each of `files`, in order.
pub open spec fn removes<P>(files: Seq<P>) -> Seq<Request<P>> {
    files.map_values(|file: P| Request::Remove(file))
}

/// The last notice of a run that found `count` artifacts in `mirror`.
pub open spec fn closing<P>(mirror: P, count: nat) -> Notice<P> {
    if count == 0 {
        Notice::NoneFound { mirror }
    } else {
        Notice::Cleaned { count: count as usize }
    }
}

/// What a run tells while it deletes `files` out of `count` found in
/// `mirror`: each file as its turn comes, the failure after each file that
/// is stuck, and the closing notice at the end.
pub open spec fn attempts<P>(
    mirror: P,
    files: Seq<P>,
    count: nat,
    stuck: Map<P, String>,
) -> Seq<Notice<P>>
    decreases files.len(),
{
    if files.len() == 0 {
        seq![closing(mirror, count)]
    } else {
        let file = files[0];
        let told = if stuck.dom().contains(file) {
            seq![Notice::Cleaning { file }, Notice::Failed { file, reason: stuck[file] }]
        } else {
            seq![Notice::Cleaning { file }]
        };
        told + attempts(mirror, files.drop_first(), count, stuck)
    }
}

/// What listing each of `folders` on `disk` gives, in order.
pub open spec fn folder_entries<P>(disk: Disk<P>, folders: Seq<P>) -> Seq<Seq<Option<Entry<P>>>> {
    folders.map_values(|folder: P| disk.entries(folder))
}

/// The folders of the mirror directory `mirror` on `disk`.
pub open spec fn folders_on<P>(disk: Disk<P>, mirror: P) -> Seq<P> {
    entry_paths(disk.entries(mirror))
}

/// The profiling artifacts that lie on `disk` exactly two levels below the
/// mirror directory `mirror`: the files, named like one, in a folder of it.
pub open spec fn artifacts_on<P>(disk: Disk<P>, mirror: P) -> Seq<P> {
    artifacts_under(folder_entries(disk, folders_on(disk, mirror)))
}

/// What the deleting of `files`, found in `mirror`, comes to on `disk`.
pub open spec fn sweeping<P>(mirror: P, files: Seq<P>, disk: Disk<P>) -> Outcome<P> {
    Outcome {
        disk: disk.swept(files),
        requests: removes(files),
        notices: seq![Notice::Found { count: files.len() as usize, mirror }] + attempts(
            mirror,
            files,
            files.len(),
            disk.stuck,
        ),
    }
}

/// What a run on the registry sources at `sources` comes to on `disk`.
/// Without a mirror directory it lists the sources, says that none is there
/// and leaves the disk alone. With one it lists the sources, the mirror
/// directory and each of its folders, then attempts to delete each artifact
/// in those folders, and nothing else.
pub open spec fn whole_run<P>(sources: P, disk: Disk<P>) -> Outcome<P> {
    match first_mirror(disk.entries(sources)) {
        None => Outcome {
            disk,
            requests: seq![Request::List(sources)],
            notices: seq![Notice::MirrorMissing],
        },
        Some(mirror) => {
            let end = sweeping(mirror, artifacts_on(disk, mirror), disk);
            Outcome {
                disk: end.disk,
                requests: seq![Request::List(sources), Request::List(mirror)] + lists(
                    folders_on(disk, mirror),
                ) + end.requests,
                notices: end.notices,
            }
        },
    }
}

/// A run that has reached the deleting does the rest of it: it asks to
/// delete each file not yet attempted, in order and whatever became of the
/// files before, and tells of each.
pub proof fn lemma_run_sweeping<P>(
    mirror: P,
    files: Seq<P>,
    done: nat,
    failure: Option<String>,
    disk: Disk<P>,
)
    requires
        done <= files.len(),
    ensures
        ({
            let stage = Stage::Sweeping { mirror, files, done, failure };
            let outcome = run(stage, disk);
            let ahead = files.skip(done as int);
            &&& outcome.disk == disk.swept(ahead)
            &&& outcome.requests == removes(ahead)
            &&& outcome.notices == stage.notices().drop_last() + attempts(
                mirror,
                ahead,
                files.len(),
                disk.stuck,
            )
        }),
    decreases files.len() - done,
{
    let stage = Stage::Sweeping { mirror, files, done, failure };
    let outcome = run(stage, disk);
    let ahead = files.skip(done as int);
    if done == files.len() {
        assert(outcome.requests =~= removes(ahead));
        assert(outcome.notices =~= stage.notices().drop_last() + attempts(
            mirror,
            ahead,
            files.len(),
            disk.stuck,
        ));
    } else {
        let request = Request::Remove(files[done as int]);
        let next = stage.next(disk.answer(request));
        let later = disk.after(request);
        lemma_run_sweeping(mirror, files, done + 1, next->Sweeping_failure, later);
        assert(ahead.drop_first() =~= files.skip(done as int + 1));
        assert(ahead[0] == files[done as int]);
        assert(outcome.requests =~= removes(ahead));
        assert(later.stuck == disk.stuck);
        assert(outcome.notices =~= stage.notices().drop_last() + attempts(
            mirror,
            ahead,
            files.len(),
            disk.stuck,
        ));
    }
}

/// A run that is visiting the folders lists each folder not yet seen, in
/// order, and then deletes what all of them hold.
pub proof fn lemma_run_visiting<P>(mirror: P, folders: Seq<P>, seen: nat, disk: Disk<P>)
    requires
        seen < folders.len(),
    ensures
        ({
            let stage = Stage::Visiting {
                mirror,
                folders,
                listings: folder_entries(disk, folders.take(seen as int)),
            };
            let end = sweeping(mirror, artifacts_under(folder_entries(disk, folders)), disk);
            run(stage, disk) == Outcome {
                disk: end.disk,
                requests: lists(folders.skip(seen as int)) + end.requests,
                notices: end.notices,
            }
        }),
    decreases folders.len() - seen,
{
    let listings = folder_entries(disk, folders.take(seen as int));
    let stage = Stage::Visiting { mirror, folders, listings };
    let outcome = run(stage, disk);
    let files = artifacts_under(folder_entries(disk, folders));
    let end = sweeping(mirror, files, disk);
    let request = Request::List(folders[seen as int]);
    let longer = listings.push(disk.entries(folders[seen as int]));
    assert(longer =~= folder_entries(disk, folders.take(seen as int + 1)));
    assert(lists(folders.skip(seen as int)) =~= seq![request] + lists(
        folders.skip(seen as int + 1),
    ));
    if seen + 1 < folders.len() {
        lemma_run_visiting(mirror, folders, seen + 1, disk);
        assert(outcome.requests =~= lists(folders.skip(seen as int)) + end.requests);
    } else {
        assert(folders.take(seen as int + 1) =~= folders);
        lemma_run_sweeping(mirror, files, 0, None, disk);
        assert(files.skip(0) =~= files);
        let swept = Stage::sweep(mirror, files);
        assert(swept.notices().drop_last() =~= seq![
            Notice::Found { count: files.len() as usize, mirror },
        ]);
        assert(outcome.requests =~= lists(folders.skip(seen as int)) + end.requests);
    }
}

/// A run from the start comes to what `whole_run` says, on every disk.
pub proof fn lemma_run_from_start<P>(sources: P, disk: Disk<P>)
    ensures
        run(Stage::start(sources), disk) == whole_run(sources, disk),
{
    let outcome = run(Stage::start(sources), disk);
    let wanted = whole_run(sources, disk);
    match first_mirror(disk.entries(sources)) {
        None => {
            assert(run(Stage::<P>::Missing, disk).requests =~= Seq::empty());
            assert(outcome.requests =~= wanted.requests);
            assert(outcome.notices =~= wanted.notices);
        },
        Some(mirror) => {
            let scanning = Stage::Scanning { mirror };
            let folders = folders_on(disk, mirror);
            let files = artifacts_on(disk, mirror);
            let found = run(scanning, disk);
            let end = sweeping(mirror, files, disk);
            if folders.len() == 0 {
                assert(folder_entries(disk, folders) =~= Seq::empty());
                assert(Seq::<Seq<Option<Entry<P>>>>::empty().map_values(
                    |entries: Seq<Option<Entry<P>>>| artifact_paths(entries),
                ) =~= Seq::<Seq<P>>::empty());
                assert(files =~= Seq::empty());
                lemma_run_sweeping(mirror, files, 0, None, disk);
                assert(files.skip(0) =~= files);
                assert(Stage::sweep(mirror, files).notices().drop_last() =~= seq![
                    Notice::Found { count: files.len() as usize, mirror },
                ]);
                assert(lists(folders) =~= Seq::empty());
            } else {
                assert(folders.take(0) =~= Seq::empty());
                assert(folder_entries(disk, folders.take(0)) =~= Seq::empty());
                lemma_run_visiting(mirror, folders, 0, disk);
                assert(folders.skip(0) =~= folders);
            }
            assert(found.disk == end.disk);
            assert(found.notices =~= end.notices);
            assert(found.requests =~= seq![Request::List(mirror)] + lists(folders) + end.requests);
            assert(outcome.requests =~= wanted.requests);
            assert(outcome.notices =~= wanted.notices);
        },
    }
}

/// The telling of a sweep ends with the closing notice.
pub proof fn lemma_attempts_end<P>(mirror: P, files: Seq<P>, count: nat, stuck: Map<P, String>)
    ensures
        attempts(mirror, files, count, stuck).len() > 0,
        attempts(mirror, files, count, stuck).last() == closing(mirror, count),
    decreases files.len(),
{
    if files.len() > 0 {
        lemma_attempts_end(mirror, files.drop_first(), count, stuck);
    }
}

/// Where the registry sources cannot be listed, a run asks for that one
/// listing, says that no mirror directory is there, and ends: it asks for no
/// deletion and the disk is as it was.
pub proof fn lemma_unlistable_sources_end_the_run<P>(sources: P, disk: Disk<P>)
    requires
        !disk.dirs.dom().contains(sources),
    ensures
        run(Stage::start(sources), disk) == (Outcome {
            disk,
            requests: seq![Request::List(sources)],
            notices: seq![Notice::MirrorMissing],
        }),
{
    lemma_run_from_start(sources, disk);
    assert(mirror_paths(Seq::<Option<Entry<P>>>::empty()) =~= Seq::<P>::empty());
}

/// Where the mirror directory holds no artifact two levels down, a run
/// lists the sources, the mirror directory and its folders, says that it
/// found none, and ends: it asks for no deletion and the disk is as it was.
pub proof fn lemma_without_artifacts_nothing_is_deleted<P>(sources: P, disk: Disk<P>)
    requires
        first_mirror(disk.entries(sources)) is Some,
        artifacts_on(disk, first_mirror(disk.entries(sources))->0).len() == 0,
    ensures
        ({
            let mirror = first_mirror(disk.entries(sources))->0;
            run(Stage::start(sources), disk) == Outcome {
                disk,
                requests: seq![Request::List(sources), Request::List(mirror)] + lists(
                    folders_on(disk, mirror),
                ),
                notices: seq![
                    Notice::Found { count: 0, mirror },
                    Notice::NoneFound { mirror },
                ],
            }
        }),
{
    let mirror = first_mirror(disk.entries(sources))->0;
    let outcome = run(Stage::start(sources), disk);
    lemma_run_from_start(sources, disk);
    assert(outcome.requests =~= seq![Request::List(sources), Request::List(mirror)] + lists(
        folders_on(disk, mirror),
    ));
    assert(attempts(mirror, artifacts_on(disk, mirror), 0, disk.stuck) =~= seq![
        Notice::NoneFound { mirror },
    ]);
    assert(outcome.notices =~= seq![
        Notice::Found { count: 0, mirror },
        Notice::NoneFound { mirror },
    ]);
}

/// Where there is a mirror directory, a run asks to delete the artifacts
/// that lie two levels below it, each once and in the order found, and asks
/// for no other deletion. After it every directory lists what it listed
/// before but for the artifacts that were not stuck: what is named otherwise
/// or lies at another depth is untouched. The count it reports, first and
/// last, is the number of artifacts found, as far as that fits the machine.
pub proof fn lemma_run_deletes_exactly_the_artifacts<P>(sources: P, disk: Disk<P>, at: P)
    requires
        first_mirror(disk.entries(sources)) is Some,
    ensures
        ({
            let mirror = first_mirror(disk.entries(sources))->0;
            let files = artifacts_on(disk, mirror);
            let outcome = run(Stage::start(sources), disk);
            &&& outcome.requests == seq![Request::List(sources), Request::List(mirror)] + lists(
                folders_on(disk, mirror),
            ) + removes(files)
            &&& outcome.disk.entries(at) == disk.entries(at).filter(
                |slot: Option<Entry<P>>| !deleted(slot, files, disk.stuck),
            )
            &&& outcome.disk.dirs.dom() == disk.dirs.dom()
            &&& outcome.disk.stuck == disk.stuck
            &&& outcome.notices.first() == Notice::Found { count: files.len() as usize, mirror }
            &&& outcome.notices.last() == closing(mirror, files.len())
        }),
{
    let mirror = first_mirror(disk.entries(sources))->0;
    let files = artifacts_on(disk, mirror);
    lemma_run_from_start(sources, disk);
    lemma_swept(disk, files, at);
    lemma_attempts_end(mirror, files, files.len(), disk.stuck);
}

/// Every file that a run asks to delete lies exactly two levels below the
/// mirror directory: it is a file, named like an artifact, among the
/// entries of a folder that is itself an entry of the mirror directory. The
/// lemma gives the folder and the place in it.
pub proof fn lemma_only_artifacts_two_levels_down<P>(
    sources: P,
    disk: Disk<P>,
    i: int,
) -> (place: (int, int))
    requires
        first_mirror(disk.entries(sources)) is Some,
        0 <= i < artifacts_on(disk, first_mirror(disk.entries(sources))->0).len(),
    ensures
        ({
            let mirror = first_mirror(disk.entries(sources))->0;
            let folders = folders_on(disk, mirror);
            let file = artifacts_on(disk, mirror)[i];
            &&& 0 <= place.0 < folders.len()
            &&& 0 <= place.1 < disk.entries(folders[place.0]).len()
            &&& holds_artifact(disk.entries(folders[place.0])[place.1])
            &&& slot_path(disk.entries(folders[place.0])[place.1]) == file
        }),
{
    let mirror = first_mirror(disk.entries(sources))->0;
    lemma_found_is_artifact(folder_entries(disk, folders_on(disk, mirror)), i)
}

/// A file that refuses deletion stops nothing: every artifact is attempted,
/// and after the run no directory lists an artifact that was not stuck.
pub proof fn lemma_stuck_files_stop_nothing<P>(sources: P, disk: Disk<P>, at: P, i: int)
    requires
        first_mirror(disk.entries(sources)) is Some,
        0 <= i < run(Stage::start(sources), disk).disk.entries(at).len(),
    ensures
        ({
            let mirror = first_mirror(disk.entries(sources))->0;
            let files = artifacts_on(disk, mirror);
            let outcome = run(Stage::start(sources), disk);
            let slot = outcome.disk.entries(at)[i];
            &&& outcome.requests == seq![Request::List(sources), Request::List(mirror)] + lists(
                folders_on(disk, mirror),
            ) + removes(files)
            &&& slot is Some && files.contains(slot_path(slot)) ==> disk.stuck.dom().contains(
                slot_path(slot),
            )
        }),
{
    let mirror = first_mirror(disk.entries(sources))->0;
    let files = artifacts_on(disk, mirror);
    let kept = |slot: Option<Entry<P>>| !deleted(slot, files, disk.stuck);
    lemma_run_deletes_exactly_the_artifacts(sources, disk, at);
    disk.entries(at).lemma_filter_pred(kept, i);
}

/// Whether `slot` holds a readable entry that lies where one of `files`
/// lies.
pub open spec fn lies_among<P>(slot: Option<Entry<P>>, files: Seq<P>) -> bool {
    slot is Some && files.contains(slot_path(slot))
}

/// Whether the levels of the cache lie apart on `disk`: no artifact two
/// levels below the mirror directory lies where an entry of the registry
/// sources or of the mirror directory itself lies.
pub open spec fn levels_apart<P>(disk: Disk<P>, sources: P) -> bool {
    first_mirror(disk.entries(sources)) matches Some(mirror) ==> {
        &&& forall|i: int|
            0 <= i < disk.entries(sources).len() ==> !lies_among(
                #[trigger] disk.entries(sources)[i],
                artifacts_on(disk, mirror),
            )
        &&& forall|i: int|
            0 <= i < disk.entries(mirror).len() ==> !lies_among(
                #[trigger] disk.entries(mirror)[i],
                artifacts_on(disk, mirror),
            )
    }
}

/// Whether no artifact below the mirror directory refuses deletion.
pub open spec fn nothing_stuck<P>(disk: Disk<P>, sources: P) -> bool {
    first_mirror(disk.entries(sources)) matches Some(mirror) ==> forall|file: P|
        #[trigger] artifacts_on(disk, mirror).contains(file) ==> !disk.stuck.dom().contains(file)
}

/// After a run in which no deletion failed, a second run on the same sources
/// finds the same mirror directory, or none as before, and no artifact in
/// it: it asks for no deletion and leaves the disk as the first run left it.
pub proof fn lemma_second_run_finds_nothing<P>(sources: P, disk: Disk<P>)
    requires
        levels_apart(disk, sources),
        nothing_stuck(disk, sources),
    ensures
        ({
            let first = run(Stage::start(sources), disk);
            let second = run(Stage::start(sources), first.disk);
            &&& first_mirror(first.disk.entries(sources)) == first_mirror(disk.entries(sources))
            &&& first_mirror(disk.entries(sources)) matches Some(mirror) ==> {
                &&& artifacts_on(first.disk, mirror).len() == 0
                &&& second.requests == seq![Request::List(sources), Request::List(mirror)]
                    + lists(folders_on(disk, mirror))
                &&& second.notices == seq![
                    Notice::Found { count: 0, mirror },
                    Notice::NoneFound { mirror },
                ]
            }
            &&& second.disk == first.disk
        }),
{
    let first = run(Stage::start(sources), disk);
    lemma_run_from_start(sources, disk);
    match first_mirror(disk.entries(sources)) {
        None => {
            lemma_run_from_start(sources, first.disk);
        },
        Some(mirror) => {
            let files = artifacts_on(disk, mirror);
            let folders = folders_on(disk, mirror);
            let kept = |slot: Option<Entry<P>>| !deleted(slot, files, disk.stuck);
            lemma_swept(disk, files, sources);
            lemma_swept(disk, files, mirror);
            lemma_filter_keeps_all(disk.entries(sources), kept);
            lemma_filter_keeps_all(disk.entries(mirror), kept);
            assert(folders_on(first.disk, mirror) == folders);
            let before = folder_entries(disk, folders);
            let after = folder_entries(first.disk, folders);
            assert forall|folder: int| 0 <= folder < after.len() implies artifact_paths(
                #[trigger] after[folder],
            ).len() == 0 by {
                let entries = disk.entries(folders[folder]);
                let test = |slot: Option<Entry<P>>| holds_artifact(slot);
                let both = |slot: Option<Entry<P>>| kept(slot) && test(slot);
                lemma_swept(disk, files, folders[folder]);
                assert forall|at: int| 0 <= at < entries.len() implies !both(
                    #[trigger] entries[at],
                ) by {
                    if holds_artifact(entries[at]) {
                        assert(before[folder] == entries);
                        lemma_artifact_is_found(before, folder, at);
                    }
                }
                lemma_filter_twice(entries, kept, test, both);
                lemma_filter_keeps_none(entries, both);
            }
            lemma_no_artifacts_under(after);
            lemma_without_artifacts_nothing_is_deleted(sources, first.disk);
        },
    }
}

} // verus!
