//! A disk as the cleaner meets it, and a whole run of the cleaner against
//! one: the reference against which the cleaner's behaviour is stated.

use vstd::prelude::*;
use crate::listing::Entry;
use crate::stage::{Answer, Notice, Request, Stage};

verus! {

/// A disk, as far as listing directories and deleting files can tell.
#[verifier::reject_recursive_types(P)]
pub struct Disk<P> {
    /// The directories that can be listed, each with its entries in listing
    /// order.
    pub dirs: Map<P, Seq<Option<Entry<P>>>>,
    /// The files that refuse deletion, each with the reason it gives.
    pub stuck: Map<P, String>,
}

/// Whether a slot holds a readable entry that lies at `at`.
pub open spec fn lies_at<P>(slot: Option<Entry<P>>, at: P) -> bool {
    slot matches Some(entry) && entry.path == at
}

/// What a run leaves behind: the disk after it, the outside work it asked
/// for and what it told the user, each in order.
#[verifier::reject_recursive_types(P)]
pub struct Outcome<P> {
    /// The disk when the run is over.
    pub disk: Disk<P>,
    /// The outside work that the run asked for.
    pub requests: Seq<Request<P>>,
    /// What the run told the user.
    pub notices: Seq<Notice<P>>,
}

impl<P> Disk<P> {
    /// The entries that listing `at` gives; none where `at` cannot be listed.
    pub open spec fn entries(self, at: P) -> Seq<Option<Entry<P>>> {
        if self.dirs.dom().contains(at) {
            self.dirs[at]
        } else {
            Seq::empty()
        }
    }

    /// The disk with the file at `file` gone from every listing.
    pub open spec fn without(self, file: P) -> Disk<P> {
        Disk {
            dirs: self.dirs.map_values(
                |entries: Seq<Option<Entry<P>>>|
                    entries.filter(|slot: Option<Entry<P>>| !lies_at(slot, file)),
            ),
            stuck: self.stuck,
        }
    }

    /// How the disk answers a request.
    pub open spec fn answer(self, request: Request<P>) -> Answer<P> {
        match request {
            Request::Remove(file) => Answer::Removed(
                if self.stuck.dom().contains(file) {
                    Err(self.stuck[file])
                } else {
                    Ok(())
                },
            ),
            Request::List(at) => Answer::Listed(self.entries(at)),
            Request::Nothing => Answer::Listed(Seq::empty()),
        }
    }

    /// The disk once it has served a request: deleting a file that is not
    /// stuck takes it out of every listing, and nothing else changes a disk.
    pub open spec fn after(self, request: Request<P>) -> Disk<P> {
        match request {
            Request::Remove(file) => if self.stuck.dom().contains(file) {
                self
            } else {
                self.without(file)
            },
            _ => self,
        }
    }

    /// The disk once deleting each of `files` has been attempted, in order.
    pub open spec fn swept(self, files: Seq<P>) -> Disk<P>
        decreases files.len(),
    {
        if files.len() == 0 {
            self
        } else {
            self.after(Request::Remove(files[0])).swept(files.drop_first())
        }
    }
}

/// How far a stage is from the end of its run, counted in kinds of work.
pub open spec fn rank<P>(stage: Stage<P>) -> nat {
    match stage {
        Stage::Resolving { .. } => 3,
        Stage::Scanning { .. } => 2,
        Stage::Visiting { .. } => 1,
        _ => 0,
    }
}

/// How many requests of the present kind a stage has yet to make.
pub open spec fn left<P>(stage: Stage<P>) -> nat {
    match stage {
        Stage::Visiting { folders, listings, .. } => (folders.len() - listings.len()) as nat,
        Stage::Sweeping { files, done, .. } => (files.len() - done) as nat,
        _ => 0,
    }
}

/// A run from `stage` on `disk` as a caller drives it: tell what the stage
/// has to tell, do the work it waits for, hand back the answer, and go on
/// until no work is asked for.
pub open spec fn run<P>(stage: Stage<P>, disk: Disk<P>) -> Outcome<P>
    decreases rank(stage), left(stage),
{
    let request = stage.pending();
    if request is Nothing {
        Outcome { disk, requests: Seq::empty(), notices: stage.notices() }
    } else {
        let rest = run(stage.next(disk.answer(request)), disk.after(request));
        Outcome {
            disk: rest.disk,
            requests: seq![request] + rest.requests,
            notices: stage.notices() + rest.notices,
        }
    }
}

/// Whether the sweep of `files` deletes the entry in `slot`: it is readable,
/// lies where one of the files lies, and is not stuck.
pub open spec fn deleted<P>(slot: Option<Entry<P>>, files: Seq<P>, stuck: Map<P, String>) -> bool {
    slot matches Some(entry) && files.contains(entry.path) && !stuck.dom().contains(entry.path)
}

/// Filtering twice is filtering once by both tests.
pub proof fn lemma_filter_twice<A>(
    items: Seq<A>,
    first: spec_fn(A) -> bool,
    second: spec_fn(A) -> bool,
    both: spec_fn(A) -> bool,
)
    requires
        forall|item: A| #[trigger] both(item) == (first(item) && second(item)),
    ensures
        items.filter(first).filter(second) == items.filter(both),
    decreases items.len(),
{
    reveal(Seq::filter);
    if items.len() > 0 {
        let front = items.drop_last();
        let last = items.last();
        lemma_filter_twice(front, first, second, both);
        assert(items =~= front.push(last));
        front.lemma_filter_push(last, first);
        front.lemma_filter_push(last, both);
        if first(last) {
            front.filter(first).lemma_filter_push(last, second);
        }
    }
}

/// Filtering by a test that every item passes changes nothing.
pub proof fn lemma_filter_keeps_all<A>(items: Seq<A>, test: spec_fn(A) -> bool)
    requires
        forall|i: int| 0 <= i < items.len() ==> test(#[trigger] items[i]),
    ensures
        items.filter(test) == items,
    decreases items.len(),
{
    reveal(Seq::filter);
    if items.len() > 0 {
        let front = items.drop_last();
        lemma_filter_keeps_all(front, test);
        assert(items =~= front.push(items.last()));
    }
}

/// Filtering by a test that no item passes leaves nothing.
pub proof fn lemma_filter_keeps_none<A>(items: Seq<A>, test: spec_fn(A) -> bool)
    requires
        forall|i: int| 0 <= i < items.len() ==> !test(#[trigger] items[i]),
    ensures
        items.filter(test) == Seq::<A>::empty(),
    decreases items.len(),
{
    reveal(Seq::filter);
    if items.len() > 0 {
        let front = items.drop_last();
        lemma_filter_keeps_none(front, test);
    }
}

/// A sweep leaves in each directory the entries that it does not delete, in
/// their order, and keeps what can be listed and what is stuck.
pub proof fn lemma_swept<P>(disk: Disk<P>, files: Seq<P>, at: P)
    ensures
        disk.swept(files).stuck == disk.stuck,
        disk.swept(files).dirs.dom() == disk.dirs.dom(),
        disk.swept(files).entries(at) == disk.entries(at).filter(
            |slot: Option<Entry<P>>| !deleted(slot, files, disk.stuck),
        ),
    decreases files.len(),
{
    let kept = |slot: Option<Entry<P>>| !deleted(slot, files, disk.stuck);
    if files.len() == 0 {
        lemma_filter_keeps_all(disk.entries(at), kept);
    } else {
        let file = files[0];
        let rest = files.drop_first();
        let later = disk.after(Request::Remove(file));
        let kept_later = |slot: Option<Entry<P>>| !deleted(slot, rest, disk.stuck);
        lemma_swept(later, rest, at);
        assert(later.dirs.dom() =~= disk.dirs.dom());
        assert forall|slot: Option<Entry<P>>| #[trigger]
            deleted(slot, files, disk.stuck) == (deleted(slot, rest, disk.stuck) || (lies_at(
                slot,
                file,
            ) && !disk.stuck.dom().contains(file))) by {
            if slot is Some {
                let path = slot->0.path;
                if files.contains(path) {
                    let i = choose|i: int| 0 <= i < files.len() && files[i] == path;
                    if i > 0 {
                        assert(rest[i - 1] == path);
                    }
                }
                if rest.contains(path) {
                    let i = choose|i: int| 0 <= i < rest.len() && rest[i] == path;
                    assert(files[i + 1] == path);
                }
            }
        }
        if disk.stuck.dom().contains(file) {
            assert(kept =~= kept_later);
        } else {
            let apart = |slot: Option<Entry<P>>| !lies_at(slot, file);
            lemma_filter_twice(disk.entries(at), apart, kept_later, kept);
        }
    }
}

} // verus!
