//! The cleaner that a caller drives: it says what outside work it waits for
//! and what to tell the user, and takes the outcome of that work as an event.

use vstd::prelude::*;
use crate::listing::{
    collect_crates_folder, collect_folders, entries_of, entries_of_each, get_index_crates_io,
    Listing,
};
use crate::stage::{Answer, Notice, Request, Stage};

verus! {

/// The outcome of the outside work that a cleaner asked for.
#[derive(Debug, PartialEq, Eq)]
pub enum Event<P> {
    /// What listing the directory gave.
    Listed(Listing<P>),
    /// How deleting the file went: the reason where it failed.
    Removed(Result<(), String>),
}

impl<P> View for Event<P> {
    type V = Answer<P>;

    open spec fn view(&self) -> Answer<P> {
        match *self {
            Event::Listed(listing) => Answer::Listed(entries_of(listing)),
            Event::Removed(outcome) => Answer::Removed(outcome),
        }
    }
}

enum Held<P> {
    Resolving { sources: P },
    Scanning { mirror: P },
    Visiting { mirror: P, folders: Vec<P>, listings: Vec<Listing<P>> },
    Sweeping { mirror: P, files: Vec<P>, done: usize, failure: Option<String> },
    Missing,
}

/// One run of the cleaner, from the listing of the registry sources to the
/// last deletion.
pub struct Cleaner<P> {
    held: Held<P>,
}

/// The notices with each location by value.
pub open spec fn owned_notices<P>(notices: Seq<Notice<&P>>) -> Seq<Notice<P>> {
    notices.map_values(|notice: Notice<&P>| notice.owned())
}

impl<P> View for Cleaner<P> {
    type V = Stage<P>;

    closed spec fn view(&self) -> Stage<P> {
        match self.held {
            Held::Resolving { sources } => Stage::Resolving { sources },
            Held::Scanning { mirror } => Stage::Scanning { mirror },
            Held::Visiting { mirror, folders, listings } => Stage::Visiting {
                mirror,
                folders: folders@,
                listings: entries_of_each(listings@),
            },
            Held::Sweeping { mirror, files, done, failure } => Stage::Sweeping {
                mirror,
                files: files@,
                done: done as nat,
                failure,
            },
            Held::Missing => Stage::Missing,
        }
    }
}

impl<P> Cleaner<P> {
    #[verifier::type_invariant]
    closed spec fn reachable(self) -> bool {
        self@.wf()
    }

    /// Starts a run on the registry sources at `sources`.
    pub fn new(sources: P) -> (cleaner: Cleaner<P>)
        ensures
            cleaner@ == Stage::start(sources),
    {
        Cleaner { held: Held::Resolving { sources } }
    }

    /// The outside work that the cleaner waits for. A well-formed stage is
    /// all a cleaner is ever in.
    pub fn pending(&self) -> (request: Request<&P>)
        ensures
            request.owned() == self@.pending(),
            self@.wf(),
    {
        proof {
            use_type_invariant(self);
        }
        match &self.held {
            Held::Resolving { sources } => Request::List(sources),
            Held::Scanning { mirror } => Request::List(mirror),
            Held::Visiting { folders, listings, .. } => Request::List(&folders[listings.len()]),
            Held::Sweeping { files, done, .. } => if *done < files.len() {
                Request::Remove(&files[*done])
            } else {
                Request::Nothing
            },
            Held::Missing => Request::Nothing,
        }
    }

    /// What to tell the user on reaching the present stage, in order: the
    /// caller tells it once, before it does the pending work.
    pub fn notices(&self) -> (notices: Vec<Notice<&P>>)
        ensures
            owned_notices(notices@) == self@.notices(),
    {
        proof {
            use_type_invariant(self);
        }
        let mut notices: Vec<Notice<&P>> = Vec::new();
        match &self.held {
            Held::Sweeping { mirror, files, done, failure } => {
                if *done == 0 {
                    notices.push(Notice::Found { count: files.len(), mirror });
                } else if let Some(reason) = failure {
                    notices.push(Notice::Failed { file: &files[*done - 1], reason: reason.clone() });
                }
                if *done < files.len() {
                    notices.push(Notice::Cleaning { file: &files[*done] });
                } else if files.len() == 0 {
                    notices.push(Notice::NoneFound { mirror });
                } else {
                    notices.push(Notice::Cleaned { count: files.len() });
                }
            },
            Held::Missing => {
                notices.push(Notice::MirrorMissing);
            },
            _ => {},
        }
        assert(owned_notices(notices@) =~= self@.notices());
        notices
    }

    /// Takes the outcome of the work that the cleaner waited for and moves
    /// on. An event of another kind, or one that comes when the run is over,
    /// changes nothing.
    pub fn step(self, event: Event<P>) -> (next: Cleaner<P>)
        ensures
            next@ == self@.next(event@),
    {
        proof {
            use_type_invariant(&self);
        }
        match self.held {
            Held::Resolving { sources } => match event {
                Event::Listed(listing) => match get_index_crates_io(listing) {
                    Some(mirror) => Cleaner { held: Held::Scanning { mirror } },
                    None => Cleaner { held: Held::Missing },
                },
                Event::Removed(_) => Cleaner { held: Held::Resolving { sources } },
            },
            Held::Scanning { mirror } => match event {
                Event::Listed(listing) => {
                    let folders = collect_folders(listing);
                    if folders.len() == 0 {
                        Cleaner {
                            held: Held::Sweeping { mirror, files: Vec::new(), done: 0, failure: None },
                        }
                    } else {
                        let listings: Vec<Listing<P>> = Vec::new();
                        assert(entries_of_each(listings@) =~= Seq::empty());
                        Cleaner { held: Held::Visiting { mirror, folders, listings } }
                    }
                },
                Event::Removed(_) => Cleaner { held: Held::Scanning { mirror } },
            },
            Held::Visiting { mirror, folders, listings } => match event {
                Event::Listed(listing) => {
                    let ghost before = listings@;
                    let mut listings = listings;
                    listings.push(listing);
                    assert(entries_of_each(listings@) =~= entries_of_each(before).push(
                        entries_of(listing),
                    ));
                    if listings.len() < folders.len() {
                        Cleaner { held: Held::Visiting { mirror, folders, listings } }
                    } else {
                        let files = collect_crates_folder(listings);
                        Cleaner { held: Held::Sweeping { mirror, files, done: 0, failure: None } }
                    }
                },
                Event::Removed(_) => Cleaner { held: Held::Visiting { mirror, folders, listings } },
            },
            Held::Sweeping { mirror, files, done, failure } => match event {
                Event::Removed(outcome) => if done < files.len() {
                    let failure = match outcome {
                        Ok(_) => None,
                        Err(reason) => Some(reason),
                    };
                    Cleaner { held: Held::Sweeping { mirror, files, done: done + 1, failure } }
                } else {
                    Cleaner { held: Held::Sweeping { mirror, files, done, failure } }
                },
                Event::Listed(_) => Cleaner { held: Held::Sweeping { mirror, files, done, failure } },
            },
            Held::Missing => Cleaner { held: Held::Missing },
        }
    }
}

} // verus!
