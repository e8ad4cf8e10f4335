//! The cleaner as a state machine over plain values: what it asks for, what
//! it tells, and where each answer takes it.

use vstd::prelude::*;
use crate::listing::{artifacts_under, entry_paths, first_mirror, Entry};

verus! {

/// Outside work that the cleaner asks its caller to do. `T` is the form in
/// which a location is handed over.
#[derive(Debug, PartialEq, Eq)]
pub enum Request<T> {
    /// List the directory at this location.
    List(T),
    /// Delete the file at this location.
    Remove(T),
    /// Nothing: the run is over.
    Nothing,
}

/// What the cleaner has to tell the user. `T` is the form in which a location
/// is handed over.
#[derive(Debug, PartialEq, Eq)]
pub enum Notice<T> {
    /// The registry sources hold no mirror directory.
    MirrorMissing,
    /// The mirror directory holds `count` profiling artifacts.
    Found { count: usize, mirror: T },
    /// The file is about to be deleted.
    Cleaning { file: T },
    /// Deleting the file failed for the reason given.
    Failed { file: T, reason: String },
    /// Deleting was attempted on `count` profiling artifacts.
    Cleaned { count: usize },
    /// The mirror directory holds no profiling artifact.
    NoneFound { mirror: T },
}

impl<'a, P> Request<&'a P> {
    /// The same request with each location by value.
    pub open spec fn owned(self) -> Request<P> {
        match self {
            Request::List(at) => Request::List(*at),
            Request::Remove(at) => Request::Remove(*at),
            Request::Nothing => Request::Nothing,
        }
    }
}

impl<'a, P> Notice<&'a P> {
    /// The same notice with each location by value.
    pub open spec fn owned(self) -> Notice<P> {
        match self {
            Notice::MirrorMissing => Notice::MirrorMissing,
            Notice::Found { count, mirror } => Notice::Found { count, mirror: *mirror },
            Notice::Cleaning { file } => Notice::Cleaning { file: *file },
            Notice::Failed { file, reason } => Notice::Failed { file: *file, reason },
            Notice::Cleaned { count } => Notice::Cleaned { count },
            Notice::NoneFound { mirror } => Notice::NoneFound { mirror: *mirror },
        }
    }
}

/// What comes back from the outside work.
pub enum Answer<P> {
    /// The entries of the directory asked for; none where it could not be
    /// listed.
    Listed(Seq<Option<Entry<P>>>),
    /// How deleting the file asked for went: the reason where it failed.
    Removed(Result<(), String>),
}

/// Where a run stands.
pub enum Stage<P> {
    /// Waiting for the listing of the registry sources.
    Resolving { sources: P },
    /// Waiting for the listing of the mirror directory.
    Scanning { mirror: P },
    /// Waiting for the listing of the folder `folders[listings.len()]`; the
    /// folders before it gave `listings`.
    Visiting { mirror: P, folders: Seq<P>, listings: Seq<Seq<Option<Entry<P>>>> },
    /// Deleting `files` one by one: `done` of them have been attempted, and
    /// `failure` tells why the last attempt failed, if it did.
    Sweeping { mirror: P, files: Seq<P>, done: nat, failure: Option<String> },
    /// Over, for want of a mirror directory.
    Missing,
}

/// The reason in a failed outcome.
pub open spec fn failure_of(outcome: Result<(), String>) -> Option<String> {
    match outcome {
        Ok(_) => None,
        Err(reason) => Some(reason),
    }
}

impl<P> Stage<P> {
    /// The stage a run starts in.
    pub open spec fn start(sources: P) -> Stage<P> {
        Stage::Resolving { sources }
    }

    /// The stage in which `files` are about to be deleted.
    pub open spec fn sweep(mirror: P, files: Seq<P>) -> Stage<P> {
        Stage::Sweeping { mirror, files, done: 0, failure: None }
    }

    /// Whether the stage is one that a run can reach.
    pub open spec fn wf(self) -> bool {
        match self {
            Stage::Visiting { folders, listings, .. } => listings.len() < folders.len(),
            Stage::Sweeping { files, done, failure, .. } => {
                &&& done <= files.len()
                &&& failure is Some ==> done > 0
            },
            _ => true,
        }
    }

    /// The outside work that the stage waits for.
    pub open spec fn pending(self) -> Request<P> {
        match self {
            Stage::Resolving { sources } => Request::List(sources),
            Stage::Scanning { mirror } => Request::List(mirror),
            Stage::Visiting { folders, listings, .. } => if listings.len() < folders.len() {
                Request::List(folders[listings.len() as int])
            } else {
                Request::Nothing
            },
            Stage::Sweeping { files, done, .. } => if done < files.len() {
                Request::Remove(files[done as int])
            } else {
                Request::Nothing
            },
            Stage::Missing => Request::Nothing,
        }
    }

    /// What is told on reaching the stage, in order.
    pub open spec fn notices(self) -> Seq<Notice<P>> {
        match self {
            Stage::Sweeping { mirror, files, done, failure } => {
                let found = if done == 0 {
                    seq![Notice::Found { count: files.len() as usize, mirror }]
                } else {
                    Seq::empty()
                };
                let failed = if done > 0 && done <= files.len() && failure is Some {
                    seq![Notice::Failed { file: files[done - 1], reason: failure->0 }]
                } else {
                    Seq::empty()
                };
                let ahead = if done < files.len() {
                    Notice::Cleaning { file: files[done as int] }
                } else if files.len() == 0 {
                    Notice::NoneFound { mirror }
                } else {
                    Notice::Cleaned { count: files.len() as usize }
                };
                (found + failed).push(ahead)
            },
            Stage::Missing => seq![Notice::MirrorMissing],
            _ => Seq::empty(),
        }
    }

    /// Whether `answer` is of the kind that the stage waits for.
    pub open spec fn accepts(self, answer: Answer<P>) -> bool {
        match self.pending() {
            Request::List(_) => answer is Listed,
            Request::Remove(_) => answer is Removed,
            Request::Nothing => false,
        }
    }

    /// The stage that `answer` leads to. An answer that the stage does not
    /// wait for leaves it as it is.
    pub open spec fn next(self, answer: Answer<P>) -> Stage<P> {
        if !self.accepts(answer) {
            self
        } else {
            match self {
                Stage::Resolving { .. } => match first_mirror(answer->Listed_0) {
                    Some(mirror) => Stage::Scanning { mirror },
                    None => Stage::Missing,
                },
                Stage::Scanning { mirror } => {
                    let folders = entry_paths(answer->Listed_0);
                    if folders.len() == 0 {
                        Stage::sweep(mirror, Seq::empty())
                    } else {
                        Stage::Visiting { mirror, folders, listings: Seq::empty() }
                    }
                },
                Stage::Visiting { mirror, folders, listings } => {
                    let listings = listings.push(answer->Listed_0);
                    if listings.len() < folders.len() {
                        Stage::Visiting { mirror, folders, listings }
                    } else {
                        Stage::sweep(mirror, artifacts_under(listings))
                    }
                },
                Stage::Sweeping { mirror, files, done, .. } => Stage::Sweeping {
                    mirror,
                    files,
                    done: done + 1,
                    failure: failure_of(answer->Removed_0),
                },
                Stage::Missing => self,
            }
        }
    }
}

} // verus!
