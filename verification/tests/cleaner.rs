use std::collections::BTreeMap;
use std::path::PathBuf;

use cargo_profclean::cleaner::{Cleaner, Event};
use cargo_profclean::listing::{Entry, Listing};
use cargo_profclean::stage::{Notice, Request};

/// A disk in memory: directories with their entries in listing order, and
/// the files that refuse deletion.
struct Disk {
    dirs: BTreeMap<String, Vec<(String, String, bool)>>,
    stuck: BTreeMap<String, String>,
}

impl Disk {
    fn new() -> Disk {
        Disk { dirs: BTreeMap::new(), stuck: BTreeMap::new() }
    }

    fn dir(&mut self, path: &str) {
        self.dirs.entry(path.to_string()).or_default();
        self.link(path, false);
    }

    fn file(&mut self, path: &str) {
        self.link(path, true);
    }

    fn link(&mut self, path: &str, is_file: bool) {
        if let Some((parent, name)) = path.rsplit_once('/') {
            if let Some(entries) = self.dirs.get_mut(parent) {
                entries.push((name.to_string(), path.to_string(), is_file));
            }
        }
    }

    fn list(&self, at: &str) -> Listing<String> {
        self.dirs.get(at).map(|entries| {
            entries
                .iter()
                .map(|(name, path, is_file)| {
                    Some(Entry { name: Some(name.clone()), path: path.clone(), is_file: *is_file })
                })
                .collect()
        })
    }

    fn remove(&mut self, file: &str) -> Result<(), String> {
        if let Some(reason) = self.stuck.get(file) {
            return Err(reason.clone());
        }
        for entries in self.dirs.values_mut() {
            entries.retain(|(_, path, _)| path != file);
        }
        Ok(())
    }

    fn names(&self, at: &str) -> Vec<String> {
        self.dirs[at].iter().map(|(name, _, _)| name.clone()).collect()
    }
}

fn owned_request(request: Request<&String>) -> Request<String> {
    match request {
        Request::List(at) => Request::List(at.clone()),
        Request::Remove(at) => Request::Remove(at.clone()),
        Request::Nothing => Request::Nothing,
    }
}

fn owned_notice(notice: Notice<&String>) -> Notice<String> {
    match notice {
        Notice::MirrorMissing => Notice::MirrorMissing,
        Notice::Found { count, mirror } => Notice::Found { count, mirror: mirror.clone() },
        Notice::Cleaning { file } => Notice::Cleaning { file: file.clone() },
        Notice::Failed { file, reason } => Notice::Failed { file: file.clone(), reason },
        Notice::Cleaned { count } => Notice::Cleaned { count },
        Notice::NoneFound { mirror } => Notice::NoneFound { mirror: mirror.clone() },
    }
}

fn told(cleaner: &Cleaner<String>) -> Vec<Notice<String>> {
    cleaner.notices().into_iter().map(owned_notice).collect()
}

fn wanted(cleaner: &Cleaner<String>) -> Request<String> {
    owned_request(cleaner.pending())
}

/// Drives a cleaner over the disk as a caller does and records what it asked
/// for and what it told.
fn run(disk: &mut Disk, sources: &str) -> (Vec<Request<String>>, Vec<Notice<String>>) {
    let mut cleaner = Cleaner::new(sources.to_string());
    let mut requests = Vec::new();
    let mut notices = Vec::new();
    loop {
        notices.extend(told(&cleaner));
        let request = wanted(&cleaner);
        let event = match &request {
            Request::List(at) => Event::Listed(disk.list(at)),
            Request::Remove(file) => Event::Removed(disk.remove(file)),
            Request::Nothing => break,
        };
        requests.push(request);
        cleaner = cleaner.step(event);
    }
    (requests, notices)
}

fn list(at: &str) -> Request<String> {
    Request::List(at.to_string())
}

fn remove(at: &str) -> Request<String> {
    Request::Remove(at.to_string())
}

fn cleaning(at: &str) -> Notice<String> {
    Notice::Cleaning { file: at.to_string() }
}

const ROOT: &str = "/home/u/.cargo";
const REGISTRY: &str = "/home/u/.cargo/registry";
const SOURCES: &str = "/home/u/.cargo/registry/src";
const MIRROR: &str = "/home/u/.cargo/registry/src/index.crates.io-abc123";
const FOO: &str = "/home/u/.cargo/registry/src/index.crates.io-abc123/foo-1.0";
const BAR: &str = "/home/u/.cargo/registry/src/index.crates.io-abc123/bar-2.0";

fn cache() -> Disk {
    let mut disk = Disk::new();
    disk.dirs.insert(ROOT.to_string(), Vec::new());
    disk.dir(REGISTRY);
    disk.dir(SOURCES);
    disk.dir(MIRROR);
    disk
}

fn below(dir: &str, name: &str) -> String {
    format!("{}/{}", dir, name)
}

#[test]
fn single_artifact_is_found_and_cleaned() {
    let mut disk = cache();
    disk.dir(FOO);
    disk.file(&below(FOO, "bar.mm_profdata"));
    disk.file(&below(FOO, "baz.txt"));
    let (requests, notices) = run(&mut disk, SOURCES);
    assert_eq!(
        requests,
        vec![list(SOURCES), list(MIRROR), list(FOO), remove(&below(FOO, "bar.mm_profdata"))]
    );
    assert_eq!(
        notices,
        vec![
            Notice::Found { count: 1, mirror: MIRROR.to_string() },
            cleaning(&below(FOO, "bar.mm_profdata")),
            Notice::Cleaned { count: 1 },
        ]
    );
    assert_eq!(disk.names(FOO), vec!["baz.txt".to_string()]);
}

#[test]
fn run_without_registry_sources_reports_and_ends() {
    let mut disk = Disk::new();
    disk.dirs.insert(ROOT.to_string(), Vec::new());
    disk.dir(&below(ROOT, "bin"));
    let (requests, notices) = run(&mut disk, SOURCES);
    assert_eq!(requests, vec![list(SOURCES)]);
    assert_eq!(notices, vec![Notice::MirrorMissing]);
    assert_eq!(disk.names(ROOT), vec!["bin".to_string()]);
}

#[test]
fn run_without_mirror_directory_reports_and_ends() {
    let mut disk = Disk::new();
    disk.dirs.insert(ROOT.to_string(), Vec::new());
    disk.dir(REGISTRY);
    disk.dir(SOURCES);
    disk.dir(&below(SOURCES, "github.com-1ecc6299db9ec823"));
    let (requests, notices) = run(&mut disk, SOURCES);
    assert_eq!(requests, vec![list(SOURCES)]);
    assert_eq!(notices, vec![Notice::MirrorMissing]);
}

#[test]
fn run_without_artifacts_deletes_nothing() {
    let mut disk = cache();
    disk.dir(FOO);
    disk.file(&below(FOO, "Cargo.toml"));
    disk.dir(BAR);
    let (requests, notices) = run(&mut disk, SOURCES);
    assert_eq!(requests, vec![list(SOURCES), list(MIRROR), list(FOO), list(BAR)]);
    assert_eq!(
        notices,
        vec![
            Notice::Found { count: 0, mirror: MIRROR.to_string() },
            Notice::NoneFound { mirror: MIRROR.to_string() },
        ]
    );
    assert_eq!(disk.names(FOO), vec!["Cargo.toml".to_string()]);
}

#[test]
fn run_on_empty_mirror_directory_deletes_nothing() {
    let mut disk = cache();
    let (requests, notices) = run(&mut disk, SOURCES);
    assert_eq!(requests, vec![list(SOURCES), list(MIRROR)]);
    assert_eq!(
        notices,
        vec![
            Notice::Found { count: 0, mirror: MIRROR.to_string() },
            Notice::NoneFound { mirror: MIRROR.to_string() },
        ]
    );
}

#[test]
fn only_artifacts_two_levels_down_are_deleted() {
    let mut disk = cache();
    disk.file(&below(MIRROR, "stray.mm_profdata"));
    disk.dir(FOO);
    disk.file(&below(FOO, "a.mm_profdata"));
    disk.file(&below(FOO, "lib.rs"));
    disk.dir(&below(FOO, "src"));
    disk.file(&below(&below(FOO, "src"), "deep.mm_profdata"));
    disk.file(&below(FOO, "b.mm_profdata"));
    disk.dir(BAR);
    disk.file(&below(BAR, "c.mm_profdata"));
    disk.file(&below(BAR, "c.MM_PROFDATA"));
    let (requests, notices) = run(&mut disk, SOURCES);
    assert_eq!(
        requests,
        vec![
            list(SOURCES),
            list(MIRROR),
            list(&below(MIRROR, "stray.mm_profdata")),
            list(FOO),
            list(BAR),
            remove(&below(FOO, "a.mm_profdata")),
            remove(&below(FOO, "b.mm_profdata")),
            remove(&below(BAR, "c.mm_profdata")),
        ]
    );
    assert_eq!(notices.first(), Some(&Notice::Found { count: 3, mirror: MIRROR.to_string() }));
    assert_eq!(notices.last(), Some(&Notice::Cleaned { count: 3 }));
    assert_eq!(notices.len(), 5);
    assert_eq!(
        disk.names(MIRROR),
        vec!["stray.mm_profdata".to_string(), "foo-1.0".to_string(), "bar-2.0".to_string()]
    );
    assert_eq!(disk.names(FOO), vec!["lib.rs".to_string(), "src".to_string()]);
    assert_eq!(disk.names(&below(FOO, "src")), vec!["deep.mm_profdata".to_string()]);
    assert_eq!(disk.names(BAR), vec!["c.MM_PROFDATA".to_string()]);
}

#[test]
fn second_run_finds_nothing() {
    let mut disk = cache();
    disk.dir(FOO);
    disk.file(&below(FOO, "a.mm_profdata"));
    disk.file(&below(FOO, "b.mm_profdata"));
    let (_, first) = run(&mut disk, SOURCES);
    assert_eq!(first.last(), Some(&Notice::Cleaned { count: 2 }));
    let (requests, second) = run(&mut disk, SOURCES);
    assert_eq!(requests, vec![list(SOURCES), list(MIRROR), list(FOO)]);
    assert_eq!(
        second,
        vec![
            Notice::Found { count: 0, mirror: MIRROR.to_string() },
            Notice::NoneFound { mirror: MIRROR.to_string() },
        ]
    );
}

#[test]
fn stuck_file_does_not_stop_the_run() {
    let mut disk = cache();
    disk.dir(FOO);
    disk.file(&below(FOO, "a.mm_profdata"));
    disk.file(&below(FOO, "b.mm_profdata"));
    disk.file(&below(FOO, "c.mm_profdata"));
    disk.stuck.insert(below(FOO, "b.mm_profdata"), "Permission denied".to_string());
    let (requests, notices) = run(&mut disk, SOURCES);
    assert_eq!(
        requests,
        vec![
            list(SOURCES),
            list(MIRROR),
            list(FOO),
            remove(&below(FOO, "a.mm_profdata")),
            remove(&below(FOO, "b.mm_profdata")),
            remove(&below(FOO, "c.mm_profdata")),
        ]
    );
    assert_eq!(
        notices,
        vec![
            Notice::Found { count: 3, mirror: MIRROR.to_string() },
            cleaning(&below(FOO, "a.mm_profdata")),
            cleaning(&below(FOO, "b.mm_profdata")),
            Notice::Failed {
                file: below(FOO, "b.mm_profdata"),
                reason: "Permission denied".to_string(),
            },
            cleaning(&below(FOO, "c.mm_profdata")),
            Notice::Cleaned { count: 3 },
        ]
    );
    assert_eq!(disk.names(FOO), vec!["b.mm_profdata".to_string()]);
}

#[test]
fn failure_of_the_last_file_is_told_before_the_count() {
    let mut disk = cache();
    disk.dir(FOO);
    disk.file(&below(FOO, "a.mm_profdata"));
    disk.stuck.insert(below(FOO, "a.mm_profdata"), "busy".to_string());
    let (_, notices) = run(&mut disk, SOURCES);
    assert_eq!(
        notices,
        vec![
            Notice::Found { count: 1, mirror: MIRROR.to_string() },
            cleaning(&below(FOO, "a.mm_profdata")),
            Notice::Failed { file: below(FOO, "a.mm_profdata"), reason: "busy".to_string() },
            Notice::Cleaned { count: 1 },
        ]
    );
}

#[test]
fn first_of_two_mirror_directories_is_taken() {
    let mut disk = cache();
    let other = below(SOURCES, "index.crates.io-zzz999");
    disk.dir(&other);
    disk.dir(&below(&other, "foo-1.0"));
    disk.file(&below(&below(&other, "foo-1.0"), "x.mm_profdata"));
    disk.dir(FOO);
    disk.file(&below(FOO, "a.mm_profdata"));
    let (requests, _) = run(&mut disk, SOURCES);
    assert_eq!(
        requests,
        vec![list(SOURCES), list(MIRROR), list(FOO), remove(&below(FOO, "a.mm_profdata"))]
    );
    assert_eq!(disk.names(&below(&other, "foo-1.0")), vec!["x.mm_profdata".to_string()]);
}

#[test]
fn new_cleaner_waits_for_the_sources_listing() {
    let cleaner = Cleaner::new(SOURCES.to_string());
    assert_eq!(wanted(&cleaner), list(SOURCES));
    assert_eq!(told(&cleaner), Vec::<Notice<String>>::new());
}

#[test]
fn event_of_the_wrong_kind_changes_nothing() {
    let cleaner = Cleaner::new(SOURCES.to_string());
    let cleaner = cleaner.step(Event::Removed(Ok(())));
    assert_eq!(wanted(&cleaner), list(SOURCES));
    let entry = Some(Entry {
        name: Some("index.crates.io-abc123".to_string()),
        path: MIRROR.to_string(),
        is_file: false,
    });
    let cleaner = cleaner.step(Event::Listed(Some(vec![entry])));
    assert_eq!(wanted(&cleaner), list(MIRROR));
    let cleaner = cleaner.step(Event::Removed(Err("no".to_string())));
    assert_eq!(wanted(&cleaner), list(MIRROR));
    let folder = Some(Entry {
        name: Some("foo-1.0".to_string()),
        path: FOO.to_string(),
        is_file: false,
    });
    let cleaner = cleaner.step(Event::Listed(Some(vec![folder])));
    assert_eq!(wanted(&cleaner), list(FOO));
    let cleaner = cleaner.step(Event::Removed(Ok(())));
    assert_eq!(wanted(&cleaner), list(FOO));
    let file = Some(Entry {
        name: Some("bar.mm_profdata".to_string()),
        path: below(FOO, "bar.mm_profdata"),
        is_file: true,
    });
    let cleaner = cleaner.step(Event::Listed(Some(vec![file])));
    assert_eq!(wanted(&cleaner), remove(&below(FOO, "bar.mm_profdata")));
    let cleaner = cleaner.step(Event::Listed(None));
    assert_eq!(wanted(&cleaner), remove(&below(FOO, "bar.mm_profdata")));
    assert_eq!(
        told(&cleaner),
        vec![
            Notice::Found { count: 1, mirror: MIRROR.to_string() },
            cleaning(&below(FOO, "bar.mm_profdata")),
        ]
    );
}

#[test]
fn finished_cleaner_ignores_events() {
    let cleaner = Cleaner::new(SOURCES.to_string());
    let cleaner = cleaner.step(Event::Listed(None));
    assert_eq!(wanted(&cleaner), Request::Nothing);
    let cleaner = cleaner.step(Event::Listed(Some(vec![Some(Entry {
        name: Some("index.crates.io-abc123".to_string()),
        path: MIRROR.to_string(),
        is_file: false,
    })])));
    assert_eq!(wanted(&cleaner), Request::Nothing);
    let cleaner = cleaner.step(Event::Removed(Ok(())));
    assert_eq!(wanted(&cleaner), Request::Nothing);
    assert_eq!(told(&cleaner), vec![Notice::MirrorMissing]);
}

#[test]
fn unlistable_folder_is_skipped() {
    let mut disk = cache();
    disk.file(&below(MIRROR, ".package-cache"));
    disk.dir(FOO);
    disk.file(&below(FOO, "a.mm_profdata"));
    let (requests, notices) = run(&mut disk, SOURCES);
    assert_eq!(
        requests,
        vec![
            list(SOURCES),
            list(MIRROR),
            list(&below(MIRROR, ".package-cache")),
            list(FOO),
            remove(&below(FOO, "a.mm_profdata")),
        ]
    );
    assert_eq!(notices.last(), Some(&Notice::Cleaned { count: 1 }));
}

#[test]
fn locations_may_be_paths_of_the_platform() {
    let sources = PathBuf::from("/c").join("registry").join("src");
    let mirror = sources.join("index.crates.io-abc123");
    let folder = mirror.join("foo-1.0");
    let file = folder.join("bar.mm_profdata");
    let cleaner = Cleaner::new(sources.clone());
    assert_eq!(cleaner.pending(), Request::List(&sources));
    let cleaner = cleaner.step(Event::Listed(Some(vec![Some(Entry {
        name: Some("index.crates.io-abc123".to_string()),
        path: mirror.clone(),
        is_file: false,
    })])));
    assert_eq!(cleaner.pending(), Request::List(&mirror));
    let cleaner = cleaner.step(Event::Listed(Some(vec![Some(Entry {
        name: Some("foo-1.0".to_string()),
        path: folder.clone(),
        is_file: false,
    })])));
    assert_eq!(cleaner.pending(), Request::List(&folder));
    let cleaner = cleaner.step(Event::Listed(Some(vec![Some(Entry {
        name: Some("bar.mm_profdata".to_string()),
        path: file.clone(),
        is_file: true,
    })])));
    assert_eq!(
        cleaner.notices(),
        vec![Notice::Found { count: 1, mirror: &mirror }, Notice::Cleaning { file: &file }]
    );
    assert_eq!(cleaner.pending(), Request::Remove(&file));
    let cleaner = cleaner.step(Event::Removed(Err("Permission denied".to_string())));
    assert_eq!(
        cleaner.notices(),
        vec![
            Notice::Failed { file: &file, reason: "Permission denied".to_string() },
            Notice::Cleaned { count: 1 },
        ]
    );
    assert_eq!(cleaner.pending(), Request::Nothing);
}

#[test]
fn directory_named_like_an_artifact_is_neither_counted_nor_deleted() {
    let mut disk = cache();
    disk.dir(FOO);
    disk.dir(&below(FOO, "cov.mm_profdata"));
    disk.file(&below(&below(FOO, "cov.mm_profdata"), "inner.mm_profdata"));
    let (requests, notices) = run(&mut disk, SOURCES);
    assert_eq!(requests, vec![list(SOURCES), list(MIRROR), list(FOO)]);
    assert_eq!(
        notices,
        vec![
            Notice::Found { count: 0, mirror: MIRROR.to_string() },
            Notice::NoneFound { mirror: MIRROR.to_string() },
        ]
    );
    assert_eq!(disk.names(FOO), vec!["cov.mm_profdata".to_string()]);
    assert_eq!(disk.names(&below(FOO, "cov.mm_profdata")), vec!["inner.mm_profdata".to_string()]);
}

#[test]
fn directory_named_like_an_artifact_stays_beside_a_deleted_file() {
    let mut disk = cache();
    disk.dir(FOO);
    disk.dir(&below(FOO, "cov.mm_profdata"));
    disk.file(&below(FOO, "run.mm_profdata"));
    let (requests, notices) = run(&mut disk, SOURCES);
    assert_eq!(
        requests,
        vec![list(SOURCES), list(MIRROR), list(FOO), remove(&below(FOO, "run.mm_profdata"))]
    );
    assert_eq!(
        notices,
        vec![
            Notice::Found { count: 1, mirror: MIRROR.to_string() },
            cleaning(&below(FOO, "run.mm_profdata")),
            Notice::Cleaned { count: 1 },
        ]
    );
    assert_eq!(disk.names(FOO), vec!["cov.mm_profdata".to_string()]);
}
