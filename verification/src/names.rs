//! The fixed names of the cache layout: where the mirror directories lie
//! below the cache root, the prefix of a mirror directory's name and the
//! suffix of a profiling artifact's name.

use vstd::prelude::*;

verus! {

/// The name of the cargo directory below a user's home directory, which is
/// the cache root where no other is given.
pub const CARGO_DIR: &'static str = ".cargo";

/// The name of the registry directory below the cache root.
pub const REGISTRY_DIR: &'static str = "registry";

/// The name of the sources directory below the registry directory. It holds
/// the mirror directories.
pub const SOURCES_DIR: &'static str = "src";

/// The prefix that the name of a registry mirror directory starts with.
pub const MIRROR_PREFIX: &'static str = "index.crates.io-";

/// The suffix that the name of a profiling artifact ends with.
pub const ARTIFACT_SUFFIX: &'static str = ".mm_profdata";

/// Whether `name` is the name of a registry mirror directory.
pub open spec fn is_mirror_name(name: Seq<char>) -> bool {
    MIRROR_PREFIX@.is_prefix_of(name)
}

/// Whether `name` is the name of a profiling artifact. The comparison is
/// exact: letter case counts.
pub open spec fn is_artifact_name(name: Seq<char>) -> bool {
    ARTIFACT_SUFFIX@.is_suffix_of(name)
}

/// The way from the cache root down to the directory that holds the mirror
/// directories: the names of the directories to enter, in order.
pub fn sources_below_root() -> (segments: Vec<&'static str>)
    ensures
        segments@ == seq![REGISTRY_DIR, SOURCES_DIR],
{
    let mut segments: Vec<&'static str> = Vec::new();
    segments.push(REGISTRY_DIR);
    segments.push(SOURCES_DIR);
    assert(segments@ =~= seq![REGISTRY_DIR, SOURCES_DIR]);
    segments
}

/// Tells whether `text` begins with `prefix`, character by character.
pub fn starts_with(text: &str, prefix: &str) -> (found: bool)
    ensures
        found == prefix@.is_prefix_of(text@),
{
    let n: usize = text.unicode_len();
    let m: usize = prefix.unicode_len();
    if m > n {
        return false;
    }
    let mut i: usize = 0;
    while i < m
        invariant
            i <= m <= n,
            n == text@.len(),
            m == prefix@.len(),
            forall|k: int| 0 <= k < i ==> text@[k] == prefix@[k],
        decreases m - i,
    {
        if text.get_char(i) != prefix.get_char(i) {
            assert(text@.subrange(0, m as int)[i as int] != prefix@[i as int]);
            return false;
        }
        i += 1;
    }
    assert(prefix@ =~= text@.subrange(0, m as int));
    true
}

/// Tells whether `text` ends with `suffix`, character by character.
pub fn ends_with(text: &str, suffix: &str) -> (found: bool)
    ensures
        found == suffix@.is_suffix_of(text@),
{
    let n: usize = text.unicode_len();
    let m: usize = suffix.unicode_len();
    if m > n {
        return false;
    }
    let shift: usize = n - m;
    let mut i: usize = 0;
    while i < m
        invariant
            i <= m <= n,
            shift == n - m,
            n == text@.len(),
            m == suffix@.len(),
            forall|k: int| 0 <= k < i ==> text@[shift + k] == suffix@[k],
        decreases m - i,
    {
        if text.get_char(shift + i) != suffix.get_char(i) {
            assert(text@.subrange(shift as int, n as int)[i as int] != suffix@[i as int]);
            return false;
        }
        i += 1;
    }
    assert(suffix@ =~= text@.subrange(shift as int, n as int));
    true
}

/// Tells whether `name` names a registry mirror directory.
pub fn names_mirror(name: &str) -> (found: bool)
    ensures
        found == is_mirror_name(name@),
{
    starts_with(name, MIRROR_PREFIX)
}

/// Tells whether `name` names a profiling artifact.
pub fn names_artifact(name: &str) -> (found: bool)
    ensures
        found == is_artifact_name(name@),
{
    ends_with(name, ARTIFACT_SUFFIX)
}

} // verus!
