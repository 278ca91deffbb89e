//! Discovery: from what a walk of the search roots saw to the set of
//! profiles.
//!
//! The walk itself is the caller's: it lists, for each root, the files
//! beneath it and the directories it could not read. Which of the files are
//! profiles is decided here.

use crate::error::Error;
use crate::pattern::{glob_matches, is_glob, pattern_text};
use crate::profile::{lemma_found_wf, Profile, ProfileView};
use crate::profile_set::{
    all_wf, collect, has_path, lemma_collect_ascends, lemma_collect_paths, paths_ascend, views,
    ProfileSet,
};
use crate::text::{
    components, has_profile_extension, is_profile_file, join, joined, lemma_precedes_irreflexive,
};
use vstd::prelude::*;
use vstd::string::*;

verus! {

/// One thing that the walk of a directory saw. Paths are relative to the
/// root that was walked, with `/` between their components.
#[derive(Debug, Clone, PartialEq, Eq)]
pub enum Entry {
    /// A file.
    File(String),
    /// A directory that could not be read.
    Unreadable(String),
}

/// What the walk found a root to be.
#[derive(Debug, Clone, PartialEq, Eq)]
pub enum Walked {
    /// The root is itself a file.
    File,
    /// The root is a directory; the entries are what lies beneath it, in the
    /// order of the walk.
    Directory(Vec<Entry>),
    /// The root could not be read.
    Unreadable,
}

/// A search root and what the walk saw there.
#[derive(Debug, Clone, PartialEq, Eq)]
pub struct Root {
    pub path: String,
    pub walked: Walked,
}

/// The result of a discovery: the profiles, and a warning for each
/// directory that could not be read, which is its path.
#[derive(Debug)]
pub struct Discovery {
    pub profiles: ProfileSet,
    pub warnings: Vec<String>,
}

/// The root that is searched where none is given: the current directory.
pub open spec fn current_directory() -> Seq<char> {
    seq!['.']
}

/// The profile that an entry stands for: a file that the pattern matches.
pub open spec fn entry_candidate(root: Seq<char>, entry: Entry, pattern: Seq<char>) -> Option<
    ProfileView,
> {
    match entry {
        Entry::File(below) => if glob_matches(pattern, below@) {
            ProfileView::found(root, below@)
        } else {
            None
        },
        Entry::Unreadable(_) => None,
    }
}

/// The profiles among the entries of a directory, in the order of the
/// entries.
pub open spec fn entries_candidates(
    root: Seq<char>,
    entries: Seq<Entry>,
    pattern: Seq<char>,
) -> Seq<ProfileView>
    decreases entries.len(),
{
    if entries.len() == 0 {
        Seq::empty()
    } else {
        let front = entries_candidates(root, entries.drop_last(), pattern);
        match entry_candidate(root, entries.last(), pattern) {
            Some(p) => front.push(p),
            None => front,
        }
    }
}

/// The profile that a root stands for by itself: a file with the profile
/// extension, whatever the pattern says.
pub open spec fn file_candidate(path: Seq<char>) -> Option<ProfileView> {
    if has_profile_extension(path) {
        ProfileView::file(path)
    } else {
        None
    }
}

/// The profiles that one root gives.
pub open spec fn root_candidates(root: Root, pattern: Seq<char>) -> Seq<ProfileView> {
    match root.walked {
        Walked::File => match file_candidate(root.path@) {
            Some(p) => seq![p],
            None => Seq::empty(),
        },
        Walked::Directory(entries) => entries_candidates(root.path@, entries@, pattern),
        Walked::Unreadable => Seq::empty(),
    }
}

/// The profiles that the roots give, root by root.
pub open spec fn candidates(roots: Seq<Root>, pattern: Seq<char>) -> Seq<ProfileView>
    decreases roots.len(),
{
    if roots.len() == 0 {
        Seq::empty()
    } else {
        candidates(roots.drop_last(), pattern) + root_candidates(roots.last(), pattern)
    }
}

/// The warnings among the entries of a directory.
pub open spec fn entries_warnings(root: Seq<char>, entries: Seq<Entry>) -> Seq<Seq<char>>
    decreases entries.len(),
{
    if entries.len() == 0 {
        Seq::empty()
    } else {
        let front = entries_warnings(root, entries.drop_last());
        match entries.last() {
            Entry::File(_) => front,
            Entry::Unreadable(below) => front.push(joined(root, below@)),
        }
    }
}

/// The warnings that one root gives.
pub open spec fn root_warnings(root: Root) -> Seq<Seq<char>> {
    match root.walked {
        Walked::File => Seq::empty(),
        Walked::Directory(entries) => entries_warnings(root.path@, entries@),
        Walked::Unreadable => seq![root.path@],
    }
}

/// The warnings that the roots give, root by root.
pub open spec fn warnings(roots: Seq<Root>) -> Seq<Seq<char>>
    decreases roots.len(),
{
    if roots.len() == 0 {
        Seq::empty()
    } else {
        warnings(roots.drop_last()) + root_warnings(roots.last())
    }
}

/// The entry is a file that the pattern matches, and `path` is where it
/// lies under the root.
pub open spec fn entry_offers(
    root: Seq<char>,
    entry: Entry,
    pattern: Seq<char>,
    path: Seq<char>,
) -> bool {
    &&& entry matches Entry::File(below)
    &&& glob_matches(pattern, below@)
    &&& components(below@).len() > 0
    &&& path == joined(root, below@)
}

/// The root gives a profile at `path`: it is that file and has the profile
/// extension, or it is a directory with a matching file there.
pub open spec fn root_offers(root: Root, pattern: Seq<char>, path: Seq<char>) -> bool {
    match root.walked {
        Walked::File => has_profile_extension(root.path@) && path == root.path@,
        Walked::Directory(entries) => exists|e: int|
            0 <= e < entries@.len() && entry_offers(
                root.path@,
                #[trigger] entries@[e],
                pattern,
                path,
            ),
        Walked::Unreadable => false,
    }
}

/// Some root gives a profile at `path`.
pub open spec fn offered(roots: Seq<Root>, pattern: Seq<char>, path: Seq<char>) -> bool {
    exists|r: int| 0 <= r < roots.len() && root_offers(#[trigger] roots[r], pattern, path)
}

/// A path with the profile extension has a file name.
pub proof fn lemma_extension_names_file(path: Seq<char>)
    requires
        has_profile_extension(path),
    ensures
        components(path).len() > 0,
{
    let n = path.len() as int;
    assert(path.last() == path.subrange(n - 4, n)[3]);
}

proof fn lemma_entries_candidates(
    root: Seq<char>,
    entries: Seq<Entry>,
    pattern: Seq<char>,
    path: Seq<char>,
)
    ensures
        all_wf(entries_candidates(root, entries, pattern)),
        has_path(entries_candidates(root, entries, pattern), path) <==> exists|e: int|
            0 <= e < entries.len() && entry_offers(root, #[trigger] entries[e], pattern, path),
    decreases entries.len(),
{
    if entries.len() > 0 {
        let front = entries.drop_last();
        let last = entries.last();
        let n = front.len() as int;
        lemma_entries_candidates(root, front, pattern, path);
        let before = entries_candidates(root, front, pattern);
        let all = entries_candidates(root, entries, pattern);
        let m = before.len() as int;
        if let Some(p) = entry_candidate(root, last, pattern) {
            let below = last->File_0;
            lemma_found_wf(root, below@);
            assert(all == before.push(p));
            assert(all[m] == p);
        }
        if has_path(all, path) {
            let j = choose|j: int| 0 <= j < all.len() && (#[trigger] all[j]).path == path;
            if j < before.len() {
                assert(before[j].path == path);
                let e = choose|e: int|
                    0 <= e < front.len() && entry_offers(root, #[trigger] front[e], pattern, path);
                assert(entry_offers(root, entries[e], pattern, path));
            } else {
                assert(entry_offers(root, entries[n], pattern, path));
            }
        }
        if exists|e: int|
            0 <= e < entries.len() && entry_offers(root, #[trigger] entries[e], pattern, path) {
            let e = choose|e: int|
                0 <= e < entries.len() && entry_offers(root, #[trigger] entries[e], pattern, path);
            if e < n {
                assert(entry_offers(root, front[e], pattern, path));
                let j = choose|j: int|
                    0 <= j < before.len() && (#[trigger] before[j]).path == path;
                assert(all[j].path == path);
            } else {
                assert(all[m].path == path);
            }
        }
    }
}

proof fn lemma_root_candidates(root: Root, pattern: Seq<char>, path: Seq<char>)
    ensures
        all_wf(root_candidates(root, pattern)),
        has_path(root_candidates(root, pattern), path) <==> root_offers(root, pattern, path),
{
    let c = root_candidates(root, pattern);
    match root.walked {
        Walked::File => {
            if has_profile_extension(root.path@) {
                lemma_extension_names_file(root.path@);
                assert(c[0].path == root.path@);
            }
        },
        Walked::Directory(entries) => {
            lemma_entries_candidates(root.path@, entries@, pattern, path);
        },
        Walked::Unreadable => {},
    }
}

proof fn lemma_candidates(roots: Seq<Root>, pattern: Seq<char>, path: Seq<char>)
    ensures
        all_wf(candidates(roots, pattern)),
        has_path(candidates(roots, pattern), path) <==> offered(roots, pattern, path),
    decreases roots.len(),
{
    if roots.len() > 0 {
        let front = roots.drop_last();
        let last = roots.last();
        let n = front.len() as int;
        lemma_candidates(front, pattern, path);
        lemma_root_candidates(last, pattern, path);
        let a = candidates(front, pattern);
        let b = root_candidates(last, pattern);
        let all = candidates(roots, pattern);
        assert(all == a + b);
        if has_path(all, path) {
            let j = choose|j: int| 0 <= j < all.len() && (#[trigger] all[j]).path == path;
            if j < a.len() {
                assert(a[j].path == path);
                let r = choose|r: int|
                    0 <= r < front.len() && root_offers(#[trigger] front[r], pattern, path);
                assert(root_offers(roots[r], pattern, path));
            } else {
                assert(b[j - a.len()].path == path);
                assert(root_offers(roots[n], pattern, path));
            }
        }
        if offered(roots, pattern, path) {
            let r = choose|r: int|
                0 <= r < roots.len() && root_offers(#[trigger] roots[r], pattern, path);
            if r < n {
                assert(root_offers(front[r], pattern, path));
                let j = choose|j: int| 0 <= j < a.len() && (#[trigger] a[j]).path == path;
                assert(all[j].path == path);
            } else {
                let j = choose|j: int| 0 <= j < b.len() && (#[trigger] b[j]).path == path;
                assert(all[a.len() + j].path == path);
            }
        }
    }
}

/// What a discovery finds. The profiles are in dictionary order of their
/// paths, so no path occurs twice, and each is well formed. A path is among
/// them exactly if some root gives a profile there: a root that is a file
/// with the profile extension, or a file beneath a root whose path relative
/// to that root the pattern matches.
pub proof fn lemma_discovery_exact(roots: Seq<Root>, pattern: Seq<char>)
    ensures
        paths_ascend(collect(candidates(roots, pattern))),
        all_wf(collect(candidates(roots, pattern))),
        forall|i: int, j: int|
            0 <= i < j < collect(candidates(roots, pattern)).len() ==> collect(
                candidates(roots, pattern),
            )[i].path != collect(candidates(roots, pattern))[j].path,
        forall|path: Seq<char>|
            has_path(collect(candidates(roots, pattern)), path) <==> offered(roots, pattern, path),
{
    let c = candidates(roots, pattern);
    let found = collect(c);
    lemma_candidates(roots, pattern, Seq::empty());
    lemma_collect_ascends(c);
    assert forall|i: int, j: int| 0 <= i < j < found.len() implies found[i].path
        != found[j].path by {
        lemma_precedes_irreflexive(found[i].path);
    }
    assert forall|path: Seq<char>| has_path(found, path) <==> offered(roots, pattern, path) by {
        lemma_candidates(roots, pattern, path);
        lemma_collect_paths(c, path);
    }
}

/// The message of the error for a text that is no glob pattern.
pub open spec fn invalid_glob_text(pattern: Seq<char>) -> Seq<char> {
    "invalid glob pattern: "@ + pattern
}

/// The roots to walk: those given, or the current directory if none is.
pub fn effective_roots(given: Vec<String>) -> (roots: Vec<String>)
    ensures
        given.len() > 0 ==> roots == given,
        given.len() == 0 ==> roots.deep_view() == seq![current_directory()],
{
    if given.len() > 0 {
        given
    } else {
        proof {
            reveal_strlit(".");
        }
        let here = String::from_str(".");
        assert(here@ =~= current_directory());
        let mut roots: Vec<String> = Vec::new();
        roots.push(here);
        assert(roots.deep_view() =~= seq![current_directory()]);
        roots
    }
}

/// Adds what one directory holds to the candidates and the warnings.
fn take_entries(
    root: &String,
    entries: &Vec<Entry>,
    compiled: &glob::Pattern,
    found: &mut Vec<Profile>,
    notes: &mut Vec<String>,
)
    ensures
        views(final(found)@) == views(old(found)@) + entries_candidates(
            root@,
            entries@,
            pattern_text(*compiled),
        ),
        final(notes).deep_view() == old(notes).deep_view() + entries_warnings(root@, entries@),
{
    let ghost pattern = pattern_text(*compiled);
    let ghost found_before = views(found@);
    let ghost notes_before = notes.deep_view();
    let mut e: usize = 0;
    assert(found_before + entries_candidates(root@, entries@.take(0), pattern) =~= found_before);
    assert(notes_before + entries_warnings(root@, entries@.take(0)) =~= notes_before);
    while e < entries.len()
        invariant
            e <= entries.len(),
            pattern == pattern_text(*compiled),
            views(found@) == found_before + entries_candidates(
                root@,
                entries@.take(e as int),
                pattern,
            ),
            notes.deep_view() == notes_before + entries_warnings(root@, entries@.take(e as int)),
        decreases entries.len() - e,
    {
        let ghost seen = entries@.take(e as int);
        let ghost next = entries@.take(e + 1);
        assert(next.drop_last() =~= seen);
        assert(next.last() == entries@[e as int]);
        match &entries[e] {
            Entry::File(below) => {
                if compiled.matches(below.as_str()) {
                    if let Some(profile) = Profile::found(root.as_str(), below.as_str()) {
                        let ghost before = views(found@);
                        found.push(profile);
                        assert(views(found@) =~= before.push(profile@));
                        assert(views(found@) =~= found_before + entries_candidates(
                            root@,
                            next,
                            pattern,
                        ));
                    }
                }
            },
            Entry::Unreadable(below) => {
                let note = join(root.as_str(), below.as_str());
                let ghost before = notes.deep_view();
                notes.push(note);
                assert(notes.deep_view() =~= before.push(note@));
                assert(notes.deep_view() =~= notes_before + entries_warnings(root@, next));
            },
        }
        e += 1;
    }
    assert(entries@.take(entries.len() as int) =~= entries@);
}

/// Finds the profiles among what the walk of the roots saw.
///
/// A root that is a file is a profile if it has the profile extension; the
/// pattern is not asked. A file beneath a root is a profile if the pattern
/// matches its path relative to the root. Where the same path is found more
/// than once the first find stays. A text that is no glob pattern is an
/// error.
pub fn discover(roots: &Vec<Root>, pattern: &str) -> (found: Result<Discovery, Error>)
    ensures
        found is Ok == is_glob(pattern@),
        found matches Ok(d) ==> {
            &&& d.profiles@ == collect(candidates(roots@, pattern@))
            &&& d.warnings.deep_view() == warnings(roots@)
        },
        found matches Err(e) ==> {
            &&& e matches Error::GenericError(m)
            &&& m@ == invalid_glob_text(pattern@)
        },
{
    let compiled = match glob::Pattern::new(pattern) {
        Ok(compiled) => compiled,
        Err(_) => {
            let message = String::from_str("invalid glob pattern: ").concat(pattern);
            return Err(Error::GenericError(message));
        },
    };
    let mut found: Vec<Profile> = Vec::new();
    let mut notes: Vec<String> = Vec::new();
    let mut r: usize = 0;
    assert(views(found@) =~= candidates(roots@.take(0), pattern@));
    assert(notes.deep_view() =~= warnings(roots@.take(0)));
    while r < roots.len()
        invariant
            r <= roots.len(),
            pattern_text(compiled) == pattern@,
            views(found@) == candidates(roots@.take(r as int), pattern@),
            notes.deep_view() == warnings(roots@.take(r as int)),
        decreases roots.len() - r,
    {
        let ghost seen = roots@.take(r as int);
        let ghost next = roots@.take(r + 1);
        assert(next.drop_last() =~= seen);
        assert(next.last() == roots@[r as int]);
        let ghost front = candidates(seen, pattern@);
        let root = &roots[r];
        match &root.walked {
            Walked::File => {
                assert(warnings(next) =~= warnings(seen));
                let mut added = false;
                if is_profile_file(root.path.as_str()) {
                    if let Some(profile) = Profile::file(root.path.as_str()) {
                        found.push(profile);
                        assert(views(found@) =~= front + seq![profile@]);
                        added = true;
                    }
                }
                if !added {
                    assert(candidates(next, pattern@) =~= front);
                }
            },
            Walked::Directory(entries) => {
                take_entries(&root.path, entries, &compiled, &mut found, &mut notes);
            },
            Walked::Unreadable => {
                assert(candidates(next, pattern@) =~= front);
                let ghost before = notes.deep_view();
                notes.push(root.path.clone());
                assert(notes.deep_view() =~= before + seq![root.path@]);
            },
        }
        r += 1;
    }
    assert(roots@.take(roots.len() as int) =~= roots@);
    Ok(Discovery { profiles: ProfileSet::gather(found), warnings: notes })
}

} // verus!
